use vstd::prelude::*;

use crate::resolver::{canonical_tags, is_canonical, is_resolution, rule_list, Remote};

verus! {

/// Who may see a repository.
#[derive(PartialEq, Eq, Structural, Debug, Clone, Copy)]
pub enum Visibility {
    Public,
    Private,
}

/// An error of the repository API.
#[derive(PartialEq, Eq, Structural, Debug, Clone, Copy)]
pub enum Error {
    /// The repository is absent, or private: the two are told apart nowhere.
    NotFound,
}

/// What the view reads of a repository's identity document.
pub struct Doc {
    pub delegates: Vec<String>,
    pub threshold: usize,
    pub visibility: Visibility,
    /// The canonical-ref rule patterns; `None` where none are configured.
    pub canonical_rules: Option<Vec<String>>,
}

/// A delegate, with its display alias where one is known.
pub struct Delegate {
    pub id: String,
    pub alias: Option<String>,
}

/// A payload of the document: its id, its raw content, and for the project
/// payload the counts and head that enrich it, where they could be read.
pub struct Payload<D, M> {
    pub id: String,
    pub data: D,
    pub meta: Option<M>,
}

/// The id of the project payload.
pub const PROJECT_PAYLOAD: &'static str = "xyz.radicle.project";

/// Repository metadata as served.
pub struct Info<D, M> {
    pub payloads: Vec<Payload<D, M>>,
    pub delegates: Vec<Delegate>,
    pub threshold: usize,
    pub visibility: Visibility,
    pub rid: String,
    pub seeding: usize,
    pub canonical_tags: Option<Vec<(String, String)>>,
}

/// A payload is shown unless it is the project payload and its enrichment
/// could not be read.
pub open spec fn payload_shown<D, M>(p: Payload<D, M>) -> bool {
    p.id@ != PROJECT_PAYLOAD@ || p.meta is Some
}

/// The payloads shown, in their order.
pub open spec fn shown_payloads<D, M>(s: Seq<Payload<D, M>>) -> Seq<Payload<D, M>> {
    s.filter(|p: Payload<D, M>| payload_shown(p))
}

/// What the canonical tag resolution returns for these inputs.
pub open spec fn tags_resolved(
    rules: Seq<String>,
    threshold: nat,
    remotes: Seq<Remote>,
    r: Option<Vec<(String, String)>>,
) -> bool {
    &&& r is None ==> forall|tag: Seq<char>, oid: Seq<char>|
        !is_canonical(rules, threshold, remotes, tag, oid)
    &&& r matches Some(out) ==> out@.len() > 0 && is_resolution(rules, threshold, remotes, out@)
}

/// The canonical-ref rules of a document: none configured is no rule at all.
pub open spec fn doc_rules(doc: Doc) -> Seq<String> {
    match doc.canonical_rules {
        Some(v) => v@,
        None => Seq::empty(),
    }
}

/// The handle through which requests reach repositories.
pub struct Context;

impl Context {
    /// Admits a repository that was opened, with its document, to the view:
    /// a private one is reported as not found.
    pub fn repo<R>(repo: R, doc: Doc) -> (r: Result<(R, Doc), Error>)
        ensures
            r is Err <==> doc.visibility == Visibility::Private,
            r matches Err(e) ==> e == Error::NotFound,
            r matches Ok(v) ==> v.0 == repo && v.1 == doc,
    {
        if doc.visibility == Visibility::Private {
            return Err(Error::NotFound);
        }
        Ok((repo, doc))
    }

    /// Assembles the metadata of a public repository. `seeding` is the count
    /// of the routing index, where it could be read; `remotes` the remotes,
    /// where they could be listed: where not, the canonical tags are left out.
    pub fn repo_info<D, M>(
        rid: String,
        doc: Doc,
        delegates: Vec<Delegate>,
        seeding: Option<usize>,
        payloads: Vec<Payload<D, M>>,
        remotes: Option<&Vec<Remote>>,
    ) -> (r: Info<D, M>)
        requires
            doc.visibility == Visibility::Public,
        ensures
            r.payloads@ == shown_payloads(payloads@),
            r.delegates == delegates,
            r.threshold == doc.threshold,
            r.visibility == doc.visibility,
            r.rid == rid,
            r.seeding == match seeding {
                Some(n) => n,
                None => 0,
            },
            remotes is None ==> r.canonical_tags is None,
            remotes matches Some(rs) ==> tags_resolved(
                doc_rules(doc),
                doc.threshold as nat,
                rs@,
                r.canonical_tags,
            ),
    {
        let ghost all = payloads@;
        let mut rest = payloads;
        let mut shown: Vec<Payload<D, M>> = Vec::new();
        let project = PROJECT_PAYLOAD.to_owned();
        while rest.len() > 0
            invariant
                rest@.len() <= all.len(),
                rest@ == all.subrange(all.len() - rest@.len(), all.len() as int),
                shown@ == shown_payloads(all.subrange(0, all.len() - rest@.len())),
                project@ == PROJECT_PAYLOAD@,
            decreases rest@.len(),
        {
            let ghost done = all.len() - rest@.len();
            let p = rest.remove(0);
            assert(p == all[done]);
            assert(all.subrange(0, done + 1).drop_last() =~= all.subrange(0, done));
            assert(all.subrange(0, done + 1).last() == p);
            let keep = p.meta.is_some() || p.id != project;
            assert(keep == payload_shown(p));
            reveal(Seq::filter);
            assert(shown_payloads(all.subrange(0, done + 1)) == if payload_shown(p) {
                shown_payloads(all.subrange(0, done)).push(p)
            } else {
                shown_payloads(all.subrange(0, done))
            });
            if keep {
                shown.push(p);
            }
            assert(rest@ =~= all.subrange(all.len() - rest@.len(), all.len() as int));
        }
        assert(all.subrange(0, all.len() as int) =~= all);
        let tags = match remotes {
            Some(rs) => {
                let rules = doc.canonical_rules.as_ref();
                assert(rule_list(rules) == doc_rules(doc));
                canonical_tags(rules, doc.threshold, rs)
            },
            None => None,
        };
        Info {
            payloads: shown,
            delegates,
            threshold: doc.threshold,
            visibility: doc.visibility,
            rid,
            seeding: match seeding {
                Some(n) => n,
                None => 0,
            },
            canonical_tags: tags,
        }
    }
}

} // verus!
