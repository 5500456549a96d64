use vstd::prelude::*;

use crate::order::{lemma_text_lt_total, lemma_text_lt_transitive, text_less, text_lt};
use crate::text::{is_prefix, is_suffix, strip_prefix, strip_suffix};

verus! {

/// The namespace of tag refs.
pub const TAGS_NAMESPACE: &'static str = "refs/tags/";

pub open spec fn tags_namespace() -> Seq<char> {
    seq!['r', 'e', 'f', 's', '/', 't', 'a', 'g', 's', '/']
}

pub open spec fn subtree_wildcard() -> Seq<char> {
    seq!['/', '*']
}

pub open spec fn char_wildcard() -> Seq<char> {
    seq!['*']
}

/// One peer's advertised view of a repository: the peer, and its refs as
/// `(ref name, object id)` pairs.
pub struct Remote {
    pub node: String,
    pub refs: Vec<(String, String)>,
}

/// A rule pattern covers a ref name: a pattern ending in `/*` by the prefix
/// before that suffix, one ending in `*` by the prefix before the star,
/// any other by equality.
pub open spec fn pattern_matches(pattern: Seq<char>, name: Seq<char>) -> bool {
    if is_suffix(subtree_wildcard(), pattern) {
        is_prefix(pattern.subrange(0, pattern.len() - 2), name)
    } else if is_suffix(char_wildcard(), pattern) {
        is_prefix(pattern.subrange(0, pattern.len() - 1), name)
    } else {
        pattern == name
    }
}

/// A ref named exactly as a pattern is covered by it, whatever its form: testing
/// equality first or last makes no difference.
pub proof fn lemma_pattern_covers_itself(pattern: Seq<char>)
    ensures
        pattern_matches(pattern, pattern),
{
}

/// A rule that takes part in tag consensus.
pub open spec fn is_tag_rule(pattern: Seq<char>) -> bool {
    is_prefix(tags_namespace(), pattern)
}

/// Some tag rule covers `name`.
pub open spec fn tag_rule_covers(rules: Seq<String>, name: Seq<char>) -> bool {
    exists|k: int|
        0 <= k < rules.len() && is_tag_rule(#[trigger] rules[k]@) && pattern_matches(
            rules[k]@,
            name,
        )
}

/// `refname` is the ref of tag `tag`, and a tag rule covers it.
pub open spec fn is_tag_vote(rules: Seq<String>, refname: Seq<char>, tag: Seq<char>) -> bool {
    refname == tags_namespace() + tag && tag_rule_covers(rules, refname)
}

/// The remote advertises tag `tag` at `oid`, under a covering rule.
pub open spec fn votes_for(rules: Seq<String>, remote: Remote, tag: Seq<char>, oid: Seq<char>) -> bool {
    exists|j: int|
        0 <= j < remote.refs@.len() && is_tag_vote(rules, (#[trigger] remote.refs@[j]).0@, tag)
            && remote.refs@[j].1@ == oid
}

/// Remote `i` votes for `(tag, oid)`, and no earlier remote of the same peer did:
/// each peer is counted once.
pub open spec fn first_vote(
    rules: Seq<String>,
    remotes: Seq<Remote>,
    i: int,
    tag: Seq<char>,
    oid: Seq<char>,
) -> bool {
    &&& votes_for(rules, remotes[i], tag, oid)
    &&& forall|k: int|
        0 <= k < i && remotes[k].node@ == remotes[i].node@ ==> !votes_for(
            rules,
            #[trigger] remotes[k],
            tag,
            oid,
        )
}

/// Distinct peers among the first `n` remotes that vote for `(tag, oid)`.
pub open spec fn vote_count_upto(
    rules: Seq<String>,
    remotes: Seq<Remote>,
    n: int,
    tag: Seq<char>,
    oid: Seq<char>,
) -> nat
    decreases n,
{
    if n <= 0 {
        0
    } else {
        vote_count_upto(rules, remotes, n - 1, tag, oid) + if first_vote(
            rules,
            remotes,
            n - 1,
            tag,
            oid,
        ) {
            1nat
        } else {
            0nat
        }
    }
}

/// Distinct peers that vote for `(tag, oid)`.
pub open spec fn vote_count(rules: Seq<String>, remotes: Seq<Remote>, tag: Seq<char>, oid: Seq<char>) -> nat {
    vote_count_upto(rules, remotes, remotes.len() as int, tag, oid)
}

/// `oid` has votes for `tag`, no other object has more, and among those with
/// as many it is the least in the order of `str`.
pub open spec fn is_winner(rules: Seq<String>, remotes: Seq<Remote>, tag: Seq<char>, oid: Seq<char>) -> bool {
    &&& vote_count(rules, remotes, tag, oid) > 0
    &&& forall|o: Seq<char>|
        #[trigger] vote_count(rules, remotes, tag, o) <= vote_count(rules, remotes, tag, oid) && (
        vote_count(rules, remotes, tag, o) == vote_count(rules, remotes, tag, oid) ==> !text_lt(
            o,
            oid,
        ))
}

/// `oid` is the canonical object of `tag`: it wins, and by a quorum.
pub open spec fn is_canonical(
    rules: Seq<String>,
    threshold: nat,
    remotes: Seq<Remote>,
    tag: Seq<char>,
    oid: Seq<char>,
) -> bool {
    is_winner(rules, remotes, tag, oid) && vote_count(rules, remotes, tag, oid) >= threshold
}

pub open spec fn sorted_by_tag(out: Seq<(String, String)>) -> bool {
    forall|a: int, b: int| 0 <= a < b < out.len() ==> text_lt(out[a].0@, out[b].0@)
}

pub open spec fn has_tag(out: Seq<(String, String)>, tag: Seq<char>) -> bool {
    exists|k: int| 0 <= k < out.len() && (#[trigger] out[k]).0@ == tag
}

/// `out` is the canonical tag set: sorted by tag, each entry canonical, and
/// every tag with a canonical object present.
pub open spec fn is_resolution(
    rules: Seq<String>,
    threshold: nat,
    remotes: Seq<Remote>,
    out: Seq<(String, String)>,
) -> bool {
    &&& sorted_by_tag(out)
    &&& forall|k: int|
        0 <= k < out.len() ==> vote_count(rules, remotes, #[trigger] out[k].0@, out[k].1@)
            >= threshold
    &&& forall|k: int|
        0 <= k < out.len() ==> is_canonical(rules, threshold, remotes, #[trigger] out[k].0@, out[k].1@)
    &&& forall|tag: Seq<char>, oid: Seq<char>|
        #[trigger] is_canonical(rules, threshold, remotes, tag, oid) ==> has_tag(out, tag)
}

/// The rule list of a repository: none configured is no rule at all.
pub open spec fn rule_list(rules: Option<&Vec<String>>) -> Seq<String> {
    match rules {
        Some(r) => r@,
        None => Seq::empty(),
    }
}

proof fn lemma_tags_namespace()
    ensures
        TAGS_NAMESPACE@ == tags_namespace(),
{
    reveal_strlit("refs/tags/");
    assert(TAGS_NAMESPACE@ =~= tags_namespace());
}

/// Whether `pattern` covers `name`.
pub fn rule_matches(pattern: &str, name: &str) -> (r: bool)
    ensures
        r == pattern_matches(pattern@, name@),
{
    proof {
        reveal_strlit("/*");
        reveal_strlit("*");
        assert("/*"@ =~= subtree_wildcard());
        assert("*"@ =~= char_wildcard());
    }
    match strip_suffix(pattern, "/*") {
        Some(prefix) => strip_prefix(name, prefix).is_some(),
        None => match strip_suffix(pattern, "*") {
            Some(prefix) => strip_prefix(name, prefix).is_some(),
            None => {
                let a = pattern.to_owned();
                let b = name.to_owned();
                a == b
            },
        },
    }
}

fn covered_by_tag_rule(rules: &Vec<String>, name: &str) -> (r: bool)
    ensures
        r == tag_rule_covers(rules@, name@),
{
    proof {
        lemma_tags_namespace();
    }
    let mut k: usize = 0;
    while k < rules.len()
        invariant
            k <= rules@.len(),
            TAGS_NAMESPACE@ == tags_namespace(),
            forall|k2: int|
                0 <= k2 < k ==> !(is_tag_rule(#[trigger] rules@[k2]@) && pattern_matches(
                    rules@[k2]@,
                    name@,
                )),
        decreases rules@.len() - k,
    {
        let rule = rules[k].as_str();
        if strip_prefix(rule, TAGS_NAMESPACE).is_some() && rule_matches(rule, name) {
            return true;
        }
        k = k + 1;
    }
    false
}

/// Whether `refname` is the ref of tag `tag` under a covering tag rule.
fn is_vote(rules: &Vec<String>, refname: &String, tag: &String) -> (r: bool)
    ensures
        r == is_tag_vote(rules@, refname@, tag@),
{
    proof {
        lemma_tags_namespace();
    }
    match strip_prefix(refname.as_str(), TAGS_NAMESPACE) {
        Some(rest) => {
            let short = rest.to_owned();
            proof {
                if refname@ == tags_namespace() + tag@ {
                    assert(refname@.subrange(10, refname@.len() as int) =~= tag@);
                }
                if short@ == tag@ {
                    assert(refname@ =~= tags_namespace() + tag@);
                }
            }
            short == *tag && covered_by_tag_rule(rules, refname.as_str())
        },
        None => {
            proof {
                if refname@ == tags_namespace() + tag@ {
                    assert(refname@.subrange(0, 10) =~= tags_namespace());
                }
            }
            false
        },
    }
}

fn remote_votes(rules: &Vec<String>, remote: &Remote, tag: &String, oid: &String) -> (r: bool)
    ensures
        r == votes_for(rules@, *remote, tag@, oid@),
{
    let mut j: usize = 0;
    while j < remote.refs.len()
        invariant
            j <= remote.refs@.len(),
            forall|j2: int|
                0 <= j2 < j ==> !(is_tag_vote(rules@, (#[trigger] remote.refs@[j2]).0@, tag@)
                    && remote.refs@[j2].1@ == oid@),
        decreases remote.refs@.len() - j,
    {
        if is_vote(rules, &remote.refs[j].0, tag) && remote.refs[j].1 == *oid {
            return true;
        }
        j = j + 1;
    }
    false
}

fn is_first_vote(rules: &Vec<String>, remotes: &Vec<Remote>, i: usize, tag: &String, oid: &String) -> (r: bool)
    requires
        i < remotes@.len(),
    ensures
        r == first_vote(rules@, remotes@, i as int, tag@, oid@),
{
    if !remote_votes(rules, &remotes[i], tag, oid) {
        return false;
    }
    let mut k: usize = 0;
    while k < i
        invariant
            i < remotes@.len(),
            k <= i,
            forall|k2: int|
                0 <= k2 < k && remotes@[k2].node@ == remotes@[i as int].node@ ==> !votes_for(
                    rules@,
                    #[trigger] remotes@[k2],
                    tag@,
                    oid@,
                ),
        decreases i - k,
    {
        if remotes[k].node == remotes[i].node && remote_votes(rules, &remotes[k], tag, oid) {
            return false;
        }
        k = k + 1;
    }
    true
}

fn count_votes(rules: &Vec<String>, remotes: &Vec<Remote>, tag: &String, oid: &String) -> (r: usize)
    ensures
        r == vote_count(rules@, remotes@, tag@, oid@),
{
    let mut c: usize = 0;
    let mut i: usize = 0;
    while i < remotes.len()
        invariant
            i <= remotes@.len(),
            c <= i,
            c == vote_count_upto(rules@, remotes@, i as int, tag@, oid@),
        decreases remotes@.len() - i,
    {
        if is_first_vote(rules, remotes, i, tag, oid) {
            c = c + 1;
        }
        i = i + 1;
    }
    c
}

proof fn lemma_count_monotone(rules: Seq<String>, remotes: Seq<Remote>, m: int, n: int, tag: Seq<char>, oid: Seq<char>)
    requires
        0 <= m <= n,
    ensures
        vote_count_upto(rules, remotes, m, tag, oid) <= vote_count_upto(rules, remotes, n, tag, oid),
    decreases n - m,
{
    if m < n {
        lemma_count_monotone(rules, remotes, m, n - 1, tag, oid);
    }
}

/// A vote of remote `i` gives the object at least one counted peer.
proof fn lemma_vote_counts(rules: Seq<String>, remotes: Seq<Remote>, i: int, tag: Seq<char>, oid: Seq<char>)
    requires
        0 <= i < remotes.len(),
        votes_for(rules, remotes[i], tag, oid),
    ensures
        vote_count(rules, remotes, tag, oid) > 0,
    decreases i,
{
    if first_vote(rules, remotes, i, tag, oid) {
        lemma_count_monotone(rules, remotes, i + 1, remotes.len() as int, tag, oid);
    } else {
        let k = choose|k: int|
            0 <= k < i && remotes[k].node@ == remotes[i].node@ && votes_for(
                rules,
                #[trigger] remotes[k],
                tag,
                oid,
            );
        lemma_vote_counts(rules, remotes, k, tag, oid);
    }
}

/// A counted object has a remote that votes for it.
proof fn lemma_count_has_voter(rules: Seq<String>, remotes: Seq<Remote>, n: int, tag: Seq<char>, oid: Seq<char>)
    requires
        0 <= n <= remotes.len(),
        vote_count_upto(rules, remotes, n, tag, oid) > 0,
    ensures
        exists|i: int| 0 <= i < n && votes_for(rules, #[trigger] remotes[i], tag, oid),
    decreases n,
{
    if !first_vote(rules, remotes, n - 1, tag, oid) {
        lemma_count_has_voter(rules, remotes, n - 1, tag, oid);
    }
}


/// A vote occurrence: ref `j` of remote `i` is a covered ref of tag `tag`.
pub open spec fn occurrence(rules: Seq<String>, remotes: Seq<Remote>, i: int, j: int, tag: Seq<char>) -> bool {
    0 <= i < remotes.len() && 0 <= j < remotes[i].refs@.len() && is_tag_vote(
        rules,
        remotes[i].refs@[j].0@,
        tag,
    )
}

/// The occurrence `(i2, j2)` comes before `(i, j)` in remote-then-ref order.
pub open spec fn before(i2: int, j2: int, i: int, j: int) -> bool {
    i2 < i || (i2 == i && j2 < j)
}

/// `(oid, c)` beats every object seen at an occurrence before `(i, j)`.
pub open spec fn leads(
    rules: Seq<String>,
    remotes: Seq<Remote>,
    tag: Seq<char>,
    oid: Seq<char>,
    i: int,
    j: int,
) -> bool {
    forall|i2: int, j2: int|
        #![trigger remotes[i2].refs@[j2]]
        before(i2, j2, i, j) && occurrence(rules, remotes, i2, j2, tag) ==> {
            let o = remotes[i2].refs@[j2].1@;
            vote_count(rules, remotes, tag, o) <= vote_count(rules, remotes, tag, oid) && (
            vote_count(rules, remotes, tag, o) == vote_count(rules, remotes, tag, oid) ==> !text_lt(
                o,
                oid,
            ))
        }
}

/// The object with the most distinct voters for `tag` and its count, the least
/// object in the order of `str` among those tied; `None` where no remote votes for `tag`.
pub fn winner(rules: &Vec<String>, remotes: &Vec<Remote>, tag: &String) -> (r: Option<(String, usize)>)
    ensures
        r is None ==> forall|o: Seq<char>| vote_count(rules@, remotes@, tag@, o) == 0,
        r matches Some(w) ==> is_winner(rules@, remotes@, tag@, w.0@) && w.1 == vote_count(
            rules@,
            remotes@,
            tag@,
            w.0@,
        ),
{
    let mut best: Option<(String, usize)> = None;
    let mut i: usize = 0;
    while i < remotes.len()
        invariant
            i <= remotes@.len(),
            best is None ==> forall|i2: int, j2: int|
                #![trigger remotes@[i2].refs@[j2]]
                before(i2, j2, i as int, 0) ==> !occurrence(rules@, remotes@, i2, j2, tag@),
            best matches Some(w) ==> w.1 == vote_count(rules@, remotes@, tag@, w.0@) && w.1 > 0
                && leads(rules@, remotes@, tag@, w.0@, i as int, 0),
        decreases remotes@.len() - i,
    {
        let remote = &remotes[i];
        let mut j: usize = 0;
        while j < remote.refs.len()
            invariant
                i < remotes@.len(),
                *remote == remotes@[i as int],
                j <= remote.refs@.len(),
                best is None ==> forall|i2: int, j2: int|
                    #![trigger remotes@[i2].refs@[j2]]
                    before(i2, j2, i as int, j as int) ==> !occurrence(rules@, remotes@, i2, j2, tag@),
                best matches Some(w) ==> w.1 == vote_count(rules@, remotes@, tag@, w.0@) && w.1 > 0
                    && leads(rules@, remotes@, tag@, w.0@, i as int, j as int),
            decreases remote.refs@.len() - j,
        {
            if is_vote(rules, &remote.refs[j].0, tag) {
                let oid = &remote.refs[j].1;
                let c = count_votes(rules, remotes, tag, oid);
                proof {
                    assert(remotes@[i as int].refs@[j as int] == remote.refs@[j as int]);
                    assert(votes_for(rules@, remotes@[i as int], tag@, oid@));
                    lemma_vote_counts(rules@, remotes@, i as int, tag@, oid@);
                }
                let take = match &best {
                    None => true,
                    Some(w) => c > w.1 || (c == w.1 && text_less(oid.as_str(), w.0.as_str())),
                };
                if take {
                    proof {
                        if let Some(w) = best {
                            lemma_text_lt_total(oid@, w.0@);
                            assert forall|i2: int, j2: int|
                                #![trigger remotes@[i2].refs@[j2]]
                                before(i2, j2, i as int, j + 1) && occurrence(rules@, remotes@, i2, j2, tag@) implies {
                                    let o = remotes@[i2].refs@[j2].1@;
                                    vote_count(rules@, remotes@, tag@, o) <= c && (vote_count(rules@, remotes@, tag@, o) == c
                                        ==> !text_lt(o, oid@))
                                } by {
                                let o = remotes@[i2].refs@[j2].1@;
                                if before(i2, j2, i as int, j as int) {
                                    lemma_text_lt_total(o, oid@);
                                    if vote_count(rules@, remotes@, tag@, o) == c && text_lt(o, oid@) {
                                        lemma_text_lt_transitive(o, oid@, w.0@);
                                    }
                                } else {
                                    lemma_text_lt_total(o, oid@);
                                }
                            }
                        } else {
                            assert forall|i2: int, j2: int|
                                #![trigger remotes@[i2].refs@[j2]]
                                before(i2, j2, i as int, j + 1) && occurrence(rules@, remotes@, i2, j2, tag@) implies {
                                    let o = remotes@[i2].refs@[j2].1@;
                                    vote_count(rules@, remotes@, tag@, o) <= c && (vote_count(rules@, remotes@, tag@, o) == c
                                        ==> !text_lt(o, oid@))
                                } by {
                                lemma_text_lt_total(oid@, oid@);
                            }
                        }
                    }
                    best = Some((oid.clone(), c));
                } else {
                    proof {
                        let w = best->0;
                        lemma_text_lt_total(oid@, w.0@);
                    }
                }
            }
            j = j + 1;
        }
        i = i + 1;
    }
    proof {
        assert forall|o: Seq<char>| vote_count(rules@, remotes@, tag@, o) > 0 implies exists|i2: int, j2: int|
            #![trigger remotes@[i2].refs@[j2]]
            before(i2, j2, remotes@.len() as int, 0) && occurrence(rules@, remotes@, i2, j2, tag@)
                && remotes@[i2].refs@[j2].1@ == o by {
            lemma_count_has_voter(rules@, remotes@, remotes@.len() as int, tag@, o);
            let i2 = choose|i2: int| 0 <= i2 < remotes@.len() && votes_for(rules@, #[trigger] remotes@[i2], tag@, o);
            let j2 = choose|j2: int|
                0 <= j2 < remotes@[i2].refs@.len() && is_tag_vote(rules@, (#[trigger] remotes@[i2].refs@[j2]).0@, tag@)
                    && remotes@[i2].refs@[j2].1@ == o;
            assert(occurrence(rules@, remotes@, i2, j2, tag@));
        }
    }
    best
}


fn contains_tag(out: &Vec<(String, String)>, tag: &String) -> (r: bool)
    ensures
        r == has_tag(out@, tag@),
{
    let mut k: usize = 0;
    while k < out.len()
        invariant
            k <= out@.len(),
            forall|k2: int| 0 <= k2 < k ==> (#[trigger] out@[k2]).0@ != tag@,
        decreases out@.len() - k,
    {
        if out[k].0 == *tag {
            return true;
        }
        k = k + 1;
    }
    false
}

/// Inserts an entry for a tag not yet present, keeping the order by tag.
fn insert_sorted(out: &mut Vec<(String, String)>, tag: String, oid: String) -> (p: usize)
    requires
        sorted_by_tag(old(out)@),
        !has_tag(old(out)@, tag@),
    ensures
        p <= old(out)@.len(),
        final(out)@ == old(out)@.insert(p as int, (tag, oid)),
        sorted_by_tag(final(out)@),
{
    let mut p: usize = 0;
    while p < out.len() && text_less(out[p].0.as_str(), tag.as_str())
        invariant
            p <= out@.len(),
            forall|k: int| 0 <= k < p ==> text_lt((#[trigger] out@[k]).0@, tag@),
        decreases out@.len() - p,
    {
        p = p + 1;
    }
    proof {
        if p < out@.len() {
            lemma_text_lt_total(out@[p as int].0@, tag@);
            assert(out@[p as int].0@ != tag@);
            assert forall|k: int| p <= k < out@.len() implies text_lt(tag@, (#[trigger] out@[k]).0@) by {
                if k > p {
                    lemma_text_lt_transitive(tag@, out@[p as int].0@, out@[k].0@);
                }
            }
        }
    }
    let ghost before = out@;
    out.insert(p, (tag, oid));
    proof {
        assert forall|a: int, b: int| 0 <= a < b < out@.len() implies text_lt(out@[a].0@, out@[b].0@) by {
            if a < p && b > p {
                if b - 1 < before.len() && b - 1 >= p {
                    lemma_text_lt_transitive(before[a].0@, out@[p as int].0@, before[b - 1].0@);
                }
            }
        }
    }
    p
}

/// The canonical tags of a repository: for each tag under `refs/tags/` that a
/// tag rule covers, the object with the most distinct voting peers (ties go to
/// the least object in the order of `str`), where that count reaches
/// `threshold`. The entries are sorted by tag; `None` where no tag qualifies,
/// in particular where no rule is configured.
pub fn canonical_tags(rules: Option<&Vec<String>>, threshold: usize, remotes: &Vec<Remote>) -> (r: Option<Vec<(String, String)>>)
    ensures
        r is None ==> forall|tag: Seq<char>, oid: Seq<char>|
            !is_canonical(rule_list(rules), threshold as nat, remotes@, tag, oid),
        r matches Some(out) ==> out@.len() > 0 && is_resolution(
            rule_list(rules),
            threshold as nat,
            remotes@,
            out@,
        ),
        (forall|k: int|
            0 <= k < rule_list(rules).len() ==> !is_tag_rule(#[trigger] rule_list(rules)[k]@))
            ==> r is None,
{
    let ghost all_rules = rule_list(rules);
    let empty: Vec<String> = Vec::new();
    let rules: &Vec<String> = match rules {
        Some(list) => list,
        None => &empty,
    };
    assert(rules@ == all_rules);
    proof {
        lemma_tags_namespace();
    }
    let mut out: Vec<(String, String)> = Vec::new();
    let mut i: usize = 0;
    while i < remotes.len()
        invariant
            i <= remotes@.len(),
            TAGS_NAMESPACE@ == tags_namespace(),
            sorted_by_tag(out@),
            forall|k: int|
                0 <= k < out@.len() ==> is_canonical(rules@, threshold as nat, remotes@, #[trigger] out@[k].0@, out@[k].1@),
            forall|i2: int, j2: int, tag: Seq<char>, oid: Seq<char>|
                #![trigger is_canonical(rules@, threshold as nat, remotes@, tag, oid), remotes@[i2].refs@[j2]]
                before(i2, j2, i as int, 0) && occurrence(rules@, remotes@, i2, j2, tag)
                    && is_canonical(rules@, threshold as nat, remotes@, tag, oid)
                    ==> has_tag(out@, tag),
        decreases remotes@.len() - i,
    {
        let remote = &remotes[i];
        let mut j: usize = 0;
        while j < remote.refs.len()
            invariant
                i < remotes@.len(),
                *remote == remotes@[i as int],
                j <= remote.refs@.len(),
                TAGS_NAMESPACE@ == tags_namespace(),
                sorted_by_tag(out@),
                forall|k: int|
                    0 <= k < out@.len() ==> is_canonical(rules@, threshold as nat, remotes@, #[trigger] out@[k].0@, out@[k].1@),
                forall|i2: int, j2: int, tag: Seq<char>, oid: Seq<char>|
                    #![trigger is_canonical(rules@, threshold as nat, remotes@, tag, oid), remotes@[i2].refs@[j2]]
                    before(i2, j2, i as int, j as int) && occurrence(rules@, remotes@, i2, j2, tag)
                        && is_canonical(rules@, threshold as nat, remotes@, tag, oid)
                        ==> has_tag(out@, tag),
            decreases remote.refs@.len() - j,
        {
            let refname = &remote.refs[j].0;
            if let Some(rest) = strip_prefix(refname.as_str(), TAGS_NAMESPACE) {
                let tag = rest.to_owned();
                proof {
                    assert(refname@ =~= tags_namespace() + tag@);
                    assert(remotes@[i as int].refs@[j as int] == remote.refs@[j as int]);
                }
                if covered_by_tag_rule(rules, refname.as_str()) && !contains_tag(&out, &tag) {
                    if let Some(w) = winner(rules, remotes, &tag) {
                        let (oid, c) = w;
                        if c >= threshold {
                            let ghost prev = out@;
                            let p = insert_sorted(&mut out, tag, oid);
                            proof {
                                assert forall|k: int| 0 <= k < out@.len() implies is_canonical(
                                    rules@,
                                    threshold as nat,
                                    remotes@,
                                    #[trigger] out@[k].0@,
                                    out@[k].1@,
                                ) by {
                                    if k > p {
                                        assert(out@[k] == prev[k - 1]);
                                    }
                                }
                                assert forall|i2: int, j2: int, t: Seq<char>, o: Seq<char>|
                                    #![trigger is_canonical(rules@, threshold as nat, remotes@, t, o), remotes@[i2].refs@[j2]]
                                    before(i2, j2, i as int, j + 1) && occurrence(rules@, remotes@, i2, j2, t)
                                        && is_canonical(rules@, threshold as nat, remotes@, t, o)
                                    implies has_tag(out@, t) by {
                                    if before(i2, j2, i as int, j as int) {
                                        let k = choose|k: int| 0 <= k < prev.len() && (#[trigger] prev[k]).0@ == t;
                                        if k < p {
                                            assert(out@[k] == prev[k]);
                                        } else {
                                            assert(out@[k + 1] == prev[k]);
                                        }
                                    } else {
                                        assert(out@[p as int].0@ == remotes@[i2].refs@[j2].0@.subrange(10, remotes@[i2].refs@[j2].0@.len() as int));
                                        assert(remotes@[i2].refs@[j2].0@.subrange(10, remotes@[i2].refs@[j2].0@.len() as int) =~= t);
                                    }
                                }
                            }
                        } else {
                            proof {
                                assert forall|i2: int, j2: int, t: Seq<char>, o: Seq<char>|
                                    #![trigger is_canonical(rules@, threshold as nat, remotes@, t, o), remotes@[i2].refs@[j2]]
                                    before(i2, j2, i as int, j + 1) && occurrence(rules@, remotes@, i2, j2, t)
                                        && is_canonical(rules@, threshold as nat, remotes@, t, o)
                                    implies has_tag(out@, t) by {
                                    if !before(i2, j2, i as int, j as int) {
                                        assert(remotes@[i2].refs@[j2].0@.subrange(10, remotes@[i2].refs@[j2].0@.len() as int) =~= t);
                                        lemma_winner_unique(rules@, remotes@, t, o, oid@);
                                    }
                                }
                            }
                        }
                    } else {
                        proof {
                            assert forall|i2: int, j2: int, t: Seq<char>, o: Seq<char>|
                                #![trigger is_canonical(rules@, threshold as nat, remotes@, t, o), remotes@[i2].refs@[j2]]
                                before(i2, j2, i as int, j + 1) && occurrence(rules@, remotes@, i2, j2, t)
                                    && is_canonical(rules@, threshold as nat, remotes@, t, o)
                                implies has_tag(out@, t) by {
                                if !before(i2, j2, i as int, j as int) {
                                    assert(remotes@[i2].refs@[j2].0@.subrange(10, remotes@[i2].refs@[j2].0@.len() as int) =~= t);
                                }
                            }
                        }
                    }
                } else {
                    proof {
                        assert forall|i2: int, j2: int, t: Seq<char>, o: Seq<char>|
                            #![trigger is_canonical(rules@, threshold as nat, remotes@, t, o), remotes@[i2].refs@[j2]]
                            before(i2, j2, i as int, j + 1) && occurrence(rules@, remotes@, i2, j2, t)
                                && is_canonical(rules@, threshold as nat, remotes@, t, o)
                            implies has_tag(out@, t) by {
                            if !before(i2, j2, i as int, j as int) {
                                assert(remotes@[i2].refs@[j2].0@.subrange(10, remotes@[i2].refs@[j2].0@.len() as int) =~= t);
                            }
                        }
                    }
                }
            } else {
                proof {
                    assert forall|i2: int, j2: int, t: Seq<char>, o: Seq<char>|
                        #![trigger is_canonical(rules@, threshold as nat, remotes@, t, o), remotes@[i2].refs@[j2]]
                        before(i2, j2, i as int, j + 1) && occurrence(rules@, remotes@, i2, j2, t)
                            && is_canonical(rules@, threshold as nat, remotes@, t, o)
                        implies has_tag(out@, t) by {
                        if !before(i2, j2, i as int, j as int) {
                            assert(remotes@[i2].refs@[j2] == remote.refs@[j as int]);
                            assert(refname@.subrange(0, 10) =~= tags_namespace());
                        }
                    }
                }
            }
            j = j + 1;
        }
        i = i + 1;
    }
    proof {
        assert forall|tag: Seq<char>, oid: Seq<char>|
            #[trigger] is_canonical(rules@, threshold as nat, remotes@, tag, oid) implies has_tag(out@, tag) by {
            lemma_count_has_voter(rules@, remotes@, remotes@.len() as int, tag, oid);
            let i2 = choose|i2: int| 0 <= i2 < remotes@.len() && votes_for(rules@, #[trigger] remotes@[i2], tag, oid);
            let j2 = choose|j2: int|
                0 <= j2 < remotes@[i2].refs@.len() && is_tag_vote(rules@, (#[trigger] remotes@[i2].refs@[j2]).0@, tag)
                    && remotes@[i2].refs@[j2].1@ == oid;
            assert(occurrence(rules@, remotes@, i2, j2, tag));
        }
    }
    proof {
        if out@.len() > 0 && forall|k: int| 0 <= k < all_rules.len() ==> !is_tag_rule(#[trigger] all_rules[k]@) {
            let tag = out@[0].0@;
            let oid = out@[0].1@;
            assert(is_canonical(rules@, threshold as nat, remotes@, tag, oid));
            lemma_count_has_voter(rules@, remotes@, remotes@.len() as int, tag, oid);
            let i2 = choose|i2: int| 0 <= i2 < remotes@.len() && votes_for(rules@, #[trigger] remotes@[i2], tag, oid);
            let j2 = choose|j2: int|
                0 <= j2 < remotes@[i2].refs@.len() && is_tag_vote(rules@, (#[trigger] remotes@[i2].refs@[j2]).0@, tag)
                    && remotes@[i2].refs@[j2].1@ == oid;
            assert(tag_rule_covers(rules@, remotes@[i2].refs@[j2].0@));
        }
    }
    if out.len() == 0 {
        None
    } else {
        Some(out)
    }
}

/// Two winners of one tag are the same object.
pub proof fn lemma_winner_unique(rules: Seq<String>, remotes: Seq<Remote>, tag: Seq<char>, a: Seq<char>, b: Seq<char>)
    requires
        is_winner(rules, remotes, tag, a),
        is_winner(rules, remotes, tag, b),
    ensures
        a == b,
{
    assert(vote_count(rules, remotes, tag, a) <= vote_count(rules, remotes, tag, b));
    assert(vote_count(rules, remotes, tag, b) <= vote_count(rules, remotes, tag, a));
    lemma_text_lt_total(a, b);
}


proof fn lemma_sorted_same_tags(a: Seq<(String, String)>, b: Seq<(String, String)>)
    requires
        sorted_by_tag(a),
        sorted_by_tag(b),
        forall|t: Seq<char>| has_tag(a, t) <==> has_tag(b, t),
    ensures
        a.len() == b.len(),
        forall|k: int| 0 <= k < a.len() ==> (#[trigger] a[k]).0@ == b[k].0@,
    decreases a.len(),
{
    if a.len() == 0 {
        if b.len() > 0 {
            assert(has_tag(b, b[0].0@));
        }
    } else if b.len() == 0 {
        assert(has_tag(a, a[0].0@));
    } else {
        assert(has_tag(a, a[0].0@));
        assert(has_tag(b, b[0].0@));
        let m = choose|m: int| 0 <= m < b.len() && (#[trigger] b[m]).0@ == a[0].0@;
        let n = choose|n: int| 0 <= n < a.len() && (#[trigger] a[n]).0@ == b[0].0@;
        lemma_text_lt_total(a[0].0@, b[0].0@);
        if m > 0 && n > 0 {
            assert(text_lt(b[0].0@, b[m].0@));
            assert(text_lt(a[0].0@, a[n].0@));
        } else if m > 0 {
            assert(text_lt(b[0].0@, b[m].0@));
        } else if n > 0 {
            assert(text_lt(a[0].0@, a[n].0@));
        }
        assert(a[0].0@ == b[0].0@);
        let a1 = a.drop_first();
        let b1 = b.drop_first();
        assert forall|t: Seq<char>| has_tag(a1, t) <==> has_tag(b1, t) by {
            if has_tag(a1, t) {
                let k = choose|k: int| 0 <= k < a1.len() && (#[trigger] a1[k]).0@ == t;
                assert(text_lt(a[0].0@, a[k + 1].0@));
                lemma_text_lt_total(t, t);
                assert(has_tag(a, t));
                let q = choose|q: int| 0 <= q < b.len() && (#[trigger] b[q]).0@ == t;
                assert(q != 0);
                assert(b1[q - 1] == b[q]);
            }
            if has_tag(b1, t) {
                let k = choose|k: int| 0 <= k < b1.len() && (#[trigger] b1[k]).0@ == t;
                assert(text_lt(b[0].0@, b[k + 1].0@));
                lemma_text_lt_total(t, t);
                assert(has_tag(b, t));
                let q = choose|q: int| 0 <= q < a.len() && (#[trigger] a[q]).0@ == t;
                assert(q != 0);
                assert(a1[q - 1] == a[q]);
            }
        }
        lemma_sorted_same_tags(a1, b1);
        assert forall|k: int| 0 <= k < a.len() implies (#[trigger] a[k]).0@ == b[k].0@ by {
            if k > 0 {
                assert(a1[k - 1] == a[k]);
                assert(b1[k - 1] == b[k]);
            }
        }
    }
}

/// The canonical tag set is determined by its inputs: two results for the same
/// rules, threshold and remotes hold the same entries in the same order.
pub proof fn lemma_resolution_deterministic(
    rules: Seq<String>,
    threshold: nat,
    remotes: Seq<Remote>,
    a: Seq<(String, String)>,
    b: Seq<(String, String)>,
)
    requires
        is_resolution(rules, threshold, remotes, a),
        is_resolution(rules, threshold, remotes, b),
    ensures
        a.len() == b.len(),
        forall|k: int| 0 <= k < a.len() ==> (#[trigger] a[k]).0@ == b[k].0@ && a[k].1@ == b[k].1@,
{
    assert forall|t: Seq<char>| has_tag(a, t) <==> has_tag(b, t) by {
        if has_tag(a, t) {
            let k = choose|k: int| 0 <= k < a.len() && (#[trigger] a[k]).0@ == t;
            assert(is_canonical(rules, threshold, remotes, a[k].0@, a[k].1@));
        }
        if has_tag(b, t) {
            let k = choose|k: int| 0 <= k < b.len() && (#[trigger] b[k]).0@ == t;
            assert(is_canonical(rules, threshold, remotes, b[k].0@, b[k].1@));
        }
    }
    lemma_sorted_same_tags(a, b);
    assert forall|k: int| 0 <= k < a.len() implies (#[trigger] a[k]).0@ == b[k].0@ && a[k].1@ == b[k].1@ by {
        assert(is_canonical(rules, threshold, remotes, a[k].0@, a[k].1@));
        assert(is_canonical(rules, threshold, remotes, b[k].0@, b[k].1@));
        lemma_winner_unique(rules, remotes, a[k].0@, a[k].1@, b[k].1@);
    }
}

} // verus!
