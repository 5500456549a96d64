use vstd::prelude::*;
use vstd::utf8::encode_utf8;

use std::cmp::Ordering;

use crate::repo::{Delegate, Visibility};

verus! {

/// The byte string `q` occurs in `s` at offset `i`.
pub open spec fn occurs_at(s: Seq<u8>, q: Seq<u8>, i: int) -> bool {
    0 <= i && i + q.len() <= s.len() && s.subrange(i, i + q.len()) == q
}

/// `i` is the byte offset of the first occurrence of `q` in `s`.
pub open spec fn first_occurrence(s: Seq<char>, q: Seq<char>, i: int) -> bool {
    &&& occurs_at(encode_utf8(s), encode_utf8(q), i)
    &&& forall|j: int| 0 <= j < i ==> !occurs_at(encode_utf8(s), encode_utf8(q), j)
}

/// Relies on `str::find` with a `&str` pattern: the byte offset of the first
/// occurrence of `q` in `s`, where there is one.
#[verifier::external_body]
fn find(s: &str, q: &str) -> (r: Option<usize>)
    ensures
        r matches Some(i) ==> first_occurrence(s@, q@, i as int),
        r is None ==> forall|j: int| !occurs_at(encode_utf8(s@), encode_utf8(q@), j),
{
    s.find(q)
}

/// The query string of a repository search.
pub struct SearchQueryString {
    pub q: Option<String>,
    pub page: Option<usize>,
    pub per_page: Option<usize>,
}

/// A repository that a search query found.
pub struct SearchResult<P> {
    pub rid: String,
    pub payloads: P,
    pub delegates: Vec<Delegate>,
    pub seeds: usize,
    /// Where the query occurs in the project's name.
    pub index: usize,
}

/// The rank order of results: those whose name starts with the query come
/// first; within each group, by seed count.
pub open spec fn rank(a_index: usize, a_seeds: usize, b_index: usize, b_seeds: usize) -> Ordering {
    if (a_index == 0) == (b_index == 0) {
        if a_seeds < b_seeds {
            Ordering::Less
        } else if a_seeds > b_seeds {
            Ordering::Greater
        } else {
            Ordering::Equal
        }
    } else if a_index == 0 {
        Ordering::Less
    } else {
        Ordering::Greater
    }
}

impl<P> SearchResult<P> {
    /// The result for a repository with the given project name (`None` where
    /// it has no project payload), or `None` where the repository is private
    /// or its name does not hold `q`. `seeds` is the routing count, where it
    /// could be read.
    pub fn new(
        q: &str,
        rid: String,
        visibility: Visibility,
        project_name: Option<&str>,
        payloads: P,
        delegates: Vec<Delegate>,
        seeds: Option<usize>,
    ) -> (r: Option<SearchResult<P>>)
        ensures
            visibility == Visibility::Private ==> r is None,
            project_name is None ==> r is None,
            visibility == Visibility::Public && project_name is Some ==> (r is Some <==> exists|j: int|
                occurs_at(encode_utf8(project_name->0@), encode_utf8(q@), j)),
            r matches Some(res) ==> {
                &&& first_occurrence(project_name->0@, q@, res.index as int)
                &&& res.rid == rid
                &&& res.payloads == payloads
                &&& res.delegates == delegates
                &&& res.seeds == match seeds {
                    Some(n) => n,
                    None => 0,
                }
            },
    {
        if visibility == Visibility::Private {
            return None;
        }
        let index = match project_name {
            Some(name) => match find(name, q) {
                Some(i) => i,
                None => return None,
            },
            None => return None,
        };
        let seeds = match seeds {
            Some(n) => n,
            None => 0,
        };
        Some(SearchResult { rid, payloads, delegates, seeds, index })
    }

    /// Compares two results in rank order.
    pub fn cmp(&self, other: &Self) -> (r: Ordering)
        ensures
            r == rank(self.index, self.seeds, other.index, other.seeds),
    {
        if (self.index == 0) == (other.index == 0) {
            if self.seeds < other.seeds {
                Ordering::Less
            } else if self.seeds > other.seeds {
                Ordering::Greater
            } else {
                Ordering::Equal
            }
        } else if self.index == 0 {
            Ordering::Less
        } else {
            Ordering::Greater
        }
    }
}

impl<P> PartialEq for SearchResult<P> {
    fn eq(&self, other: &Self) -> (r: bool) {
        self.rid == other.rid
    }
}

impl<P> vstd::std_specs::cmp::PartialEqSpecImpl for SearchResult<P> {
    open spec fn obeys_eq_spec() -> bool {
        true
    }

    open spec fn eq_spec(&self, other: &Self) -> bool {
        self.rid@ == other.rid@
    }
}

} // verus!
