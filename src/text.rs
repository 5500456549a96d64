use vstd::prelude::*;

verus! {

/// `p` is a prefix of `s`.
pub open spec fn is_prefix(p: Seq<char>, s: Seq<char>) -> bool {
    p.len() <= s.len() && s.subrange(0, p.len() as int) == p
}

/// `p` is a suffix of `s`.
pub open spec fn is_suffix(p: Seq<char>, s: Seq<char>) -> bool {
    p.len() <= s.len() && s.subrange(s.len() - p.len(), s.len() as int) == p
}

/// Relies on `str::strip_prefix`: what follows `p` in `s`, exactly when `s` starts with `p`.
#[verifier::external_body]
pub(crate) fn strip_prefix<'a>(s: &'a str, p: &str) -> (r: Option<&'a str>)
    ensures
        r is Some <==> is_prefix(p@, s@),
        r is Some ==> r->0@ == s@.subrange(p@.len() as int, s@.len() as int),
{
    s.strip_prefix(p)
}

/// Relies on `str::strip_suffix`: what precedes `p` in `s`, exactly when `s` ends with `p`.
#[verifier::external_body]
pub(crate) fn strip_suffix<'a>(s: &'a str, p: &str) -> (r: Option<&'a str>)
    ensures
        r is Some <==> is_suffix(p@, s@),
        r is Some ==> r->0@ == s@.subrange(0, s@.len() - p@.len()),
{
    s.strip_suffix(p)
}

/// Relies on `str::contains` with a `char` pattern: whether `c` occurs in `s`.
#[verifier::external_body]
pub(crate) fn contains_char(s: &str, c: char) -> (r: bool)
    ensures
        r == s@.contains(c),
{
    s.contains(c)
}

} // verus!
