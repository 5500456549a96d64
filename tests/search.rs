use std::cmp::Ordering;

use radicle_httpd::repo::Visibility;
use radicle_httpd::search::{SearchQueryString, SearchResult};

fn found(q: &str, name: &str, seeds: Option<usize>) -> Option<SearchResult<()>> {
    SearchResult::new(q, "rad:z1".to_string(), Visibility::Public, Some(name), (), Vec::new(), seeds)
}

#[test]
fn search_finds_byte_offset() {
    let r = found("cle", "radicle", Some(3)).unwrap();
    assert_eq!(r.index, 4);
    assert_eq!(r.seeds, 3);
    assert!(found("xyz", "radicle", None).is_none());
}

#[test]
fn search_skips_private_and_nameless() {
    let private = SearchResult::new("r", "rad:z1".to_string(), Visibility::Private, Some("radicle"), (), Vec::new(), None);
    assert!(private.is_none());
    let nameless = SearchResult::new("r", "rad:z1".to_string(), Visibility::Public, None, (), Vec::new(), None);
    assert!(nameless.is_none());
}

#[test]
fn search_rank_order() {
    let prefix = found("rad", "radicle", Some(1)).unwrap();
    let inner = found("cle", "radicle", Some(9)).unwrap();
    let inner_few = found("dic", "radicle", None).unwrap();
    assert_eq!(prefix.cmp(&inner), Ordering::Less);
    assert_eq!(inner.cmp(&prefix), Ordering::Greater);
    assert_eq!(inner_few.cmp(&inner), Ordering::Less);
    assert_eq!(inner.cmp(&inner), Ordering::Equal);
    assert!(prefix == inner);
}

#[test]
fn search_query_fields() {
    let q = SearchQueryString { q: Some("rad".to_string()), page: None, per_page: Some(10) };
    assert_eq!(q.per_page, Some(10));
}
