use radicle_httpd::repo::{Context, Delegate, Doc, Error, Payload, Visibility};
use radicle_httpd::resolver::Remote;

fn doc(visibility: Visibility, rules: Option<Vec<String>>) -> Doc {
    Doc {
        delegates: vec!["did:key:z6Mk".to_string()],
        threshold: 1,
        visibility,
        canonical_rules: rules,
    }
}

#[test]
fn private_repository_is_not_found() {
    let r = Context::repo("handle", doc(Visibility::Private, None));
    assert_eq!(r.err(), Some(Error::NotFound));
}

#[test]
fn public_repository_is_admitted() {
    let r = Context::repo("handle", doc(Visibility::Public, None));
    let (handle, d) = r.ok().unwrap();
    assert_eq!(handle, "handle");
    assert_eq!(d.visibility, Visibility::Public);
}

#[test]
fn info_drops_unenriched_project_payload() {
    let d = doc(Visibility::Public, Some(vec!["refs/tags/*".to_string()]));
    let payloads = vec![
        Payload { id: "xyz.radicle.project".to_string(), data: 1u8, meta: None::<u32> },
        Payload { id: "xyz.radicle.other".to_string(), data: 2u8, meta: None },
    ];
    let delegates = vec![Delegate { id: "did:key:z6Mk".to_string(), alias: Some("alice".to_string()) }];
    let remotes = vec![Remote {
        node: "a".to_string(),
        refs: vec![("refs/tags/v1".to_string(), "abc".to_string())],
    }];
    let info = Context::repo_info("rad:z1".to_string(), d, delegates, None, payloads, Some(&remotes));
    assert_eq!(info.payloads.len(), 1);
    assert_eq!(info.payloads[0].id, "xyz.radicle.other");
    assert_eq!(info.seeding, 0);
    assert_eq!(info.threshold, 1);
    assert_eq!(info.rid, "rad:z1");
    assert_eq!(info.delegates[0].alias, Some("alice".to_string()));
    assert_eq!(info.canonical_tags, Some(vec![("v1".to_string(), "abc".to_string())]));
}

#[test]
fn info_keeps_enriched_project_payload() {
    let d = doc(Visibility::Public, None);
    let payloads = vec![Payload { id: "xyz.radicle.project".to_string(), data: 1u8, meta: Some(7u32) }];
    let info = Context::repo_info("rad:z1".to_string(), d, Vec::new(), Some(4), payloads, None);
    assert_eq!(info.payloads.len(), 1);
    assert_eq!(info.payloads[0].meta, Some(7));
    assert_eq!(info.seeding, 4);
    assert_eq!(info.canonical_tags, None);
}

#[test]
fn unreadable_remotes_omit_tags() {
    let d = doc(Visibility::Public, Some(vec!["refs/tags/*".to_string()]));
    let info = Context::repo_info::<u8, u8>("rad:z1".to_string(), d, Vec::new(), None, Vec::new(), None);
    assert_eq!(info.canonical_tags, None);
}
