use radicle_httpd::resolver::{canonical_tags, rule_matches, winner, Remote};

fn remote(node: &str, refs: &[(&str, &str)]) -> Remote {
    Remote {
        node: node.to_string(),
        refs: refs.iter().map(|(r, o)| (r.to_string(), o.to_string())).collect(),
    }
}

fn rules(patterns: &[&str]) -> Vec<String> {
    patterns.iter().map(|p| p.to_string()).collect()
}

fn pairs(v: &[(&str, &str)]) -> Vec<(String, String)> {
    v.iter().map(|(a, b)| (a.to_string(), b.to_string())).collect()
}

#[test]
fn subtree_rule_matches_release_tags_only() {
    assert!(rule_matches("refs/tags/release/*", "refs/tags/release/1.0"));
    assert!(!rule_matches("refs/tags/release/*", "refs/tags/rc-1.0"));
}

#[test]
fn trailing_star_and_exact_rules() {
    assert!(rule_matches("refs/tags/v*", "refs/tags/v1"));
    assert!(rule_matches("refs/tags/v*", "refs/tags/v"));
    assert!(!rule_matches("refs/tags/v*", "refs/tags/x1"));
    assert!(rule_matches("refs/tags/v1.0", "refs/tags/v1.0"));
    assert!(!rule_matches("refs/tags/v1.0", "refs/tags/v1.0.1"));
}

#[test]
fn scenario_three_agreeing_remotes_reach_quorum() {
    let r = rules(&["refs/tags/v*"]);
    let remotes = vec![
        remote("a", &[("refs/tags/v1", "abc123")]),
        remote("b", &[("refs/tags/v1", "abc123")]),
        remote("c", &[("refs/tags/v1", "abc123")]),
    ];
    assert_eq!(canonical_tags(Some(&r), 2, &remotes), Some(pairs(&[("v1", "abc123")])));
}

#[test]
fn scenario_split_vote_below_quorum_gives_none() {
    let r = rules(&["refs/tags/v*"]);
    let remotes = vec![
        remote("a", &[("refs/tags/v1", "abc123")]),
        remote("b", &[("refs/tags/v1", "abc123")]),
        remote("c", &[("refs/tags/v1", "def456")]),
    ];
    assert_eq!(canonical_tags(Some(&r), 3, &remotes), None);
}

#[test]
fn scenario_no_rules_gives_none() {
    let remotes = vec![
        remote("a", &[("refs/tags/v1", "abc123")]),
        remote("b", &[("refs/tags/v1", "abc123")]),
    ];
    assert_eq!(canonical_tags(None, 1, &remotes), None);
    assert_eq!(canonical_tags(Some(&Vec::new()), 1, &remotes), None);
}

#[test]
fn rules_outside_tags_are_ignored() {
    let r = rules(&["refs/heads/*", "refs/tags/v*"]);
    let only_heads = rules(&["refs/heads/*"]);
    let remotes = vec![remote("a", &[("refs/heads/main", "111"), ("refs/tags/v1", "abc")])];
    assert_eq!(canonical_tags(Some(&only_heads), 1, &remotes), None);
    assert_eq!(canonical_tags(Some(&r), 1, &remotes), Some(pairs(&[("v1", "abc")])));
}

#[test]
fn resolved_entries_meet_threshold() {
    let r = rules(&["refs/tags/*"]);
    let remotes = vec![
        remote("a", &[("refs/tags/v1", "aaa"), ("refs/tags/v2", "ccc")]),
        remote("b", &[("refs/tags/v1", "aaa"), ("refs/tags/v2", "ddd")]),
        remote("c", &[("refs/tags/v1", "bbb")]),
    ];
    let out = canonical_tags(Some(&r), 2, &remotes).unwrap();
    assert_eq!(out, pairs(&[("v1", "aaa")]));
}

#[test]
fn repeated_resolution_is_identical() {
    let r = rules(&["refs/tags/*"]);
    let remotes = vec![
        remote("a", &[("refs/tags/z", "1"), ("refs/tags/a", "2"), ("refs/tags/m", "3")]),
        remote("b", &[("refs/tags/m", "3"), ("refs/tags/a", "2")]),
    ];
    let first = canonical_tags(Some(&r), 1, &remotes);
    let second = canonical_tags(Some(&r), 1, &remotes);
    assert_eq!(first, second);
    assert_eq!(first, Some(pairs(&[("a", "2"), ("m", "3"), ("z", "1")])));
}

#[test]
fn tie_goes_to_least_object() {
    let r = rules(&["refs/tags/*"]);
    let remotes = vec![
        remote("a", &[("refs/tags/v1", "ffff")]),
        remote("b", &[("refs/tags/v1", "0000")]),
    ];
    assert_eq!(canonical_tags(Some(&r), 1, &remotes), Some(pairs(&[("v1", "0000")])));
    assert_eq!(winner(&r, &remotes, &"v1".to_string()), Some(("0000".to_string(), 1)));
}

#[test]
fn a_peer_votes_once() {
    let r = rules(&["refs/tags/*"]);
    let remotes = vec![
        remote("a", &[("refs/tags/v1", "abc")]),
        remote("a", &[("refs/tags/v1", "abc")]),
        remote("b", &[("refs/tags/v1", "def")]),
    ];
    assert_eq!(winner(&r, &remotes, &"v1".to_string()), Some(("abc".to_string(), 1)));
    assert_eq!(canonical_tags(Some(&r), 2, &remotes), None);
}

#[test]
fn threshold_zero_keeps_every_voted_tag() {
    let r = rules(&["refs/tags/*"]);
    let remotes = vec![remote("a", &[("refs/tags/v1", "abc"), ("refs/heads/main", "x")])];
    assert_eq!(canonical_tags(Some(&r), 0, &remotes), Some(pairs(&[("v1", "abc")])));
    assert_eq!(winner(&r, &remotes, &"v2".to_string()), None);
}
