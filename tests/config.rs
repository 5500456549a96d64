use radicle_httpd::config::{Config, WebConfig};

const RID1: &str = "rad:z4FucBZHZMCsxTyQE1dfE2YR59Qbp";
const RID2: &str = "rad:z4GypKmh1gkEfmkXtarcYnkvtFUfE";

#[test]
fn test_web_config_accessor() {
    let store = WebConfig::from_profile(Config::new());
    let config = store.read();
    assert_eq!(config.pinned.len(), 0);
}

#[test]
fn test_web_config_reload_simulation() {
    let mut store = WebConfig::from_profile(Config::new());
    {
        let config = store.read();
        assert_eq!(config.pinned.len(), 0);
        assert_eq!(config.description, None);
    }
    store.update(|mut config| {
        config.description = Some("Updated description".to_string());
        config.avatar_url = Some("https://example.com/avatar.png".to_string());
        config
    });
    let config = store.read();
    assert_eq!(config.description, Some("Updated description".to_string()));
    assert_eq!(config.avatar_url, Some("https://example.com/avatar.png".to_string()));
}

#[test]
fn test_web_config_concurrent_reads() {
    let store = WebConfig::from_profile(Config::new());
    for _ in 0..10 {
        let config = store.read();
        assert_eq!(config.pinned.len(), 0);
    }
}

#[test]
fn test_web_config_preserves_data_across_reads() {
    let mut store = WebConfig::from_profile(Config::new());
    store.update(|mut config| {
        config.banner_url = Some("https://example.com/banner.png".to_string());
        config
    });
    for _ in 0..5 {
        let config = store.read();
        assert_eq!(config.banner_url, Some("https://example.com/banner.png".to_string()));
    }
}

#[test]
fn test_empty_pinned_repos_transitions() {
    let mut store = WebConfig::from_profile(Config::new());
    assert_eq!(store.read().pinned.len(), 0);
    store.update(|mut config| {
        config.pin(RID1.to_string());
        config.pin(RID2.to_string());
        config
    });
    assert_eq!(store.read().pinned.len(), 2);
    store.update(|mut config| {
        config.unpin_all();
        config
    });
    assert_eq!(store.read().pinned.len(), 0);
}

#[test]
fn pinning_twice_keeps_one_entry() {
    let mut config = Config::new();
    assert!(config.pin(RID1.to_string()));
    assert!(config.pin(RID2.to_string()));
    assert!(!config.pin(RID1.to_string()));
    assert_eq!(config.pinned, vec![RID1.to_string(), RID2.to_string()]);
}

#[test]
fn failed_reload_keeps_previous_value() {
    let mut store = WebConfig::from_profile(Config::new());
    store.update(|mut config| {
        config.description = Some("before".to_string());
        config
    });
    let failed: Result<Config, String> = Err("unreadable".to_string());
    assert_eq!(store.reload(failed), Err("unreadable".to_string()));
    assert_eq!(store.read().description, Some("before".to_string()));

    let mut fresh = Config::new();
    fresh.avatar_url = Some("https://example.com/a.png".to_string());
    assert_eq!(store.reload(Ok::<Config, String>(fresh)), Ok(()));
    let config = store.read();
    assert_eq!(config.description, None);
    assert_eq!(config.avatar_url, Some("https://example.com/a.png".to_string()));
}

#[test]
fn update_flips_both_fields_together() {
    let mut store = WebConfig::from_profile(Config::new());
    store.update(|mut config| {
        config.description = Some("d".to_string());
        config.banner_url = Some("b".to_string());
        config
    });
    let seen = store.read();
    assert_eq!(seen.description.is_some(), seen.banner_url.is_some());
    let copy = seen.copy();
    assert_eq!(copy.description, Some("d".to_string()));
    assert_eq!(copy.banner_url, Some("b".to_string()));
}
