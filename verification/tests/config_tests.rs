use open_in_browser::config::{
    commit_update, plan_update, resolve_stored_config, Config, DEFAULT_KEY, DEFAULT_PORT,
    STORE_FILE,
};

#[test]
fn defaults() {
    let c = Config::default_config();
    assert_eq!(c.port, 52798);
    assert_eq!(c.key, "open-in-browser");
    assert_eq!(DEFAULT_PORT, 52798);
    assert_eq!(DEFAULT_KEY, "open-in-browser");
    assert_eq!(STORE_FILE, "config.json");
}

#[test]
fn stored_values_are_used_when_valid() {
    let c = resolve_stored_config(Some(8080), Some("secret".to_string()));
    assert_eq!(c.port, 8080);
    assert_eq!(c.key, "secret");
    let c = resolve_stored_config(Some(65535), None);
    assert_eq!(c.port, 65535);
    assert_eq!(c.key, DEFAULT_KEY);
}

#[test]
fn unusable_port_falls_back_to_default() {
    let c = resolve_stored_config(Some(65536), Some("k".to_string()));
    assert_eq!(c.port, DEFAULT_PORT);
    assert_eq!(c.key, "k");
    let c = resolve_stored_config(None, None);
    assert_eq!(c.port, DEFAULT_PORT);
    assert_eq!(c.key, DEFAULT_KEY);
}

#[test]
fn stored_config_round_trip() {
    let c = Config::new(1234, "abc".to_string());
    let back = resolve_stored_config(Some(c.port as u64), Some(c.key.clone()));
    assert_eq!(back.port, c.port);
    assert_eq!(back.key, c.key);
}

#[test]
fn unchanged_values_need_no_update() {
    let c = Config::new(52798, "open-in-browser".to_string());
    assert!(plan_update(&c, 52798, "open-in-browser").is_none());
}

#[test]
fn changed_port_or_key_is_planned() {
    let c = Config::new(52798, "open-in-browser".to_string());
    let p = plan_update(&c, 9000, "open-in-browser").unwrap();
    assert_eq!(p.port, 9000);
    assert_eq!(p.key, "open-in-browser");
    let p = plan_update(&c, 52798, "new").unwrap();
    assert_eq!(p.port, 52798);
    assert_eq!(p.key, "new");
}

#[test]
fn committed_update_changes_config_and_asks_restart() {
    let mut c = Config::new(1, "a".to_string());
    let pending = plan_update(&c, 2, "b").unwrap();
    assert_eq!(commit_update(&mut c, pending, Ok(())), Ok(true));
    assert_eq!(c.port, 2);
    assert_eq!(c.key, "b");
    // the same request again needs nothing
    assert!(plan_update(&c, 2, "b").is_none());
}

#[test]
fn failed_persist_keeps_config() {
    let mut c = Config::new(1, "a".to_string());
    let pending = plan_update(&c, 2, "b").unwrap();
    let r = commit_update(&mut c, pending, Err("Store save error: disk full".to_string()));
    assert_eq!(r, Err("Store save error: disk full".to_string()));
    assert_eq!(c.port, 1);
    assert_eq!(c.key, "a");
}

#[test]
fn clone_keeps_fields() {
    let c = Config::new(7, "x".to_string());
    let d = c.clone();
    assert_eq!(d.port, 7);
    assert_eq!(d.key, "x");
}
