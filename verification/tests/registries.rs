use poof::error::PoofError;
use poof::hosts::{Host, HostConfig, HostKey, KeyConfig};
use poof::registry::TicketRegistry;

fn digest() -> String {
    "abc123def456ghi789jkl012mno345pqr678stu901vwx234yz".to_string()
}

fn host(alias: &str, pk: &str) -> Host {
    Host::new(alias.to_string(), pk.to_string(), None, 1000)
}

fn key(name: &str, sk: &str) -> HostKey {
    HostKey::new(name.to_string(), sk.to_string(), None, 2000)
}

#[test]
fn drop_then_lookup_returns_same_hash() {
    let mut reg = TicketRegistry::new();
    let t = reg.register_drop(digest(), Some("a.bin".to_string()));
    assert_eq!(t.query, "abc123");
    let found = reg.lookup(&"abc123".to_string()).expect("present");
    assert_eq!(found.hash, digest());
    assert_eq!(found.filename.as_deref(), Some("a.bin"));
}

#[test]
fn later_insert_with_same_query_replaces() {
    let mut reg = TicketRegistry::new();
    reg.register_drop(digest(), None);
    let other = "abc123zzzzzz".to_string();
    reg.register_drop(other.clone(), None);
    let found = reg.lookup(&"abc123".to_string()).expect("present");
    assert_eq!(found.hash, other);
}

#[test]
fn lookup_of_absent_query_is_none() {
    let reg = TicketRegistry::new();
    assert!(reg.lookup(&"zzzzzz".to_string()).is_none());
}

#[test]
fn add_host_with_taken_alias_conflicts() {
    let mut cfg = HostConfig::default();
    cfg.add_host(host("x", "id1")).expect("first add");
    let err = cfg.add_host(host("x", "id2")).expect_err("conflict");
    assert!(matches!(err, PoofError::Conflict { .. }));
    assert_eq!(err.message(), "Host with alias 'x' already exists");
    assert_eq!(cfg.hosts.len(), 1);
    assert_eq!(cfg.hosts[0].public_key, "id1");
}

#[test]
fn add_host_with_reused_identity_conflicts() {
    let mut cfg = HostConfig::default();
    cfg.add_host(host("a", "id")).expect("first add");
    let err = cfg.add_host(host("b", "id")).expect_err("conflict");
    assert!(matches!(err, PoofError::Conflict { .. }));
    assert_eq!(cfg.hosts.len(), 1);
    assert_eq!(cfg.hosts[0].alias, "a");
}

#[test]
fn remove_host_returns_the_record() {
    let mut cfg = HostConfig::default();
    cfg.add_host(host("a", "id")).unwrap();
    let removed = cfg.remove_host(&"a".to_string()).expect("present");
    assert_eq!(removed.public_key, "id");
    assert!(cfg.hosts.is_empty());
}

#[test]
fn remove_absent_host_is_not_found() {
    let mut cfg = HostConfig::default();
    let err = cfg.remove_host(&"ghost".to_string()).expect_err("absent");
    assert!(matches!(err, PoofError::NotFound { .. }));
    assert_eq!(err.category(), "not found");
}

#[test]
fn rename_to_taken_alias_leaves_both_hosts() {
    let mut cfg = HostConfig::default();
    cfg.add_host(host("old", "idA")).unwrap();
    cfg.add_host(host("new", "idB")).unwrap();
    let err = cfg.update_host_alias(&"old".to_string(), "new".to_string()).expect_err("taken");
    assert!(matches!(err, PoofError::Conflict { .. }));
    assert_eq!(cfg.hosts[0].alias, "old");
    assert_eq!(cfg.hosts[0].public_key, "idA");
    assert_eq!(cfg.hosts[1].alias, "new");
    assert_eq!(cfg.hosts[1].public_key, "idB");
}

#[test]
fn rename_changes_only_the_alias() {
    let mut cfg = HostConfig::default();
    cfg.add_host(host("old", "idA")).unwrap();
    cfg.update_host_alias(&"old".to_string(), "fresh".to_string()).expect("renames");
    assert_eq!(cfg.hosts[0].alias, "fresh");
    assert_eq!(cfg.hosts[0].public_key, "idA");
}

#[test]
fn update_last_seen_is_silent_for_absent_alias() {
    let mut cfg = HostConfig::default();
    cfg.add_host(host("a", "id")).unwrap();
    cfg.update_last_seen(&"ghost".to_string(), 5000);
    assert_eq!(cfg.hosts[0].last_seen, None);
}

#[test]
fn update_last_seen_sets_the_timestamp() {
    let mut cfg = HostConfig::default();
    cfg.add_host(host("a", "id")).unwrap();
    cfg.update_last_seen(&"a".to_string(), 5000);
    assert_eq!(cfg.hosts[0].last_seen, Some(5000));
    assert_eq!(cfg.hosts[0].last_seen(), Some(5000));
}

#[test]
fn add_metadata_overwrites_existing_key() {
    let mut h = host("a", "id");
    h.add_metadata("os".to_string(), "linux".to_string());
    h.add_metadata("arch".to_string(), "x86".to_string());
    h.add_metadata("os".to_string(), "bsd".to_string());
    assert_eq!(h.metadata.len(), 2);
    assert_eq!(h.metadata[0], ("os".to_string(), "bsd".to_string()));
    assert_eq!(h.metadata[1], ("arch".to_string(), "x86".to_string()));
}

#[test]
fn first_key_added_becomes_default() {
    let mut cfg = KeyConfig::default();
    cfg.add_key(key("first", "s1")).unwrap();
    cfg.add_key(key("second", "s2")).unwrap();
    assert_eq!(cfg.default_key.as_deref(), Some("first"));
    let dk = cfg.get_default_key().expect("default present");
    assert_eq!(dk.name, "first");
}

#[test]
fn add_key_with_taken_name_conflicts() {
    let mut cfg = KeyConfig::default();
    cfg.add_key(key("a", "s1")).unwrap();
    let err = cfg.add_key(key("a", "s2")).expect_err("conflict");
    assert!(matches!(err, PoofError::Conflict { .. }));
    assert_eq!(cfg.keys.len(), 1);
    assert_eq!(cfg.keys[0].secret_key, "s1");
}

#[test]
fn removing_the_default_reassigns_it_to_a_remaining_key() {
    let mut cfg = KeyConfig::default();
    cfg.add_key(key("a", "s1")).unwrap();
    cfg.add_key(key("b", "s2")).unwrap();
    assert_eq!(cfg.default_key.as_deref(), Some("a"));
    let removed = cfg.remove_key(&"a".to_string()).expect("present");
    assert_eq!(removed.name, "a");
    assert_eq!(cfg.default_key.as_deref(), Some("b"));
}

#[test]
fn removing_the_last_key_clears_the_default() {
    let mut cfg = KeyConfig::default();
    cfg.add_key(key("only", "s")).unwrap();
    cfg.remove_key(&"only".to_string()).expect("present");
    assert_eq!(cfg.default_key, None);
    assert!(cfg.get_default_key().is_none());
}

#[test]
fn removing_a_non_default_key_keeps_the_default() {
    let mut cfg = KeyConfig::default();
    cfg.add_key(key("a", "s1")).unwrap();
    cfg.add_key(key("b", "s2")).unwrap();
    cfg.remove_key(&"b".to_string()).expect("present");
    assert_eq!(cfg.default_key.as_deref(), Some("a"));
}

#[test]
fn set_default_key_requires_a_known_name() {
    let mut cfg = KeyConfig::default();
    cfg.add_key(key("a", "s1")).unwrap();
    let err = cfg.set_default_key("ghost".to_string()).expect_err("unknown");
    assert!(matches!(err, PoofError::NotFound { .. }));
    cfg.set_default_key("a".to_string()).expect("known");
    assert_eq!(cfg.default_key.as_deref(), Some("a"));
}

#[test]
fn active_key_prefers_the_requested_name() {
    let mut cfg = KeyConfig::default();
    cfg.add_key(key("a", "s1")).unwrap();
    cfg.add_key(key("b", "s2")).unwrap();
    let k = cfg.active_key(Some(&"b".to_string())).expect("known").expect("present");
    assert_eq!(k.secret_key, "s2");
    let err = cfg.active_key(Some(&"ghost".to_string())).expect_err("unknown");
    assert!(matches!(err, PoofError::NotFound { .. }));
}

#[test]
fn active_key_falls_back_to_the_default_then_to_none() {
    let mut cfg = KeyConfig::default();
    cfg.add_key(key("a", "s1")).unwrap();
    cfg.add_key(key("b", "s2")).unwrap();
    let k = cfg.active_key(None).expect("resolves").expect("default present");
    assert_eq!(k.name, "a");
    let empty = KeyConfig::default();
    assert!(empty.active_key(None).expect("resolves").is_none());
}

#[test]
fn created_at_reports_the_construction_time() {
    let k = key("a", "s1");
    assert_eq!(k.created_at(), 2000);
    let h = host("a", "id");
    assert_eq!(h.added_at(), 1000);
}
