use poof::error::PoofError;
use poof::hosts::{Host, HostConfig, HostKey, KeyConfig};
use poof::persist::{HostManager, KeyManager};

fn sample_hosts() -> HostConfig {
    let mut cfg = HostConfig::default();
    let mut a = Host::new(
        "laptop".to_string(),
        "id-laptop".to_string(),
        Some("work machine".to_string()),
        1111,
    );
    a.add_metadata("os".to_string(), "linux".to_string());
    a.update_last_seen(2222);
    cfg.add_host(a).unwrap();
    cfg.add_host(Host::new("phone".to_string(), "id-phone".to_string(), None, 3333)).unwrap();
    cfg
}

fn sample_keys() -> KeyConfig {
    let mut cfg = KeyConfig::default();
    cfg.add_key(HostKey::new("main".to_string(), "sec-main".to_string(), None, 10)).unwrap();
    cfg.add_key(
        HostKey::new("spare".to_string(), "sec-spare".to_string(), Some("backup".to_string()), 20),
    ).unwrap();
    cfg
}

#[test]
fn hosts_survive_save_then_load() {
    let cfg = sample_hosts();
    let doc = cfg.serialize();
    let back = HostConfig::parse(&doc).expect("parses");
    assert_eq!(back.hosts.len(), 2);
    assert_eq!(back.hosts[0].alias, "laptop");
    assert_eq!(back.hosts[0].public_key, "id-laptop");
    assert_eq!(back.hosts[0].description.as_deref(), Some("work machine"));
    assert_eq!(back.hosts[0].added_at, 1111);
    assert_eq!(back.hosts[0].last_seen, Some(2222));
    assert_eq!(back.hosts[0].metadata, vec![("os".to_string(), "linux".to_string())]);
    assert_eq!(back.hosts[1].alias, "phone");
    assert_eq!(back.hosts[1].last_seen, None);
    assert_eq!(back.hosts[1].description, None);
}

#[test]
fn keys_survive_save_then_load() {
    let cfg = sample_keys();
    let doc = cfg.serialize();
    let back = KeyConfig::parse(&doc).expect("parses");
    assert_eq!(back.keys.len(), 2);
    assert_eq!(back.keys[0].name, "main");
    assert_eq!(back.keys[0].secret_key, "sec-main");
    assert_eq!(back.keys[1].description.as_deref(), Some("backup"));
    assert_eq!(back.default_key.as_deref(), Some("main"));
}

#[test]
fn load_of_save_of_load_equals_load() {
    let doc = sample_hosts().serialize();
    let once = HostConfig::parse(&doc).expect("parses");
    let again = HostConfig::parse(&once.serialize()).expect("parses");
    assert_eq!(again.serialize(), doc);
    let kdoc = sample_keys().serialize();
    let konce = KeyConfig::parse(&kdoc).expect("parses");
    let kagain = KeyConfig::parse(&konce.serialize()).expect("parses");
    assert_eq!(kagain.serialize(), kdoc);
}

#[test]
fn non_ascii_fields_survive_the_round_trip() {
    let mut cfg = HostConfig::default();
    cfg.add_host(Host::new("café".to_string(), "clé-publique".to_string(), None, 7)).unwrap();
    let back = HostConfig::parse(&cfg.serialize()).expect("parses");
    assert_eq!(back.hosts[0].alias, "café");
    assert_eq!(back.hosts[0].public_key, "clé-publique");
}

#[test]
fn corrupt_documents_fail_the_whole_load() {
    let garbage = vec![104u8, 101, 108, 108, 111];
    let err = HostConfig::parse(&garbage).expect_err("garbage");
    assert!(matches!(err, PoofError::Persistence { .. }));
    assert_eq!(err.category(), "persistence");
    let mut truncated = sample_hosts().serialize();
    truncated.truncate(truncated.len() - 3);
    assert!(HostConfig::parse(&truncated).is_err());
    let mut trailing = sample_keys().serialize();
    trailing.push(48);
    assert!(KeyConfig::parse(&trailing).is_err());
}

#[test]
fn host_manager_runs_whole_document_commands() {
    let m = HostManager::new();
    let empty = HostConfig::default().serialize();
    let doc = m.add_host(&empty, "x".to_string(), "id1".to_string(), None, 50).expect("adds");
    let again = m.add_host(&doc, "x".to_string(), "id2".to_string(), None, 60);
    assert!(matches!(again, Err(PoofError::Conflict { .. })));
    let got = m.get_host(&doc, &"x".to_string()).expect("parses").expect("present");
    assert_eq!(got.public_key, "id1");
    let by_pk = m.find_by_public_key(&doc, &"id1".to_string()).expect("parses").expect("present");
    assert_eq!(by_pk.alias, "x");
    let doc2 = m.update_last_seen(&doc, &"x".to_string(), 99).expect("updates");
    let seen = m.get_host(&doc2, &"x".to_string()).unwrap().unwrap();
    assert_eq!(seen.last_seen, Some(99));
    let doc3 = m.update_last_seen(&doc2, &"ghost".to_string(), 123).expect("no-op");
    assert_eq!(doc3, doc2);
    let doc4 = m.rename_host(&doc2, &"x".to_string(), "y".to_string()).expect("renames");
    let listed = m.list_hosts(&doc4).expect("parses");
    assert_eq!(listed.len(), 1);
    assert_eq!(listed[0].alias, "y");
    let (doc5, removed) = m.remove_host(&doc4, &"y".to_string()).expect("removes");
    assert_eq!(removed.public_key, "id1");
    assert!(m.list_hosts(&doc5).expect("parses").is_empty());
}

#[test]
fn key_manager_reassigns_the_default_across_documents() {
    let m = KeyManager::new();
    let empty = KeyConfig::default().serialize();
    let doc = m.add_key(&empty, "a".to_string(), "s1".to_string(), None, 1).expect("adds");
    let doc = m.add_key(&doc, "b".to_string(), "s2".to_string(), None, 2).expect("adds");
    let dk = m.get_default_key(&doc).expect("parses").expect("present");
    assert_eq!(dk.name, "a");
    let (doc, removed) = m.remove_key(&doc, &"a".to_string()).expect("removes");
    assert_eq!(removed.name, "a");
    let dk = m.get_default_key(&doc).expect("parses").expect("reassigned");
    assert_eq!(dk.name, "b");
    let doc = m.set_default_key(&doc, "b".to_string()).expect("sets");
    let keys = m.list_keys(&doc).expect("parses");
    assert_eq!(keys.len(), 1);
    let (doc, _) = m.remove_key(&doc, &"b".to_string()).expect("removes");
    assert!(m.get_default_key(&doc).expect("parses").is_none());
    let missing = m.get_key(&doc, &"b".to_string()).expect("parses");
    assert!(missing.is_none());
}
