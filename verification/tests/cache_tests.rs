use modman::cache::CacheStore;
use modman::cache::ModMeta;
use modman::cache::unix_now_secs;

fn meta(title: &str, folder: &str, version: &str) -> ModMeta {
    ModMeta {
        requires_steamodded: false,
        requires_talisman: false,
        categories: Vec::new(),
        author: "someone".to_string(),
        repo: "https://example.invalid/repo".to_string(),
        title: title.to_string(),
        download_url: None,
        folder_name: folder.to_string(),
        version: version.to_string(),
        automatic_version_check: false,
    }
}

#[test]
fn versions_round_trip_with_the_saved_stamp() {
    let mut store = CacheStore::new();
    let kind = "steamodded".to_string();
    let before = unix_now_secs();
    let now = unix_now_secs();
    let after = unix_now_secs();
    assert!(before <= now && now <= after);
    store.save_versions(&kind, vec!["v2".to_string(), "v1".to_string()], now);
    let (versions, t) = store.load_versions(&kind).unwrap();
    assert_eq!(*versions, vec!["v2".to_string(), "v1".to_string()]);
    assert_eq!(t, now);
}

#[test]
fn save_overwrites_only_its_own_kind() {
    let mut store = CacheStore::new();
    let smods = "steamodded".to_string();
    let talis = "talisman".to_string();
    store.save_versions(&smods, vec!["s1".to_string()], 10);
    store.save_versions(&talis, vec!["t1".to_string()], 20);
    store.save_versions(&smods, vec!["s2".to_string()], 30);
    let (versions, t) = store.load_versions(&smods).unwrap();
    assert_eq!(*versions, vec!["s2".to_string()]);
    assert_eq!(t, 30);
    let (versions, t) = store.load_versions(&talis).unwrap();
    assert_eq!(*versions, vec!["t1".to_string()]);
    assert_eq!(t, 20);
}

#[test]
fn listing_round_trip() {
    let mut store = CacheStore::new();
    assert!(store.load_listing().is_none());
    store.save_listing(vec![meta("Cryptid", "Cryptid", "1.0")], 42);
    let (mods, t) = store.load_listing().unwrap();
    assert_eq!(mods.len(), 1);
    assert_eq!(mods[0].title, "Cryptid");
    assert_eq!(t, 42);
}

#[test]
fn clear_empties_every_partition_at_once() {
    let mut store = CacheStore::new();
    let smods = "steamodded".to_string();
    let talis = "talisman".to_string();
    store.save_listing(vec![meta("A", "A", "1")], 1);
    store.save_versions(&smods, vec!["v1".to_string()], 2);
    store.save_versions(&talis, vec!["w1".to_string()], 3);
    store.clear();
    assert!(store.load_listing().is_none());
    assert!(store.load_versions(&smods).is_none());
    assert!(store.load_versions(&talis).is_none());
}

#[test]
fn stamped_saves_use_the_call_time_window() {
    let mut store = CacheStore::new();
    let kind = "talisman".to_string();
    let before = unix_now_secs();
    let stamp = store.save_versions_now(&kind, vec!["v1".to_string()]);
    let after = unix_now_secs();
    assert!(before <= stamp && stamp <= after);
    let (versions, t) = store.load_versions(&kind).unwrap();
    assert_eq!(*versions, vec!["v1".to_string()]);
    assert_eq!(t, stamp);

    let before = unix_now_secs();
    let stamp = store.save_listing_now(vec![meta("A", "A", "1")]);
    let after = unix_now_secs();
    assert!(before <= stamp && stamp <= after);
    let (_, t) = store.load_listing().unwrap();
    assert_eq!(t, stamp);
}

#[test]
fn missing_kind_loads_absent() {
    let store = CacheStore::new();
    assert!(store.load_versions(&"steamodded".to_string()).is_none());
}
