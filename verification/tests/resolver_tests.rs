use modman::cache::CacheStore;
use modman::cache::ModMeta;
use modman::registry::Registry;
use modman::resolver::Framework;
use modman::resolver::canonical_name;
use modman::resolver::kind_key;
use modman::resolver::record_framework_install;
use modman::resolver::release_url;
use modman::resolver::resolve_latest_from_cache;
use modman::resolver::update_available;
use modman::resolver::versions_from_cache;
use modman::thumbnail::thumbnail_data_url;

fn meta(title: &str, folder: &str, version: &str) -> ModMeta {
    ModMeta {
        requires_steamodded: true,
        requires_talisman: false,
        categories: Vec::new(),
        author: "someone".to_string(),
        repo: "https://example.invalid/repo".to_string(),
        title: title.to_string(),
        download_url: None,
        folder_name: folder.to_string(),
        version: version.to_string(),
        automatic_version_check: false,
    }
}

#[test]
fn release_urls_are_derived_deterministically() {
    assert_eq!(
        release_url(Framework::Steamodded, "1.0.0"),
        "https://github.com/Steamodded/smods/archive/refs/tags/1.0.0.zip"
    );
    assert_eq!(
        release_url(Framework::Talisman, "v2.1"),
        "https://github.com/MathIsFun0/Talisman/archive/refs/tags/v2.1.zip"
    );
}

#[test]
fn framework_identities() {
    assert_eq!(canonical_name(Framework::Steamodded), "Steamodded");
    assert_eq!(canonical_name(Framework::Talisman), "Talisman");
    assert_eq!(kind_key(Framework::Steamodded), "steamodded");
    assert_eq!(kind_key(Framework::Talisman), "talisman");
}

#[test]
fn latest_release_prefers_the_cached_first_tag() {
    let mut store = CacheStore::new();
    store.save_versions(
        &"steamodded".to_string(),
        vec!["1.2.0".to_string(), "1.1.0".to_string()],
        7,
    );
    let url = resolve_latest_from_cache(&store, Framework::Steamodded).unwrap();
    assert_eq!(url, "https://github.com/Steamodded/smods/archive/refs/tags/1.2.0.zip");
}

#[test]
fn latest_release_defers_to_the_remote_feed_without_usable_cache() {
    let mut store = CacheStore::new();
    assert!(resolve_latest_from_cache(&store, Framework::Steamodded).is_none());
    store.save_versions(&"steamodded".to_string(), Vec::new(), 7);
    assert!(resolve_latest_from_cache(&store, Framework::Steamodded).is_none());
}

#[test]
fn listing_versions_prefers_the_cache() {
    let mut store = CacheStore::new();
    assert!(versions_from_cache(&store, Framework::Talisman).is_none());
    store.save_versions(&"talisman".to_string(), vec!["a".to_string(), "b".to_string()], 1);
    let versions = versions_from_cache(&store, Framework::Talisman).unwrap();
    assert_eq!(versions, vec!["a".to_string(), "b".to_string()]);
}

#[test]
fn a_framework_install_records_a_versioned_dependency_free_row() {
    let mut reg = Registry::new();
    record_framework_install(
        &mut reg,
        Framework::Steamodded,
        "/mods/Steamodded".to_string(),
        "1.2.0".to_string(),
    );
    assert_eq!(reg.len(), 1);
    let row = &reg.mods()[0];
    assert_eq!(row.name, "Steamodded");
    assert_eq!(row.path, "/mods/Steamodded");
    assert!(row.dependencies.is_empty());
    assert_eq!(row.current_version, Some("1.2.0".to_string()));

    record_framework_install(
        &mut reg,
        Framework::Steamodded,
        "/mods/Steamodded".to_string(),
        "1.3.0".to_string(),
    );
    assert_eq!(reg.len(), 1);
    assert_eq!(reg.mods()[0].current_version, Some("1.3.0".to_string()));
}

#[test]
fn update_is_available_only_on_a_differing_cached_version() {
    let listing = vec![meta("Cryptid", "Cryptid", "2.0")];
    let name = "Cryptid".to_string();
    assert!(update_available(&listing, &name, &"1.0".to_string()));
    assert!(!update_available(&listing, &name, &"2.0".to_string()));
    assert!(!update_available(&listing, &name, &"".to_string()));
    assert!(!update_available(&listing, &"Unknown".to_string(), &"1.0".to_string()));
    let no_version = vec![meta("Cryptid", "Cryptid", "")];
    assert!(!update_available(&no_version, &name, &"1.0".to_string()));
}

#[test]
fn the_first_matching_record_decides() {
    let listing = vec![meta("Cryptid", "Cryptid", "1.0"), meta("Cryptid", "Cryptid", "9.9")];
    assert!(!update_available(&listing, &"Cryptid".to_string(), &"1.0".to_string()));
}

#[test]
fn folder_name_matches_too() {
    let listing = vec![meta("Cryptid Mod", "Cryptid", "2.0")];
    assert!(update_available(&listing, &"Cryptid".to_string(), &"1.0".to_string()));
}

#[test]
fn thumbnails_become_base64_data_urls() {
    let image = b"hello".to_vec();
    assert_eq!(thumbnail_data_url(&image), "data:image/jpeg;base64,aGVsbG8=");
    let empty: Vec<u8> = Vec::new();
    assert_eq!(thumbnail_data_url(&empty), "data:image/jpeg;base64,");
}
