use modman::cache::ModMeta;
use modman::detection::detect;
use modman::detection::framework_presence;
use modman::detection::path_is_within;
use modman::detection::refresh_plan;
use modman::detection::DetectedMod;
use modman::errors::AppError;
use modman::registry::InstalledMod;
use modman::registry::Registry;

fn row(name: &str, path: &str) -> InstalledMod {
    InstalledMod {
        name: name.to_string(),
        path: path.to_string(),
        dependencies: Vec::new(),
        current_version: None,
    }
}

fn meta(title: &str, folder: &str, smods: bool, talis: bool) -> ModMeta {
    ModMeta {
        requires_steamodded: smods,
        requires_talisman: talis,
        categories: Vec::new(),
        author: "someone".to_string(),
        repo: "https://example.invalid/repo".to_string(),
        title: title.to_string(),
        download_url: None,
        folder_name: folder.to_string(),
        version: String::new(),
        automatic_version_check: false,
    }
}

#[test]
fn detection_surfaces_untracked_entries_classified() {
    let mut reg = Registry::new();
    reg.upsert(row("Alpha", "/mods/Alpha"));
    let listing = vec![meta("Beta Mod", "Beta", true, false)];
    let entries = vec!["Alpha".to_string(), "Beta".to_string(), "Gamma".to_string()];
    let found = detect(&reg, &listing, &entries);
    assert_eq!(found.len(), 2);
    assert_eq!(found[0].name, "Beta Mod");
    assert_eq!(found[0].folder, "Beta");
    assert!(found[0].recognized);
    assert!(found[0].requires_steamodded);
    assert!(!found[0].requires_talisman);
    assert_eq!(found[1].name, "Gamma");
    assert!(!found[1].recognized);
}

#[test]
fn detection_is_empty_when_everything_is_tracked() {
    let mut reg = Registry::new();
    reg.upsert(row("Alpha", "/mods/Alpha"));
    let entries = vec!["Alpha".to_string()];
    let found = detect(&reg, &Vec::new(), &entries);
    assert!(found.is_empty());
}

#[test]
fn refresh_plan_spares_tracked_and_loader_entries() {
    let mut reg = Registry::new();
    reg.upsert(row("Keep", "/mods/Keep"));
    let entries = vec![
        "Keep".to_string(),
        "lovely".to_string(),
        ".lovely".to_string(),
        "Stale".to_string(),
    ];
    let plan = refresh_plan(&reg, &entries);
    assert_eq!(plan, vec!["Stale".to_string()]);
}

#[test]
fn path_containment_is_component_wise() {
    assert!(path_is_within("/mods", "/mods"));
    assert!(path_is_within("/mods", "/mods/Alpha"));
    assert!(path_is_within("/mods", "/mods/Alpha/deep"));
    assert!(!path_is_within("/mods", "/modsevil"));
    assert!(!path_is_within("/mods", "/other/Alpha"));
    assert!(!path_is_within("/mods", "/mod"));
}

#[test]
fn framework_presence_rejects_other_names() {
    let reg = Registry::new();
    let detected: Vec<DetectedMod> = Vec::new();
    let r = framework_presence(&reg, &detected, &"Cryptid".to_string());
    assert!(matches!(r, Err(AppError::InvalidInput(_))));
}

#[test]
fn framework_presence_sees_registry_and_detection() {
    let mut reg = Registry::new();
    reg.upsert(row("Steamodded", "/mods/Steamodded"));
    let detected: Vec<DetectedMod> = Vec::new();
    assert!(framework_presence(&reg, &detected, &"Steamodded".to_string()).unwrap());
    assert!(!framework_presence(&reg, &detected, &"Talisman".to_string()).unwrap());

    let empty = Registry::new();
    let listing = vec![meta("Talisman", "Talisman", false, false)];
    let entries = vec!["Talisman".to_string()];
    let found = detect(&empty, &listing, &entries);
    assert!(framework_presence(&empty, &found, &"Talisman".to_string()).unwrap());
}
