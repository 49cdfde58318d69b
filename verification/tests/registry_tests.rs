use modman::errors::AppError;
use modman::registry::InstalledMod;
use modman::registry::Registry;
use modman::registry::is_framework_name;

fn row(name: &str, path: &str, deps: &[&str], version: Option<&str>) -> InstalledMod {
    InstalledMod {
        name: name.to_string(),
        path: path.to_string(),
        dependencies: deps.iter().map(|d| d.to_string()).collect(),
        current_version: version.map(|v| v.to_string()),
    }
}

fn names(reg: &Registry) -> Vec<String> {
    reg.mods().iter().map(|m| m.name.clone()).collect()
}

#[test]
fn dependents_exclude_the_name_itself() {
    let mut reg = Registry::new();
    reg.upsert(row("Alpha", "/mods/Alpha", &["Alpha"], None));
    reg.upsert(row("Beta", "/mods/Beta", &["Alpha"], None));
    let deps = reg.dependents_of(&"Alpha".to_string());
    assert_eq!(deps, vec!["Beta".to_string()]);
}

#[test]
fn dependents_in_row_order() {
    let mut reg = Registry::new();
    reg.upsert(row("Steamodded", "/mods/Steamodded", &[], Some("1.0")));
    reg.upsert(row("Card", "/mods/Card", &["Steamodded"], None));
    reg.upsert(row("Deck", "/mods/Deck", &["Steamodded"], None));
    let deps = reg.dependents_of(&"Steamodded".to_string());
    assert_eq!(deps, vec!["Card".to_string(), "Deck".to_string()]);
}

#[test]
fn dependents_of_an_unknown_name_is_empty() {
    let mut reg = Registry::new();
    reg.upsert(row("Alpha", "/mods/Alpha", &["Beta"], None));
    assert!(reg.dependents_of(&"Gamma".to_string()).is_empty());
}

#[test]
fn uninstall_framework_with_dependents_fails_and_changes_nothing() {
    let mut reg = Registry::new();
    reg.upsert(row("Steamodded", "/mods/Steamodded", &[], Some("1.0")));
    reg.upsert(row("Card", "/mods/Card", &["Steamodded"], None));
    let r = reg.uninstall_one(&"Steamodded".to_string());
    match r {
        Err(AppError::Conflict { name, dependents }) => {
            assert_eq!(name, "Steamodded");
            assert_eq!(dependents, 1);
        },
        other => panic!("expected a conflict, got {:?}", other.is_ok()),
    }
    assert_eq!(names(&reg), vec!["Steamodded".to_string(), "Card".to_string()]);
}

#[test]
fn uninstall_framework_without_dependents_succeeds() {
    let mut reg = Registry::new();
    reg.upsert(row("Talisman", "/mods/Talisman", &[], Some("2.0")));
    let r = reg.uninstall_one(&"Talisman".to_string());
    assert_eq!(r.unwrap(), "/mods/Talisman");
    assert_eq!(reg.len(), 0);
}

#[test]
fn uninstall_non_framework_is_always_permitted() {
    let mut reg = Registry::new();
    reg.upsert(row("Alpha", "/mods/Alpha", &[], None));
    reg.upsert(row("Beta", "/mods/Beta", &["Alpha"], None));
    let r = reg.uninstall_one(&"Alpha".to_string());
    assert_eq!(r.unwrap(), "/mods/Alpha");
    assert_eq!(names(&reg), vec!["Beta".to_string()]);
}

#[test]
fn uninstall_missing_row_is_not_found() {
    let mut reg = Registry::new();
    let r = reg.uninstall_one(&"Ghost".to_string());
    assert!(matches!(r, Err(AppError::NotFound(_))));
}

#[test]
fn cascade_removes_the_whole_dependent_subtree() {
    let mut reg = Registry::new();
    reg.upsert(row("Steamodded", "/m/Steamodded", &[], Some("1.0")));
    reg.upsert(row("B", "/m/B", &["Steamodded"], None));
    reg.upsert(row("C", "/m/C", &["Steamodded"], None));
    reg.upsert(row("D", "/m/D", &["B", "C"], None));
    reg.upsert(row("Free", "/m/Free", &[], None));
    let removed = reg.cascade_uninstall(&"Steamodded".to_string());
    let removed_names: Vec<String> = removed.iter().map(|m| m.name.clone()).collect();
    assert_eq!(removed.len(), 4);
    assert!(removed_names.contains(&"Steamodded".to_string()));
    assert!(removed_names.contains(&"B".to_string()));
    assert!(removed_names.contains(&"C".to_string()));
    assert!(removed_names.contains(&"D".to_string()));
    assert_eq!(names(&reg), vec!["Free".to_string()]);
}

#[test]
fn cascade_is_idempotent_after_full_removal() {
    let mut reg = Registry::new();
    reg.upsert(row("Talisman", "/m/Talisman", &[], None));
    reg.upsert(row("B", "/m/B", &["Talisman"], None));
    let first = reg.cascade_uninstall(&"Talisman".to_string());
    assert_eq!(first.len(), 2);
    let second = reg.cascade_uninstall(&"Talisman".to_string());
    assert_eq!(second.len(), 0);
    assert_eq!(reg.len(), 0);
}

#[test]
fn cascade_on_a_never_installed_root_is_a_no_op() {
    let mut reg = Registry::new();
    reg.upsert(row("Alpha", "/m/Alpha", &[], None));
    let removed = reg.cascade_uninstall(&"Ghost".to_string());
    assert_eq!(removed.len(), 0);
    assert_eq!(names(&reg), vec!["Alpha".to_string()]);
}

#[test]
fn cascade_survives_a_dependency_cycle() {
    let mut reg = Registry::new();
    reg.upsert(row("A", "/m/A", &["B"], None));
    reg.upsert(row("B", "/m/B", &["A"], None));
    let removed = reg.cascade_uninstall(&"A".to_string());
    assert_eq!(removed.len(), 2);
    assert_eq!(reg.len(), 0);
}

#[test]
fn reindex_removes_exactly_the_missing_row() {
    let mut reg = Registry::new();
    reg.upsert(row("A", "/m/A", &[], None));
    reg.upsert(row("B", "/m/B", &[], None));
    reg.upsert(row("C", "/m/C", &[], None));
    let cleaned = reg.reindex(&vec![true, false, true]);
    assert_eq!(cleaned, 1);
    assert_eq!(names(&reg), vec!["A".to_string(), "C".to_string()]);
}

#[test]
fn upsert_replaces_the_row_on_reinstall() {
    let mut reg = Registry::new();
    reg.upsert(row("Steamodded", "/m/Steamodded", &[], Some("1.0")));
    reg.upsert(row("Steamodded", "/m/Steamodded", &[], Some("2.0")));
    assert_eq!(reg.len(), 1);
    assert_eq!(reg.mods()[0].current_version, Some("2.0".to_string()));
}

#[test]
fn try_from_rows_refuses_duplicate_names() {
    let rows = vec![row("A", "/m/A", &[], None), row("A", "/m/other", &[], None)];
    assert!(Registry::try_from_rows(rows).is_none());
    let rows = vec![row("A", "/m/A", &[], None), row("B", "/m/B", &[], None)];
    let reg = Registry::try_from_rows(rows).unwrap();
    assert_eq!(reg.len(), 2);
}

#[test]
fn force_remove_ignores_dependents() {
    let mut reg = Registry::new();
    reg.upsert(row("Steamodded", "/m/Steamodded", &[], None));
    reg.upsert(row("Card", "/m/Card", &["Steamodded"], None));
    let r = reg.force_remove(&"Steamodded".to_string());
    assert_eq!(r.unwrap(), "/m/Steamodded");
    assert_eq!(names(&reg), vec!["Card".to_string()]);
    assert!(matches!(
        reg.force_remove(&"Ghost".to_string()),
        Err(AppError::NotFound(_))
    ));
}

#[test]
fn framework_names_are_recognized_ignoring_case() {
    assert!(is_framework_name(&"Steamodded".to_string()));
    assert!(is_framework_name(&"STEAMODDED".to_string()));
    assert!(is_framework_name(&"talisman".to_string()));
    assert!(!is_framework_name(&"Cryptid".to_string()));
}
