use modman::backup::backup_record;
use modman::backup::backups_to_remove;
use modman::backup::select_latest;
use modman::backup::BackupMeta;
use modman::errors::AppError;
use modman::map_error;
use modman::text::u64_to_string;

fn meta(id: &str, path: &str, time: u64) -> BackupMeta {
    BackupMeta {
        backup_id: id.to_string(),
        original_path: path.to_string(),
        backup_time: time,
    }
}

#[test]
fn restore_selects_the_latest_backup() {
    let metas = vec![
        meta("backup_1", "/mods/Alpha", 100),
        meta("backup_2", "/mods/Alpha", 200),
        meta("backup_3", "/mods/Other", 999),
    ];
    let i = select_latest(&metas, &"/mods/Alpha".to_string()).unwrap();
    assert_eq!(i, 1);

    let reversed = vec![
        meta("backup_2", "/mods/Alpha", 200),
        meta("backup_1", "/mods/Alpha", 100),
    ];
    let i = select_latest(&reversed, &"/mods/Alpha".to_string()).unwrap();
    assert_eq!(i, 0);
}

#[test]
fn ties_go_to_the_earliest_entry_and_zero_never_qualifies() {
    let tie = vec![
        meta("backup_a", "/p", 50),
        meta("backup_b", "/p", 50),
    ];
    assert_eq!(select_latest(&tie, &"/p".to_string()).unwrap(), 0);

    let zero = vec![meta("backup_z", "/p", 0)];
    assert!(select_latest(&zero, &"/p".to_string()).is_none());
    assert!(select_latest(&tie, &"/absent".to_string()).is_none());
}

#[test]
fn removing_a_path_names_all_its_backups() {
    let metas = vec![
        meta("backup_1", "/p", 1),
        meta("backup_2", "/q", 2),
        meta("backup_3", "/p", 3),
    ];
    let ids = backups_to_remove(&metas, &"/p".to_string());
    assert_eq!(ids, vec!["backup_1".to_string(), "backup_3".to_string()]);
}

#[test]
fn a_new_backup_record_binds_id_path_and_time() {
    let r = backup_record("/mods/Alpha".to_string(), 1234, 567);
    assert_eq!(r.backup_id, "backup_1234");
    assert_eq!(r.original_path, "/mods/Alpha");
    assert_eq!(r.backup_time, 567);
}

#[test]
fn decimal_rendering_is_exact() {
    assert_eq!(u64_to_string(0), "0");
    assert_eq!(u64_to_string(7), "7");
    assert_eq!(u64_to_string(10), "10");
    assert_eq!(u64_to_string(90817), "90817");
    assert_eq!(u64_to_string(u64::MAX), "18446744073709551615");
}

#[test]
fn error_messages_surface_the_family_and_the_offender() {
    let e: Result<(), AppError> = Err(AppError::NotFound("/mods/Gone".to_string()));
    assert_eq!(map_error(e).unwrap_err(), "not found: /mods/Gone");
    let e: Result<(), AppError> = Err(AppError::Conflict {
        name: "Steamodded".to_string(),
        dependents: 2,
    });
    assert_eq!(
        map_error(e).unwrap_err(),
        "cannot remove Steamodded: 2 dependents exist; use cascade uninstall"
    );
    let e: Result<(), AppError> = Err(AppError::RemoteFailure("feed".to_string()));
    assert_eq!(map_error(e).unwrap_err(), "remote failure: feed");
    let e: Result<(), AppError> = Err(AppError::InvalidInput("bad".to_string()));
    assert_eq!(map_error(e).unwrap_err(), "invalid input: bad");
    let e: Result<(), AppError> = Err(AppError::IoFailure("disk".to_string()));
    assert_eq!(map_error(e).unwrap_err(), "io failure: disk");
    let e: Result<(), AppError> = Err(AppError::StateCorruption("lock".to_string()));
    assert_eq!(map_error(e).unwrap_err(), "state corruption: lock");
    let ok: Result<u32, AppError> = Ok(5);
    assert_eq!(map_error(ok).unwrap(), 5);
}
