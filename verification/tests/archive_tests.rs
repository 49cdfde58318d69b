use std::io::Write;
use modman::archive::ArchiveFormat;
use modman::archive::extract_archive;
use modman::archive::format_for_name;
use modman::archive::mod_name_for_file;
use modman::archive::path_is_safe;
use modman::errors::AppError;

fn zip_bytes(files: &[(&str, &[u8])]) -> Vec<u8> {
    let cursor = std::io::Cursor::new(Vec::new());
    let mut writer = zip::ZipWriter::new(cursor);
    let options = zip::write::SimpleFileOptions::default();
    for (name, data) in files {
        writer.start_file(*name, options).unwrap();
        writer.write_all(data).unwrap();
    }
    writer.finish().unwrap().into_inner()
}

fn tar_bytes(files: &[(&str, &[u8])]) -> Vec<u8> {
    let mut builder = tar::Builder::new(Vec::new());
    for (name, data) in files {
        let mut header = tar::Header::new_gnu();
        header.set_size(data.len() as u64);
        header.set_mode(0o644);
        header.set_cksum();
        builder.append_data(&mut header, *name, *data).unwrap();
    }
    builder.into_inner().unwrap()
}

fn gzip_bytes(data: &[u8]) -> Vec<u8> {
    let mut encoder = flate2::write::GzEncoder::new(Vec::new(), flate2::Compression::default());
    encoder.write_all(data).unwrap();
    encoder.finish().unwrap()
}

#[test]
fn zip_round_trip_collapses_the_single_wrapping_folder() {
    let bytes = zip_bytes(&[("payload/a.lua", b"-- a mod")]);
    let tree = extract_archive(ArchiveFormat::Zip, &bytes, true).unwrap();
    assert_eq!(tree.len(), 1);
    assert_eq!(tree[0].path, "a.lua");
    assert!(!tree[0].is_dir);
    assert_eq!(tree[0].data, b"-- a mod".to_vec());
}

#[test]
fn the_collapse_heuristic_runs_one_round_only() {
    let bytes = zip_bytes(&[("root/payload/a.lua", b"-- nested")]);
    let tree = extract_archive(ArchiveFormat::Zip, &bytes, true).unwrap();
    assert_eq!(tree.len(), 1);
    assert_eq!(tree[0].path, "payload/a.lua");
}

#[test]
fn zip_without_script_files_is_rejected_when_validated() {
    let bytes = zip_bytes(&[("payload/readme.txt", b"hello")]);
    let r = extract_archive(ArchiveFormat::Zip, &bytes, true);
    assert!(matches!(r, Err(AppError::InvalidInput(_))));
}

#[test]
fn memory_ingestion_skips_content_validation() {
    let bytes = zip_bytes(&[("payload/readme.txt", b"hello")]);
    let tree = extract_archive(ArchiveFormat::Zip, &bytes, false).unwrap();
    assert_eq!(tree.len(), 1);
    assert_eq!(tree[0].path, "readme.txt");
}

#[test]
fn traversal_entries_are_skipped_not_fatal() {
    let bytes = zip_bytes(&[("../evil.lua", b"bad"), ("ok/a.lua", b"good")]);
    let tree = extract_archive(ArchiveFormat::Zip, &bytes, true).unwrap();
    assert_eq!(tree.len(), 1);
    assert_eq!(tree[0].path, "a.lua");
    assert_eq!(tree[0].data, b"good".to_vec());
}

#[test]
fn no_collapse_when_a_top_level_file_exists() {
    let bytes = zip_bytes(&[("a.lua", b"top"), ("dir/b.lua", b"nested")]);
    let tree = extract_archive(ArchiveFormat::Zip, &bytes, true).unwrap();
    let paths: Vec<String> = tree.iter().map(|e| e.path.clone()).collect();
    assert_eq!(paths, vec!["a.lua".to_string(), "dir/b.lua".to_string()]);
}

#[test]
fn no_collapse_when_two_top_level_folders_exist() {
    let bytes = zip_bytes(&[("one/a.lua", b"a"), ("two/b.lua", b"b")]);
    let tree = extract_archive(ArchiveFormat::Zip, &bytes, false).unwrap();
    let paths: Vec<String> = tree.iter().map(|e| e.path.clone()).collect();
    assert_eq!(paths, vec!["one/a.lua".to_string(), "two/b.lua".to_string()]);
}

#[test]
fn tar_and_tar_gz_round_trip() {
    let tarred = tar_bytes(&[("wrap/mod.lua", b"print(1)")]);
    let tree = extract_archive(ArchiveFormat::Tar, &tarred, true).unwrap();
    assert_eq!(tree.len(), 1);
    assert_eq!(tree[0].path, "mod.lua");

    let gzipped = gzip_bytes(&tarred);
    let tree = extract_archive(ArchiveFormat::TarGz, &gzipped, true).unwrap();
    assert_eq!(tree.len(), 1);
    assert_eq!(tree[0].path, "mod.lua");
    assert_eq!(tree[0].data, b"print(1)".to_vec());
}

#[test]
fn a_path_bared_by_the_collapse_is_still_skipped() {
    // the leading component strips away to an absolute-looking path,
    // which must never be handed to the caller
    let bytes = zip_bytes(&[("top//x.lua", b"bad"), ("top/a.lua", b"good")]);
    let tree = extract_archive(ArchiveFormat::Zip, &bytes, true).unwrap();
    assert_eq!(tree.len(), 1);
    assert_eq!(tree[0].path, "a.lua");
    for entry in &tree {
        assert!(!entry.path.starts_with('/'));
    }
}

#[test]
fn a_bare_dot_lua_name_is_no_script_file() {
    let bytes = zip_bytes(&[("payload/.lua", b"no stem")]);
    assert!(matches!(
        extract_archive(ArchiveFormat::Zip, &bytes, true),
        Err(AppError::InvalidInput(_))
    ));
    let bytes = zip_bytes(&[(".lua", b"no stem")]);
    assert!(matches!(
        extract_archive(ArchiveFormat::Zip, &bytes, true),
        Err(AppError::InvalidInput(_))
    ));
}

#[test]
fn an_empty_archive_has_no_valid_content() {
    let bytes = zip_bytes(&[]);
    assert!(matches!(
        extract_archive(ArchiveFormat::Zip, &bytes, true),
        Err(AppError::InvalidInput(_))
    ));
    let tree = extract_archive(ArchiveFormat::Zip, &bytes, false).unwrap();
    assert!(tree.is_empty());
}

#[test]
fn unreadable_bytes_are_an_io_failure() {
    let garbage = vec![1u8, 2, 3, 4];
    assert!(matches!(
        extract_archive(ArchiveFormat::Zip, &garbage, false),
        Err(AppError::IoFailure(_))
    ));
    assert!(matches!(
        extract_archive(ArchiveFormat::TarGz, &garbage, false),
        Err(AppError::IoFailure(_))
    ));
}

#[test]
fn format_is_judged_from_the_file_name_suffix() {
    assert_eq!(format_for_name("Mod.zip"), Some(ArchiveFormat::Zip));
    assert_eq!(format_for_name("Mod.tar"), Some(ArchiveFormat::Tar));
    assert_eq!(format_for_name("Mod.tar.gz"), Some(ArchiveFormat::TarGz));
    assert_eq!(format_for_name("Mod.tgz"), Some(ArchiveFormat::TarGz));
    assert_eq!(format_for_name("Mod.rar"), None);
    assert_eq!(format_for_name("Mod"), None);
}

#[test]
fn mod_name_drops_archive_suffixes() {
    assert_eq!(mod_name_for_file("CoolMod.zip"), "CoolMod");
    assert_eq!(mod_name_for_file("CoolMod.tar"), "CoolMod");
    assert_eq!(mod_name_for_file("CoolMod.tar.gz"), "CoolMod");
    assert_eq!(mod_name_for_file("CoolMod.tgz"), "CoolMod");
    assert_eq!(mod_name_for_file("CoolMod"), "CoolMod");
}

#[test]
fn unsafe_paths_are_recognized() {
    assert!(path_is_safe("a/b.lua"));
    assert!(path_is_safe("a..b/c.lua"));
    assert!(!path_is_safe(""));
    assert!(!path_is_safe("/abs/path.lua"));
    assert!(!path_is_safe("../up.lua"));
    assert!(!path_is_safe("a/../b.lua"));
    assert!(!path_is_safe("a/.."));
}
