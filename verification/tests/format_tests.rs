use doki::format::{backup_name, upload_name, Format};
use doki::state::AppState;
use doki::text::{same_bytes, same_text};

#[test]
fn upload_name_carries_format_and_id() {
    assert_eq!(upload_name(Format::TarGz, "abc"), "temp_tar.gz-abc.tar.gz");
    assert_eq!(upload_name(Format::Zip, "abc"), "temp_zip-abc.zip");
    assert_eq!(upload_name(Format::Rar, "abc"), "temp_rar-abc.rar");
}

#[test]
fn backup_name_is_always_tar_gz() {
    assert_eq!(backup_name("abc"), "backup-abc.tar.gz");
    assert_eq!(backup_name(""), "backup-.tar.gz");
}

#[test]
fn upload_and_backup_names_differ() {
    let id = "7d6f6c1e-0000-4000-8000-000000000000";
    for format in [Format::TarGz, Format::Zip, Format::Rar] {
        assert_ne!(upload_name(format, id), backup_name(id));
    }
}

#[test]
fn media_types_select_formats() {
    assert_eq!(Format::from_media_type("application/gzip"), Some(Format::TarGz));
    assert_eq!(Format::from_media_type("application/zip"), Some(Format::Zip));
    assert_eq!(Format::from_media_type("application/vnd.rar"), Some(Format::Rar));
}

#[test]
fn unknown_media_types_select_nothing() {
    assert_eq!(Format::from_media_type("application/json"), None);
    assert_eq!(Format::from_media_type(""), None);
    assert_eq!(Format::from_media_type("application/gzip "), None);
    assert_eq!(Format::from_media_type("APPLICATION/ZIP"), None);
}

#[test]
fn every_format_is_found_from_its_media_type() {
    for format in [Format::TarGz, Format::Zip, Format::Rar] {
        assert_eq!(Format::from_media_type(format.media_type()), Some(format));
    }
}

#[test]
fn extensions_follow_the_format() {
    assert_eq!(Format::TarGz.extension(), "tar.gz");
    assert_eq!(Format::Zip.extension(), "zip");
    assert_eq!(Format::Rar.extension(), "rar");
}

#[test]
fn texts_and_bytes_compare_by_content() {
    assert!(same_text("abc", "abc"));
    assert!(!same_text("abc", "abd"));
    assert!(!same_text("abc", "ab"));
    assert!(same_text("", ""));
    assert!(same_bytes(b"xyz", b"xyz"));
    assert!(!same_bytes(b"xyz", b"xy"));
    assert!(!same_bytes(b"xyz", b"xya"));
    assert!(same_bytes(b"", b""));
}

#[test]
fn app_state_keeps_both_directories() {
    let state = AppState::new("/srv/docs", "/tmp/docs");
    assert_eq!(state.local_dir, "/srv/docs");
    assert_eq!(state.temp_dir, "/tmp/docs");
    let managed = AppState::managed("a".to_string(), "b".to_string());
    assert_eq!(managed.local_dir, "a");
    assert_eq!(managed.temp_dir, "b");
}

#[test]
fn every_format_but_rar_is_readable() {
    assert!(Format::TarGz.readable());
    assert!(Format::Zip.readable());
    assert!(!Format::Rar.readable());
}
