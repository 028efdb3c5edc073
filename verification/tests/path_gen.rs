use std::path::{Path, PathBuf};
use zipease_extract::repair::path_gen::{generate_repair_path, repair_candidate_name};

fn dir() -> PathBuf {
    Path::new("/srv/zipease/archives").to_path_buf()
}

fn text(p: &Path) -> String {
    p.to_string_lossy().into_owned()
}

/// Generates a path next to `original` with the given files already present.
fn generate(original: &Path, existing: &[PathBuf]) -> Option<String> {
    let taken: Vec<String> = existing.iter().map(|p| text(p)).collect();
    generate_repair_path(&text(original), |candidate: &str| taken.iter().any(|t| t == candidate))
}

#[test]
fn test_basic_zip_file() {
    let original = dir().join("archive.zip");
    let result = generate(&original, &[original.clone()]);
    assert_eq!(result, Some(text(&dir().join("archive_repaired.zip"))));
}

#[test]
fn test_no_extension() {
    let original = dir().join("archive");
    let result = generate(&original, &[original.clone()]);
    assert_eq!(result, Some(text(&dir().join("archive_repaired"))));
}

#[test]
fn test_multiple_dots() {
    let original = dir().join("my.archive.zip");
    let result = generate(&original, &[original.clone()]);
    assert_eq!(result, Some(text(&dir().join("my.archive_repaired.zip"))));
}

#[test]
fn test_unicode_filename() {
    let original = dir().join("壓縮檔.zip");
    let result = generate(&original, &[original.clone()]);
    assert_eq!(result, Some(text(&dir().join("壓縮檔_repaired.zip"))));
}

#[test]
fn test_increment_when_repaired_exists() {
    let original = dir().join("archive.zip");
    let existing = vec![original.clone(), dir().join("archive_repaired.zip")];
    let result = generate(&original, &existing);
    assert_eq!(result, Some(text(&dir().join("archive_repaired_2.zip"))));
}

#[test]
fn test_increment_multiple_existing() {
    let original = dir().join("archive.zip");
    let existing = vec![
        original.clone(),
        dir().join("archive_repaired.zip"),
        dir().join("archive_repaired_2.zip"),
        dir().join("archive_repaired_3.zip"),
    ];
    let result = generate(&original, &existing);
    assert_eq!(result, Some(text(&dir().join("archive_repaired_4.zip"))));
}

#[test]
fn test_generated_path_never_equals_original() {
    let original = dir().join("test.zip");
    let result = generate(&original, &[original.clone()]);
    assert_ne!(result, Some(text(&original)));
    assert!(result.is_some());
}

#[test]
fn test_no_extension_increment() {
    let original = dir().join("archive");
    let existing = vec![original.clone(), dir().join("archive_repaired")];
    let result = generate(&original, &existing);
    assert_eq!(result, Some(text(&dir().join("archive_repaired_2"))));
}

#[test]
fn candidate_names_follow_the_counter() {
    let ext = Some("zip".to_string());
    assert_eq!(repair_candidate_name("a", &ext, 1), "a_repaired.zip");
    assert_eq!(repair_candidate_name("a", &ext, 2), "a_repaired_2.zip");
    assert_eq!(repair_candidate_name("a", &None, 10), "a_repaired_10");
}

#[test]
fn relative_path_without_directory() {
    let result = generate_repair_path("data.rar", |_: &str| false);
    assert_eq!(result, Some("data_repaired.rar".to_string()));
}
