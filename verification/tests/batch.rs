use std::cell::RefCell;
use std::sync::atomic::AtomicBool;

use zipease_extract::batch::{
    batch_extract, batch_extract_with, filter_supported_archives, is_supported_archive, map_lock_error_to_status,
    ArchiveStatus, BatchProgress, BatchResult,
};
use zipease_extract::errors::LockError;

#[test]
fn supported_extensions_are_recognised() {
    assert!(is_supported_archive("a/b/photos.zip"));
    assert!(is_supported_archive("ARCHIVE.7Z"));
    assert!(is_supported_archive("backup.tar.gz"));
    assert!(is_supported_archive("disk.iso"));
    assert!(is_supported_archive("part.001"));
    assert!(is_supported_archive("split.z01"));
    assert!(is_supported_archive("split.Z12"));
    assert!(!is_supported_archive("split.z"));
    assert!(!is_supported_archive("split.zx1"));
    assert!(!is_supported_archive("a.z+1"));
    assert!(!is_supported_archive("a.z-1"));
    assert!(!is_supported_archive("split.z99999999999"));
    assert!(!is_supported_archive("notes.txt"));
    assert!(!is_supported_archive("README"));
}

#[test]
fn filtering_keeps_order() {
    let paths: Vec<String> = ["a.zip", "b.txt", "c.rar", "d"].iter().map(|s| s.to_string()).collect();
    assert_eq!(filter_supported_archives(&paths), vec!["a.zip".to_string(), "c.rar".to_string()]);
}

#[test]
fn statuses_are_counted() {
    let result = BatchResult {
        results: vec![
            ("a".to_string(), ArchiveStatus::Success),
            ("b".to_string(), ArchiveStatus::Failed("x".to_string())),
            ("c".to_string(), ArchiveStatus::PasswordRequired),
            ("d".to_string(), ArchiveStatus::ZipBomb),
            ("e".to_string(), ArchiveStatus::Skipped),
            ("f".to_string(), ArchiveStatus::Success),
            ("g".to_string(), ArchiveStatus::Pending),
        ],
        cancelled: false,
        total_files_extracted: 2,
    };
    assert_eq!(result.success_count(), 2);
    assert_eq!(result.failure_count(), 4);
}

#[test]
fn counts_partition_the_results() {
    let result = BatchResult {
        results: vec![
            ("a".to_string(), ArchiveStatus::Success),
            ("b".to_string(), ArchiveStatus::Extracting),
            ("c".to_string(), ArchiveStatus::Skipped),
            ("d".to_string(), ArchiveStatus::Pending),
        ],
        cancelled: true,
        total_files_extracted: 1,
    };
    let unfinished = 2;
    assert_eq!(result.success_count() + result.failure_count() + unfinished, 4);
}

#[test]
fn errors_map_to_statuses() {
    assert_eq!(map_lock_error_to_status(LockError::PasswordRequired("p".to_string())), ArchiveStatus::PasswordRequired);
    assert_eq!(map_lock_error_to_status(LockError::ZipBomb("z".to_string())), ArchiveStatus::ZipBomb);
    assert_eq!(
        map_lock_error_to_status(LockError::ExtractionFailed("broken".to_string())),
        ArchiveStatus::Failed("broken".to_string())
    );
}

#[test]
fn batch_records_each_outcome() {
    let archives: Vec<String> = ["/in/a.zip", "/in/b.rar", "/in/c.7z"].iter().map(|s| s.to_string()).collect();
    let flag = AtomicBool::new(false);
    let progress = RefCell::new(Vec::new());
    let result = batch_extract(
        &archives,
        "/out",
        &flag,
        |archive: &str, out: &str, _i: u32, _n: u32| {
            assert_eq!(out, "/out");
            if archive.ends_with("b.rar") {
                Err(LockError::PasswordRequired("needs password".to_string()))
            } else {
                Ok(())
            }
        },
        |p: BatchProgress| progress.borrow_mut().push((p.archive_index, p.archive_count, p.file_percent, p.current_file_name)),
    );
    assert!(!result.cancelled);
    assert_eq!(result.total_files_extracted, 2);
    assert_eq!(result.results[1], ("/in/b.rar".to_string(), ArchiveStatus::PasswordRequired));
    assert_eq!(result.results[2].1, ArchiveStatus::Success);
    let p = progress.into_inner();
    assert_eq!(p[0], (0, 3, 0, "a.zip".to_string()));
    assert_eq!(p[1], (0, 3, 100, "a.zip".to_string()));
    assert_eq!(p[2], (1, 3, 0, "b.rar".to_string()));
    assert_eq!(p.len(), 5);
}

#[test]
fn cancelled_batch_skips_the_rest() {
    let archives: Vec<String> = ["a.zip", "b.zip"].iter().map(|s| s.to_string()).collect();
    let flag = AtomicBool::new(true);
    let result = batch_extract(&archives, "/out", &flag, |_: &str, _: &str, _: u32, _: u32| Ok(()), |_: BatchProgress| {});
    assert!(result.cancelled);
    assert_eq!(result.results.len(), 2);
    assert!(result.results.iter().all(|(_, s)| *s == ArchiveStatus::Skipped));
    assert_eq!(result.total_files_extracted, 0);
    assert_eq!(result.failure_count(), 2);
}

#[test]
fn batch_cancelled_midway_skips_the_remaining_archives() {
    let archives: Vec<String> = ["a.zip", "b.zip", "c.zip"].iter().map(|s| s.to_string()).collect();
    let asked = RefCell::new(0);
    let result = batch_extract_with(
        &archives,
        "/out",
        || {
            *asked.borrow_mut() += 1;
            *asked.borrow() > 1
        },
        |_: &str, _: &str, _: u32, _: u32| Ok(()),
        |_: BatchProgress| {},
    );
    assert!(result.cancelled);
    assert_eq!(result.results[0].1, ArchiveStatus::Success);
    assert_eq!(result.results[1].1, ArchiveStatus::Skipped);
    assert_eq!(result.results[2].1, ArchiveStatus::Skipped);
    assert_eq!(result.total_files_extracted, 1);
}

#[test]
fn batch_never_cancelled_skips_nothing() {
    let archives: Vec<String> = ["a.txt", "b.txt"].iter().map(|s| s.to_string()).collect();
    let result = batch_extract_with(
        &archives,
        "/out",
        || false,
        |_: &str, _: &str, _: u32, _: u32| Err(LockError::ExtractionFailed("not an archive".to_string())),
        |_: BatchProgress| {},
    );
    assert!(!result.cancelled);
    assert!(result.results.iter().all(|(_, s)| matches!(s, ArchiveStatus::Failed(_))));
    assert_eq!(result.total_files_extracted, 0);
}
