use zipease_extract::errors::LockError;
use zipease_extract::extract::bomb_detector::{
    check_nesting_depth, first_oversized_entry, is_exempt, known_total_size,
};
use zipease_extract::extract::iso::{dir_records, le32, listed_entry, parse_dir_record, scan_volume_descriptor, DirEntry, VolumeInfo};
use zipease_extract::extract::sevenzadll::{clsid_7z_handler, clsid_zip_handler, PROPVARIANT};
use zipease_extract::extract::smart::{
    detect_backend, detect_split_backend, get_top_level_items, plan_smart_extract, BackendKind,
    SplitHandler,
};
use zipease_extract::extract::{
    decode_zip_filename, is_indexed_zip, preview_name, preview_target, safe_join, ArchiveEntryInfo,
};

fn strings(v: &[&str]) -> Vec<String> {
    v.iter().map(|s| s.to_string()).collect()
}

#[test]
fn backends_follow_the_extension() {
    assert_eq!(detect_backend("a.ZIP").unwrap(), BackendKind::Zip);
    assert_eq!(detect_backend("a.jar").unwrap(), BackendKind::Zip);
    assert_eq!(detect_backend("a.tar.xz").unwrap(), BackendKind::Tar);
    assert_eq!(detect_backend("a.7z").unwrap(), BackendKind::SevenZ);
    assert_eq!(detect_backend("a.rar").unwrap(), BackendKind::Rar);
    assert_eq!(detect_backend("a.cab").unwrap(), BackendKind::Cab);
    assert_eq!(detect_backend("a.iso").unwrap(), BackendKind::Iso);
    assert_eq!(detect_backend("a.z03").unwrap(), BackendKind::SevenZaDllClsid(SplitHandler::Zip));
    match detect_backend("notes.txt") {
        Err(LockError::UnsupportedFormat(e)) => assert_eq!(e, "txt"),
        _ => panic!("expected UnsupportedFormat"),
    }
    match detect_backend("a.z+1") {
        Err(LockError::UnsupportedFormat(e)) => assert_eq!(e, "z+1"),
        _ => panic!("expected UnsupportedFormat"),
    }
    match detect_backend("README") {
        Err(LockError::UnsupportedFormat(e)) => assert_eq!(e, "No extension"),
        _ => panic!("expected UnsupportedFormat"),
    }
}

#[test]
fn split_archives_use_the_inner_extension() {
    assert_eq!(detect_split_backend("x.zip.001"), BackendKind::SevenZaDllClsid(SplitHandler::Zip));
    assert_eq!(detect_split_backend("x.RAR.001"), BackendKind::SevenZaDll);
    assert_eq!(detect_split_backend("x.7z.001"), BackendKind::SevenZaDllClsid(SplitHandler::SevenZ));
    assert_eq!(detect_split_backend("x.001"), BackendKind::SevenZaDllClsid(SplitHandler::SevenZ));
    assert_eq!(detect_backend("x.zip.001").unwrap(), BackendKind::SevenZaDllClsid(SplitHandler::Zip));
}

#[test]
fn handler_identifiers() {
    let z = clsid_zip_handler();
    assert_eq!(z.data1, 0x23170F69);
    assert_eq!(z.data4, [0x10, 0x00, 0x00, 0x01, 0x10, 0x01, 0x00, 0x00]);
    assert_eq!(clsid_7z_handler().data4[5], 0x07);
    assert!(SplitHandler::Zip.clsid() == z);
    let p = PROPVARIANT::zeroed();
    assert_eq!(p.vt, 0);
    assert_eq!(p.data, [0u8; 8]);
}

#[test]
fn top_level_items_are_distinct() {
    let entries = strings(&["dir/a.txt", "dir/b.txt", "other.txt", "dir/sub/c.txt", "/abs", "./x"]);
    assert_eq!(get_top_level_items(&entries), strings(&["dir", "other.txt"]));
}

#[test]
fn single_folder_extracts_in_place() {
    let entries = strings(&["proj/a", "proj/b"]);
    let t = plan_smart_extract("/in/proj.zip", "/out", &entries).unwrap();
    assert_eq!(t.dir, "/out");
    assert!(!t.create);
}

#[test]
fn loose_files_get_a_folder() {
    let entries = strings(&["a.txt", "b.txt"]);
    let t = plan_smart_extract("/in/photos.zip", "/out", &entries).unwrap();
    assert_eq!(t.dir, "/out/photos");
    assert!(t.create);
}

#[test]
fn empty_archive_is_an_error() {
    match plan_smart_extract("/in/e.zip", "/out", &[]) {
        Err(LockError::ExtractionFailed(m)) => assert_eq!(m, "Archive is empty"),
        _ => panic!("expected ExtractionFailed"),
    }
}

/// A directory record with the given name bytes.
fn record(name: &[u8], lba: u32, size: u32, dir: bool) -> Vec<u8> {
    let len = 33 + name.len() + (name.len() + 1) % 2;
    let mut r = vec![0u8; len];
    r[0] = len as u8;
    r[2..6].copy_from_slice(&lba.to_le_bytes());
    r[10..14].copy_from_slice(&size.to_le_bytes());
    r[25] = if dir { 2 } else { 0 };
    r[32] = name.len() as u8;
    r[33..33 + name.len()].copy_from_slice(name);
    r
}

#[test]
fn iso_names_lose_their_version() {
    let r = record(b"README.TXT;1", 20, 300, false);
    let e = parse_dir_record(&r, false).unwrap();
    assert_eq!(e.name, "README.TXT");
    assert_eq!(e.lba, 20);
    assert_eq!(e.size, 300);
    assert!(!e.is_dir);
    let d = parse_dir_record(&record(b"DOCS.", 30, 2048, true), false).unwrap();
    assert_eq!(d.name, "DOCS");
    assert!(d.is_dir);
    assert!(parse_dir_record(&record(&[0], 1, 1, true), false).is_none());
    assert!(parse_dir_record(&record(&[1], 1, 1, true), false).is_none());
    assert!(parse_dir_record(&[20u8; 40], false).is_none());
}

#[test]
fn iso_names_keep_digits_before_the_version() {
    let e = parse_dir_record(&record(b"DATA2;1", 20, 5, false), false).unwrap();
    assert_eq!(e.name, "DATA2");
    let d = parse_dir_record(&record(b"DISC2", 21, 2048, true), false).unwrap();
    assert_eq!(d.name, "DISC2");
    let v = parse_dir_record(&record(b"FILE;", 22, 1, false), false).unwrap();
    assert_eq!(v.name, "FILE");
}

#[test]
fn joliet_names_are_utf16() {
    let name: Vec<u8> = "報告.pdf".encode_utf16().flat_map(|u| u.to_be_bytes()).collect();
    let e = parse_dir_record(&record(&name, 5, 6, false), true).unwrap();
    assert_eq!(e.name, "報告.pdf");
}

#[test]
fn sector_records_run_until_padding() {
    let mut sector = Vec::new();
    sector.extend_from_slice(&record(&[0], 1, 2048, true));
    sector.extend_from_slice(&record(b"A.TXT;1", 40, 10, false));
    sector.extend_from_slice(&record(b"B", 41, 11, false));
    sector.resize(2048, 0);
    let entries = dir_records(&sector, 2048, false).unwrap();
    let names: Vec<&str> = entries.iter().map(|e| e.name.as_str()).collect();
    assert_eq!(names, vec!["A.TXT", "B"]);
    let mut bad = vec![0u8; 10];
    bad[0] = 40;
    assert!(dir_records(&bad, 10, false).is_none());
}

#[test]
fn entries_are_listed_under_their_directory() {
    let e = DirEntry { name: "x.txt".to_string(), lba: 1, size: 42, is_dir: false };
    let (full, info) = listed_entry("docs", &e);
    assert_eq!(full, "docs/x.txt");
    assert_eq!(info.name, "docs/x.txt");
    assert_eq!(info.size, 42);
    let d = DirEntry { name: "sub".to_string(), lba: 1, size: 42, is_dir: true };
    let (full, info) = listed_entry("", &d);
    assert_eq!(full, "sub");
    assert_eq!(info.name, "sub/");
    assert!(info.is_directory);
    assert_eq!(info.size, -1);
}

#[test]
fn volume_descriptors_prefer_joliet() {
    let mut pvd = vec![0u8; 2048];
    pvd[0] = 1;
    pvd[1..6].copy_from_slice(b"CD001");
    pvd[158..162].copy_from_slice(&18u32.to_le_bytes());
    pvd[166..170].copy_from_slice(&2048u32.to_le_bytes());
    let mut svd = pvd.clone();
    svd[0] = 2;
    svd[88..91].copy_from_slice(b"%/E");
    svd[158..162].copy_from_slice(&30u32.to_le_bytes());
    let mut term = vec![0u8; 2048];
    term[0] = 0xFF;
    let mut best = None;
    assert!(scan_volume_descriptor(&pvd, &mut best));
    assert_eq!(best, Some(VolumeInfo { root_lba: 18, root_size: 2048, joliet: false }));
    assert!(scan_volume_descriptor(&svd, &mut best));
    assert_eq!(best, Some(VolumeInfo { root_lba: 30, root_size: 2048, joliet: true }));
    assert!(scan_volume_descriptor(&pvd, &mut best));
    assert_eq!(best.unwrap().root_lba, 30);
    assert!(!scan_volume_descriptor(&term, &mut best));
    assert_eq!(le32(&pvd, 158), 18);
}

fn entry(name: &str, size: i64) -> ArchiveEntryInfo {
    ArchiveEntryInfo { name: name.to_string(), is_directory: false, size }
}

#[test]
fn exempt_formats_ignore_case() {
    let formats = strings(&["iso"]);
    assert!(is_exempt("ISO", &formats));
    assert!(!is_exempt("zip", &formats));
}

#[test]
fn sizes_add_up_and_outliers_are_found() {
    let entries = vec![entry("a", 10), entry("b", -1), entry("c", 32)];
    assert_eq!(known_total_size(&entries), 42);
    assert_eq!(first_oversized_entry(&entries, 20), Some(2));
    assert_eq!(first_oversized_entry(&entries, 40), None);
}

#[test]
fn nested_archives_beyond_the_limit_are_refused() {
    let entries = vec![entry("inner/DEEP.ZIP", 5)];
    assert!(check_nesting_depth(&entries, 2, 3).is_ok());
    match check_nesting_depth(&entries, 3, 3) {
        Err(LockError::ZipBomb(m)) => assert!(m.contains('3')),
        _ => panic!("expected ZipBomb"),
    }
    assert!(check_nesting_depth(&[entry("a.txt", 1)], 9, 3).is_ok());
}

fn refused_with(r: Result<String, LockError>) -> String {
    match r {
        Err(LockError::ExtractionFailed(m)) => m,
        other => panic!("expected a refusal, got {:?}", other),
    }
}

#[test]
fn safe_join_keeps_ordinary_names() {
    assert_eq!(safe_join("out", "a/b.txt", "out").unwrap(), "out/a/b.txt");
}

#[test]
fn safe_join_drops_parent_and_root_components() {
    assert_eq!(safe_join("out", "../../etc/passwd", "out").unwrap(), "out/etc/passwd");
    assert_eq!(safe_join("/tmp/out", "/etc/passwd", "/tmp/out").unwrap(), "/tmp/out/etc/passwd");
}

#[test]
fn safe_join_resolves_dots_in_the_base() {
    assert_eq!(safe_join("./out", "x", "out").unwrap(), "out/x");
}

#[test]
fn safe_join_refuses_a_nul_byte() {
    assert_eq!(
        refused_with(safe_join("out", "a\0b", "out")),
        "Rejected entry with null byte in name: \"a\\0b\""
    );
}

#[test]
fn safe_join_refuses_a_name_without_normal_components() {
    assert_eq!(
        refused_with(safe_join("out", "..", "out")),
        "Rejected empty or root-only entry name: \"..\""
    );
    assert_eq!(
        refused_with(safe_join("out", "", "out")),
        "Rejected empty or root-only entry name: \"\""
    );
}

#[test]
fn safe_join_refuses_a_result_outside_the_base() {
    assert_eq!(
        refused_with(safe_join("a/../b", "c", "a/../b")),
        "Path traversal detected: entry \"c\" resolves outside output directory"
    );
}

#[test]
fn zip_names_decode_by_flag() {
    assert_eq!(decode_zip_filename("報告.txt".as_bytes(), false), "報告.txt");
    assert_eq!(decode_zip_filename(&[0x61, 0xE9, 0x62], false), "a\u{e9}b");
    assert_eq!(decode_zip_filename(&[0x61, 0xE9, 0x62], true), "a\u{fffd}b");
}

#[test]
fn preview_picks_a_file_entry() {
    let entries = vec![
        ArchiveEntryInfo { name: "dir/".to_string(), is_directory: true, size: 0 },
        ArchiveEntryInfo { name: "dir/a.txt".to_string(), is_directory: false, size: 3 },
    ];
    assert_eq!(preview_target(&entries, 1).unwrap(), "dir/a.txt");
    assert_eq!(refused_with(preview_target(&entries, 0)), "Cannot preview a directory");
    assert_eq!(
        refused_with(preview_target(&entries, 7)),
        "Entry index 7 out of range (archive has 2 entries)"
    );
    assert_eq!(preview_name("dir/a.txt"), "a.txt");
}

#[test]
fn indexed_zip_extensions() {
    assert!(is_indexed_zip("x.ZIP"));
    assert!(is_indexed_zip("x.apk"));
    assert!(is_indexed_zip("x.jar"));
    assert!(is_indexed_zip("x.ipa"));
    assert!(!is_indexed_zip("x.war"));
    assert!(!is_indexed_zip("x"));
}
