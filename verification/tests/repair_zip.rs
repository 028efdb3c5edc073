use std::cell::RefCell;
use std::io::{Cursor, Read, Write};

use zipease_extract::repair::models::{RepairError, RepairedEntry};
use zipease_extract::repair::zip_repairer::ZipRepairer;
use zipease_extract::repair::zip_scanner::ZipScanner;
use zipease_extract::repair::{ArchiveFormat, RepairEngine};

fn push16(v: &mut Vec<u8>, x: u16) {
    v.extend_from_slice(&x.to_le_bytes());
}

fn push32(v: &mut Vec<u8>, x: u32) {
    v.extend_from_slice(&x.to_le_bytes());
}

/// A ZIP archive holding the given entries uncompressed, with Central Directory and EOCD.
fn stored_zip(entries: &[(&str, &[u8])]) -> Vec<u8> {
    let mut v = Vec::new();
    let mut cd = Vec::new();
    for (name, data) in entries {
        let offset = v.len() as u32;
        let crc = crc32fast::hash(data);
        v.extend_from_slice(&[0x50, 0x4B, 0x03, 0x04]);
        push16(&mut v, 20);
        push16(&mut v, 0);
        push16(&mut v, 0);
        push16(&mut v, 0);
        push16(&mut v, 0);
        push32(&mut v, crc);
        push32(&mut v, data.len() as u32);
        push32(&mut v, data.len() as u32);
        push16(&mut v, name.len() as u16);
        push16(&mut v, 0);
        v.extend_from_slice(name.as_bytes());
        v.extend_from_slice(data);

        cd.extend_from_slice(&[0x50, 0x4B, 0x01, 0x02]);
        push16(&mut cd, 20);
        push16(&mut cd, 20);
        push16(&mut cd, 0);
        push16(&mut cd, 0);
        push16(&mut cd, 0);
        push16(&mut cd, 0);
        push32(&mut cd, crc);
        push32(&mut cd, data.len() as u32);
        push32(&mut cd, data.len() as u32);
        push16(&mut cd, name.len() as u16);
        push16(&mut cd, 0);
        push16(&mut cd, 0);
        push16(&mut cd, 0);
        push16(&mut cd, 0);
        push32(&mut cd, 0);
        push32(&mut cd, offset);
        cd.extend_from_slice(name.as_bytes());
    }
    let cd_offset = v.len() as u32;
    let cd_size = cd.len() as u32;
    v.extend_from_slice(&cd);
    v.extend_from_slice(&[0x50, 0x4B, 0x05, 0x06]);
    push16(&mut v, 0);
    push16(&mut v, 0);
    push16(&mut v, entries.len() as u16);
    push16(&mut v, entries.len() as u16);
    push32(&mut v, cd_size);
    push32(&mut v, cd_offset);
    push16(&mut v, 0);
    v
}

/// The same archive with its Central Directory and EOCD cut off.
fn headers_only(entries: &[(&str, &[u8])]) -> Vec<u8> {
    let full = stored_zip(entries);
    let mut len = 0;
    for (name, data) in entries {
        len += 30 + name.len() + data.len();
    }
    full[..len].to_vec()
}

fn read_back(bytes: Vec<u8>, name: &str) -> Vec<u8> {
    let mut archive = zip::ZipArchive::new(Cursor::new(bytes)).unwrap();
    let mut file = archive.by_name(name).unwrap();
    let mut out = Vec::new();
    file.read_to_end(&mut out).unwrap();
    out
}

#[test]
fn intact_archive_diagnoses_clean() {
    let data = stored_zip(&[("a.txt", b"hello"), ("b.txt", b"world!")]);
    let report = ZipScanner::diagnose(&data);
    assert_eq!(report.format, "zip");
    assert_eq!(report.total_entries, 2);
    assert_eq!(report.valid_entries, 2);
    assert_eq!(report.corrupted_entries, 0);
    assert_eq!(report.unrecoverable_entries, 0);
    assert!(report.damages.is_empty());
    assert!(report.repairable);
}

#[test]
fn missing_directory_is_reported() {
    let data = headers_only(&[("a.txt", b"hello")]);
    let report = ZipScanner::diagnose(&data);
    assert_eq!(report.total_entries, 1);
    assert_eq!(report.valid_entries, 1);
    assert_eq!(report.damages.len(), 1);
    assert_eq!(report.damages[0].damage_type, "missing_eocd");
    assert_eq!(
        report.damages[0].description,
        "End of Central Directory record is missing or corrupted"
    );
}

#[test]
fn zero_crc_counts_as_corrupted() {
    let mut data = stored_zip(&[("a.txt", b"hello")]);
    data[14..18].copy_from_slice(&[0, 0, 0, 0]);
    let report = ZipScanner::diagnose(&data);
    assert_eq!(report.corrupted_entries, 1);
    assert_eq!(report.valid_entries, 0);
    assert_eq!(report.damages[0].damage_type, "invalid_crc");
    assert_eq!(report.damages[0].entry_name, Some("a.txt".to_string()));
    assert_eq!(
        report.damages[0].description,
        "Local File Header at offset 0 has CRC-32 == 0 (potentially corrupted)"
    );
}

#[test]
fn unreferenced_header_is_misaligned() {
    let mut data = stored_zip(&[("a.txt", b"hello"), ("b.txt", b"xy")]);
    // Point the second directory record somewhere else.
    let cd_offset = u32::from_le_bytes(data[data.len() - 6..data.len() - 2].try_into().unwrap()) as usize;
    let second = cd_offset + 46 + 5;
    data[second + 42..second + 46].copy_from_slice(&7u32.to_le_bytes());
    let report = ZipScanner::diagnose(&data);
    assert!(report.damages.iter().any(|d| d.damage_type == "misaligned_lfh"));
    assert_eq!(report.valid_entries + report.corrupted_entries + report.unrecoverable_entries, report.total_entries);
}

#[test]
fn truncated_header_is_unrecoverable() {
    let mut data = headers_only(&[("a.txt", b"hello")]);
    data.extend_from_slice(&[0x50, 0x4B, 0x03, 0x04, 0, 0]);
    let report = ZipScanner::diagnose(&data);
    assert_eq!(report.total_entries, 2);
    assert_eq!(report.unrecoverable_entries, 1);
}

#[test]
fn too_short_input_is_not_repairable() {
    let report = ZipScanner::diagnose(&[0x50, 0x4B]);
    assert_eq!(report.total_entries, 0);
    assert!(!report.repairable);
}

#[test]
fn signatures_are_found_in_order() {
    let data = stored_zip(&[("a.txt", b"hello"), ("b.txt", b"xy")]);
    assert_eq!(ZipScanner::scan_lfh_signatures(&data), vec![0, 40]);
}

#[test]
fn header_fields_are_parsed() {
    let data = stored_zip(&[("a.txt", b"hello")]);
    let lfh = ZipScanner::parse_lfh(&data, 0).unwrap();
    assert_eq!(lfh.filename, b"a.txt".to_vec());
    assert_eq!(lfh.compressed_size, 5);
    assert_eq!(lfh.data_offset, 35);
    assert_eq!(lfh.crc32, crc32fast::hash(b"hello"));
    assert!(ZipScanner::parse_lfh(&data, 3).is_none());
}

#[test]
fn directory_is_found_and_parsed() {
    let data = stored_zip(&[("a.txt", b"hello"), ("b.txt", b"xy")]);
    let (pos, eocd) = ZipScanner::find_eocd(&data).unwrap();
    assert_eq!(pos as usize, data.len() - 22);
    assert_eq!(eocd.cd_entries_total, 2);
    let cds = ZipScanner::parse_central_directory(&data, eocd.cd_offset as u64, eocd.cd_entries_total);
    assert_eq!(cds.len(), 2);
    assert_eq!(cds[1].local_header_offset, 40);
    assert_eq!(cds[1].filename, b"b.txt".to_vec());
}

#[test]
fn data_size_is_inferred_up_to_next_signature() {
    let data = headers_only(&[("a.txt", b"hello"), ("b.txt", b"xy")]);
    assert_eq!(ZipRepairer::infer_data_size(&data, 35), 5);
    assert_eq!(ZipRepairer::infer_data_size(&data, 75), 2);
    assert_eq!(ZipRepairer::infer_data_size(&data, 1000), 0);
}

#[test]
fn directory_is_rebuilt_from_headers() {
    let data = headers_only(&[("a.txt", b"hello"), ("b.txt", b"xy")]);
    let cds = ZipRepairer::reconstruct_cd(&data, &[0, 40, 3]);
    assert_eq!(cds.len(), 2);
    assert_eq!(cds[0].filename, b"a.txt".to_vec());
    assert_eq!(cds[1].local_header_offset, 40);
    assert_eq!(cds[1].compressed_size, 2);
    assert_eq!(cds[0].version_made_by, 20);
}

#[test]
fn crc_is_recalculated_for_stored_and_deflated_data() {
    assert_eq!(ZipRepairer::recalculate_crc32(b"hello", 0), Some(crc32fast::hash(b"hello")));
    let mut enc = flate2::write::DeflateEncoder::new(Vec::new(), flate2::Compression::default());
    enc.write_all(b"hello hello hello").unwrap();
    let deflated = enc.finish().unwrap();
    assert_eq!(
        ZipRepairer::recalculate_crc32(&deflated, 8),
        Some(crc32fast::hash(b"hello hello hello"))
    );
    assert_eq!(ZipRepairer::recalculate_crc32(b"hello", 12), None);
    assert_eq!(ZipRepairer::recalculate_crc32(&[0xFF, 0xFF, 0xFF], 8), None);
}

#[test]
fn written_archive_reads_back() {
    let data = headers_only(&[("a.txt", b"hello")]);
    let entries = vec![RepairedEntry {
        filename: b"a.txt".to_vec(),
        compression_method: 0,
        crc32: crc32fast::hash(b"hello"),
        compressed_size: 5,
        uncompressed_size: 5,
        data_offset: 35,
        last_mod_time: 0,
        last_mod_date: 0,
    }, RepairedEntry {
        filename: b"gone.txt".to_vec(),
        compression_method: 0,
        crc32: 0,
        compressed_size: 5,
        uncompressed_size: 5,
        data_offset: 1000,
        last_mod_time: 0,
        last_mod_date: 0,
    }];
    let calls = RefCell::new(Vec::new());
    let mut out = Vec::new();
    let result = ZipRepairer::write_repaired(&data, &entries, &mut out, |cur: u32, total: u32, name: &str| {
        calls.borrow_mut().push((cur, total, name.to_string()));
    })
    .unwrap();
    assert_eq!(result.recovered_entries, vec!["a.txt".to_string()]);
    assert_eq!(result.failed_entries, vec!["gone.txt".to_string()]);
    assert!(!result.success);
    assert_eq!(
        calls.into_inner(),
        vec![(1, 2, "a.txt".to_string()), (2, 2, "gone.txt".to_string())]
    );
    assert_eq!(read_back(out, "a.txt"), b"hello".to_vec());
}

#[test]
fn format_is_detected_from_magic_bytes() {
    assert_eq!(RepairEngine::detect_format(b"PK\x03\x04"), Some(ArchiveFormat::Zip));
    assert_eq!(RepairEngine::detect_format(b"Rar!\x1a\x07\x00"), Some(ArchiveFormat::Rar));
    let mut prefixed = vec![0u8; 500];
    prefixed.extend_from_slice(b"Rar!");
    assert_eq!(RepairEngine::detect_format(&prefixed), Some(ArchiveFormat::Rar));
    let mut far = vec![0u8; 1021];
    far.extend_from_slice(b"Rar!");
    assert_eq!(RepairEngine::detect_format(&far), None);
    assert_eq!(RepairEngine::detect_format(b"P"), None);
    assert_eq!(RepairEngine::detect_format(b"hello world"), None);
}

#[test]
fn diagnosis_refuses_other_files() {
    assert!(matches!(RepairEngine::diagnose(b"hello world"), Err(RepairError::NotAnArchive)));
    let data = stored_zip(&[("a.txt", b"hello")]);
    let report = RepairEngine::diagnose(&data).unwrap();
    assert_eq!(report.format, "zip");
}

#[test]
fn repair_rebuilds_a_lost_directory() {
    let data = headers_only(&[("a.txt", b"hello"), ("b.txt", b"world!")]);
    let mut out = Vec::new();
    let result = RepairEngine::repair(&data, "/out/fixed.zip", &mut out, |_: u32, _: u32, _: &str| {}).unwrap();
    assert!(result.success);
    assert_eq!(result.recovered_entries, vec!["a.txt".to_string(), "b.txt".to_string()]);
    assert_eq!(result.repaired_path, Some("/out/fixed.zip".to_string()));
    assert_eq!(read_back(out.clone(), "b.txt"), b"world!".to_vec());
    let again = ZipScanner::diagnose(&out);
    assert_eq!(again.valid_entries, 2);
    assert!(again.damages.is_empty());
}

#[test]
fn repair_without_headers_is_refused() {
    let mut out = Vec::new();
    let r = RepairEngine::repair(b"PK\x05\x06 nothing here", "x.zip", &mut out, |_: u32, _: u32, _: &str| {});
    match r {
        Err(RepairError::NotRepairable(m)) => assert_eq!(m, "No Local File Headers found in ZIP archive"),
        _ => panic!("expected NotRepairable"),
    }
    assert!(out.is_empty());
    let r = RepairEngine::repair(b"nothing", "x.zip", &mut out, |_: u32, _: u32, _: &str| {});
    assert!(matches!(r, Err(RepairError::NotAnArchive)));
}

#[test]
fn ffi_codes_follow_the_error() {
    assert_eq!(RepairError::IoError("x".to_string()).to_ffi_code(), -1);
    assert_eq!(RepairError::NotAnArchive.to_ffi_code(), 0x2006);
    assert_eq!(RepairError::NotRepairable("x".to_string()).to_ffi_code(), 0x2006);
}

#[test]
fn end_record_locates_the_rebuilt_directory() {
    let data = headers_only(&[("a.txt", b"hello"), ("b.txt", b"xy")]);
    let mut out = Vec::new();
    RepairEngine::repair(&data, "o.zip", &mut out, |_: u32, _: u32, _: &str| {}).unwrap();
    let n = out.len();
    let cd_size = u32::from_le_bytes(out[n - 10..n - 6].try_into().unwrap()) as usize;
    let cd_offset = u32::from_le_bytes(out[n - 6..n - 2].try_into().unwrap()) as usize;
    assert_eq!(cd_offset + cd_size, n - 22);
    assert_eq!(&out[cd_offset..cd_offset + 4], &[0x50, 0x4B, 0x01, 0x02]);
    // The second directory record points at the second header.
    let second = cd_offset + 46 + 5;
    let lfh = u32::from_le_bytes(out[second + 42..second + 46].try_into().unwrap()) as usize;
    assert_eq!(lfh, 40);
    assert_eq!(&out[lfh..lfh + 4], &[0x50, 0x4B, 0x03, 0x04]);
}
