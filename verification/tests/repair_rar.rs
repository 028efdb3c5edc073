use zipease_extract::repair::models::{RarHeaderInfo, RarVersion, RepairError, ScanResult};
use zipease_extract::repair::rar_repairer::RarRepairer;
use zipease_extract::repair::rar_scanner::RarScanner;
use zipease_extract::repair::RepairEngine;

const RAR4_MARKER: &[u8] = b"Rar!\x1a\x07\x00";
const RAR5_MARKER: &[u8] = b"Rar!\x1a\x07\x01\x00";

/// A RAR4 header: CRC (low 16 bits of the CRC-32 of the rest), type, flags, size, rest.
fn rar4_header(header_type: u8, flags: u16, rest: &[u8]) -> Vec<u8> {
    let size = (7 + rest.len()) as u16;
    let mut body = vec![header_type];
    body.extend_from_slice(&flags.to_le_bytes());
    body.extend_from_slice(&size.to_le_bytes());
    body.extend_from_slice(rest);
    let crc = (crc32fast::hash(&body) & 0xFFFF) as u16;
    let mut h = crc.to_le_bytes().to_vec();
    h.extend_from_slice(&body);
    h
}

/// A RAR4 file header for `name` followed by `data`.
fn rar4_file(name: &str, data: &[u8]) -> Vec<u8> {
    let mut rest = Vec::new();
    rest.extend_from_slice(&(data.len() as u32).to_le_bytes()); // packed size, at +7
    rest.extend_from_slice(&[0u8; 15]); // +11..+26
    rest.extend_from_slice(&(name.len() as u16).to_le_bytes()); // +26
    rest.extend_from_slice(&[0u8; 4]); // +28..+32
    rest.extend_from_slice(name.as_bytes()); // +32
    let mut h = rar4_header(0x74, 0x8000, &rest);
    h.extend_from_slice(data);
    h
}

fn rar4_archive(files: &[(&str, &[u8])]) -> Vec<u8> {
    let mut v = RAR4_MARKER.to_vec();
    v.extend_from_slice(&rar4_header(0x73, 0, &[0u8; 6]));
    for (name, data) in files {
        v.extend_from_slice(&rar4_file(name, data));
    }
    v
}

/// A RAR5 header with the given body (type, flags, fields), its size and CRC-32 in front.
fn rar5_header(body: &[u8]) -> Vec<u8> {
    let mut crc_part = vec![body.len() as u8];
    crc_part.extend_from_slice(body);
    let mut h = crc32fast::hash(&crc_part).to_le_bytes().to_vec();
    h.extend_from_slice(&crc_part);
    h
}

fn rar5_archive(name: &str) -> Vec<u8> {
    let mut v = RAR5_MARKER.to_vec();
    v.extend_from_slice(&rar5_header(&[1, 0, 0]));
    let mut body = vec![2, 0]; // file header, no header flags
    body.extend_from_slice(&[0, 5, 0x20, 0, 2]); // file flags, size, attributes, method, host
    body.push(name.len() as u8);
    body.extend_from_slice(name.as_bytes());
    v.extend_from_slice(&rar5_header(&body));
    v
}

#[test]
fn markers_are_recognised() {
    assert_eq!(RarScanner::check_marker(&rar4_archive(&[])), Some(RarVersion::Rar4));
    assert_eq!(RarScanner::check_marker(&rar5_archive("a")), Some(RarVersion::Rar5));
    let mut prefixed = vec![0xAAu8; 100];
    prefixed.extend_from_slice(RAR4_MARKER);
    assert_eq!(RarScanner::check_marker(&prefixed), Some(RarVersion::Rar4));
    assert_eq!(RarScanner::check_marker(b"Rar!\x1a\x07"), None);
}

#[test]
fn rar4_headers_are_walked() {
    let data = rar4_archive(&[("a.txt", b"hello"), ("b.txt", b"xy")]);
    let headers = RarScanner::scan_headers(&data, RarVersion::Rar4);
    assert_eq!(headers.len(), 3);
    assert_eq!(headers[0].header_type, 0x73);
    assert_eq!(headers[0].offset, 7);
    assert_eq!(headers[1].header_type, 0x74);
    assert_eq!(headers[1].offset, 20);
    assert_eq!(headers[1].filename, Some("a.txt".to_string()));
    assert_eq!(headers[1].data_size, 5);
    assert_eq!(headers[2].filename, Some("b.txt".to_string()));
    assert_eq!(headers[2].offset, 20 + 37 + 5);
}

#[test]
fn rar5_headers_are_walked() {
    let data = rar5_archive("doc.pdf");
    let headers = RarScanner::scan_headers(&data, RarVersion::Rar5);
    assert_eq!(headers.len(), 2);
    assert_eq!(headers[0].header_type, 1);
    assert_eq!(headers[1].header_type, 2);
    assert_eq!(headers[1].filename, Some("doc.pdf".to_string()));
    assert!(RarScanner::validate_header_crc(&data, &headers[1]));
}

#[test]
fn intact_rar4_diagnoses_clean() {
    let data = rar4_archive(&[("a.txt", b"hello")]);
    let report = RarScanner::diagnose(&data);
    assert_eq!(report.format, "rar");
    assert_eq!(report.total_entries, 1);
    assert_eq!(report.valid_entries, 1);
    assert_eq!(report.corrupted_entries, 0);
    assert!(report.damages.is_empty());
    assert!(report.repairable);
}

#[test]
fn intact_rar5_diagnoses_clean() {
    let report = RarScanner::diagnose(&rar5_archive("x.bin"));
    assert_eq!(report.total_entries, 1);
    assert_eq!(report.valid_entries, 1);
}

#[test]
fn bad_header_crc_is_reported() {
    let mut data = rar4_archive(&[("a.txt", b"hello")]);
    data[20] ^= 0xFF;
    let report = RarScanner::diagnose(&data);
    assert_eq!(report.total_entries, 1);
    assert_eq!(report.corrupted_entries, 1);
    assert_eq!(report.valid_entries, 0);
    assert_eq!(report.damages.len(), 1);
    assert_eq!(report.damages[0].damage_type, "corrupted_header");
    assert_eq!(report.damages[0].offset, 20);
    assert_eq!(report.damages[0].entry_name, Some("a.txt".to_string()));
    assert_eq!(report.damages[0].description, "Header CRC mismatch at offset 0x14 (type: 0x74)");
}

#[test]
fn missing_marker_is_reported() {
    let report = RarScanner::diagnose(b"not a rar at all");
    assert_eq!(report.total_entries, 0);
    assert!(!report.repairable);
    assert_eq!(report.damages[0].damage_type, "missing_marker");
    assert_eq!(report.damages[0].description, "RAR marker block not found at file start");
}

#[test]
fn marker_bytes_are_written() {
    let mut out = vec![9u8];
    RarRepairer::prepend_marker(&mut out, RarVersion::Rar5);
    assert_eq!(out, [&[9u8][..], RAR5_MARKER].concat());
    let mut out = Vec::new();
    RarRepairer::prepend_marker(&mut out, RarVersion::Rar4);
    assert_eq!(out, RAR4_MARKER.to_vec());
}

#[test]
fn reconstructed_archive_headers_carry_their_crc() {
    let h4 = RarRepairer::reconstruct_archive_header(RarVersion::Rar4);
    assert_eq!(h4.len(), 13);
    assert_eq!(h4[2..], [0x73, 0, 0, 13, 0, 0, 0, 0, 0, 0, 0]);
    let crc = (crc32fast::hash(&h4[2..]) & 0xFFFF) as u16;
    assert_eq!(h4[..2], crc.to_le_bytes());
    let h5 = RarRepairer::reconstruct_archive_header(RarVersion::Rar5);
    assert_eq!(h5.len(), 7);
    assert_eq!(h5[4..], [2, 1, 0]);
    assert_eq!(h5[..4], crc32fast::hash(&[2, 1, 0]).to_le_bytes());
}

#[test]
fn reconstructed_rar5_header_rescans() {
    let mut d = vec![0x52, 0x61, 0x72, 0x21, 0x1A, 0x07, 0x01, 0x00];
    d.extend_from_slice(&RarRepairer::reconstruct_archive_header(RarVersion::Rar5));
    let hs = RarScanner::scan_headers(&d, RarVersion::Rar5);
    assert_eq!(hs.len(), 1);
    assert_eq!(hs[0].offset, 8);
    assert_eq!(hs[0].header_type, 1);
    assert_eq!(hs[0].header_size, 7);
    assert_eq!(hs[0].data_size, 0);
    assert!(RarScanner::validate_header_crc(&d, &hs[0]));
}

#[test]
fn header_crc_is_fixed_in_place() {
    let good = rar4_archive(&[("a.txt", b"hello")]);
    let mut data = good.clone();
    data[20] = 0;
    data[21] = 0;
    let header = RarHeaderInfo {
        offset: 20,
        header_type: 0x74,
        header_size: 37,
        header_crc: 0,
        filename: None,
        data_size: 5,
        crc_valid: false,
    };
    RarRepairer::fix_header_crc(&mut data, &header);
    assert_eq!(data, good);
    let mut short = vec![0u8; 10];
    RarRepairer::fix_header_crc(&mut short, &header);
    assert_eq!(short, vec![0u8; 10]);
}

#[test]
fn repaired_rar_passes_diagnosis() {
    let mut data = rar4_archive(&[("a.txt", b"hello"), ("b.txt", b"xy")]);
    data[20] ^= 0x55;
    let mut out = Vec::new();
    let result = RepairEngine::repair(&data, "fixed.rar", &mut out, |_: u32, _: u32, _: &str| {}).unwrap();
    assert!(result.success);
    assert_eq!(result.recovered_entries, vec!["a.txt".to_string(), "b.txt".to_string()]);
    let report = RarScanner::diagnose(&out);
    assert_eq!(report.corrupted_entries, 0);
    assert_eq!(report.valid_entries, 2);
    let mut expected = data.clone();
    expected[20] ^= 0x55;
    assert_eq!(out, expected);
}

#[test]
fn missing_archive_header_is_rebuilt() {
    let data = rar4_archive(&[("a.txt", b"hello")]);
    let headers = RarScanner::scan_headers(&data, RarVersion::Rar4);
    let mut out = Vec::new();
    let result = RarRepairer::write_repaired(&data, &headers[1..], &mut out, |_: u32, _: u32, _: &str| {}).unwrap();
    assert!(result.success);
    let mut expected = RAR4_MARKER.to_vec();
    expected.extend_from_slice(&RarRepairer::reconstruct_archive_header(RarVersion::Rar4));
    expected.extend_from_slice(&data[20..]);
    assert_eq!(out, expected);
}

#[test]
fn truncated_data_area_fails_its_entry() {
    let mut data = rar4_archive(&[("a.txt", b"hello")]);
    data.truncate(data.len() - 2);
    let headers = RarScanner::scan_headers(&data, RarVersion::Rar4);
    let mut out = Vec::new();
    let result = RarRepairer::write_repaired(&data, &headers, &mut out, |_: u32, _: u32, _: &str| {}).unwrap();
    assert_eq!(result.failed_entries, vec!["a.txt".to_string()]);
    assert!(result.recovered_entries.is_empty());
    assert!(!result.success);
}

#[test]
fn header_past_the_end_is_named_by_offset() {
    let data = rar4_archive(&[]);
    let header = RarHeaderInfo {
        offset: 0x1F4,
        header_type: 0x74,
        header_size: 40,
        header_crc: 0,
        filename: None,
        data_size: 0,
        crc_valid: false,
    };
    let mut out = Vec::new();
    let result = RarRepairer::write_repaired(&data, &[header], &mut out, |_: u32, _: u32, _: &str| {}).unwrap();
    assert_eq!(result.failed_entries, vec!["entry@0x1F4".to_string()]);
}

#[test]
fn empty_header_list_is_refused() {
    let mut out = Vec::new();
    let r = RarRepairer::write_repaired(b"", &[], &mut out, |_: u32, _: u32, _: &str| {});
    match r {
        Err(RepairError::NotRepairable(m)) => assert_eq!(m, "No headers found in RAR archive"),
        _ => panic!("expected NotRepairable"),
    }
    assert!(out.is_empty());
}

#[test]
fn rar_without_full_marker_is_not_repairable() {
    let mut out = Vec::new();
    let r = RepairEngine::repair(b"Rar!\x00\x00\x00 junk", "x.rar", &mut out, |_: u32, _: u32, _: &str| {});
    match r {
        Err(RepairError::NotRepairable(m)) => assert_eq!(m, "RAR marker not found in archive data"),
        _ => panic!("expected NotRepairable"),
    }
}

#[test]
fn partial_repair_is_reported_as_such() {
    let mut data = rar4_archive(&[("a.txt", b"hello"), ("b.txt", b"xyz")]);
    data.truncate(data.len() - 1);
    let mut out = Vec::new();
    let r = RepairEngine::repair(&data, "p.rar", &mut out, |_: u32, _: u32, _: &str| {});
    match r {
        Err(RepairError::PartialRepair(s)) => {
            assert_eq!(s.recovered_entries, vec!["a.txt".to_string()]);
            assert_eq!(s.failed_entries, vec!["b.txt".to_string()]);
            assert_eq!(s.repaired_path, Some("p.rar".to_string()));
        },
        _ => panic!("expected PartialRepair"),
    }
    let empty = ScanResult { success: false, recovered_entries: vec![], failed_entries: vec![], repaired_path: None };
    assert_eq!(RepairError::PartialRepair(empty).to_ffi_code(), 0x2007);
}

#[test]
fn automatic_repair_picks_a_free_path() {
    let data = rar4_archive(&[("a.txt", b"hello")]);
    let mut out = Vec::new();
    let r = RepairEngine::repair_auto(&data, "/a/b.rar", |p: &str| p == "/a/b_repaired.rar", &mut out, |_: u32, _: u32, _: &str| {})
        .unwrap();
    assert_eq!(r.repaired_path, Some("/a/b_repaired_2.rar".to_string()));
}

#[test]
fn fixing_twice_changes_nothing_more() {
    let mut data = rar5_archive("twice.txt");
    data[17] ^= 0x0F;
    let headers = RarScanner::scan_headers(&data, RarVersion::Rar5);
    let mut once = data.clone();
    RarRepairer::fix_header_crc(&mut once, &headers[1]);
    let mut twice = once.clone();
    RarRepairer::fix_header_crc(&mut twice, &headers[1]);
    assert_eq!(once, twice);
    assert!(RarScanner::validate_header_crc(&once, &headers[1]));
    assert!(!RarScanner::validate_header_crc(&data, &headers[1]));
}
