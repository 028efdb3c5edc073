//! Marker detection, header walking and CRC checking for (possibly damaged) RAR archives.

use vstd::prelude::*;

use crate::bytes::{
    copy_range, first_where, le16, le32, lemma_first_where_found, lemma_first_where_none,
    lemma_first_where_range, read_le16, read_le32,
};
use crate::checksum::{crc32, crc32_of};
use crate::text::{hex_upper, hex_upper2, lossy_utf8, push_hex, push_hex2, push_str, utf8_decode, utf8_decode_lossy};
use super::models::{
    DamageEntry, DamageEntryModel, DamageReport, DamageReportModel, RarHeaderInfo, RarHeaderModel,
    RarVersion, opt_str_view,
};
use super::zip_scanner::{empty_damage_report, empty_report};
use vstd::utf8::{decode_utf8, valid_utf8};

verus! {

// ---- Markers -------------------------------------------------------------------------

/// The marker block that opens an archive of version `v`.
pub open spec fn marker_of(v: RarVersion) -> Seq<u8> {
    match v {
        RarVersion::Rar4 => seq![0x52u8, 0x61u8, 0x72u8, 0x21u8, 0x1Au8, 0x07u8, 0x00u8],
        RarVersion::Rar5 => seq![0x52u8, 0x61u8, 0x72u8, 0x21u8, 0x1Au8, 0x07u8, 0x01u8, 0x00u8],
    }
}

/// How far into the file a marker is looked for: the first 1024 bytes.
pub open spec fn scan_limit(d: Seq<u8>) -> int {
    if d.len() < 1024 {
        d.len() as int
    } else {
        1024
    }
}

/// The marker of version `v` lies at `i`, entirely before `lim`.
pub open spec fn rar_marker_at(d: Seq<u8>, i: int, lim: int, v: RarVersion) -> bool {
    &&& 0 <= i
    &&& i + marker_of(v).len() <= lim
    &&& lim <= d.len()
    &&& d.subrange(i, i + marker_of(v).len()) == marker_of(v)
}

/// Scanning from `i`, the version of the first marker found in the scan window
/// (at each position the RAR5 marker is tried first).
pub open spec fn marker_scan(d: Seq<u8>, i: int) -> Option<RarVersion>
    decreases scan_limit(d) - i,
{
    if i < 0 || i >= scan_limit(d) {
        None
    } else if rar_marker_at(d, i, scan_limit(d), RarVersion::Rar5) {
        Some(RarVersion::Rar5)
    } else if rar_marker_at(d, i, scan_limit(d), RarVersion::Rar4) {
        Some(RarVersion::Rar4)
    } else {
        marker_scan(d, i + 1)
    }
}

/// The RAR version whose marker appears first in the scan window.
pub open spec fn detected_version(d: Seq<u8>) -> Option<RarVersion> {
    marker_scan(d, 0)
}

/// The predicate "the marker of `v` lies here" over positions of `d`.
pub open spec fn marker_here(d: Seq<u8>, v: RarVersion) -> spec_fn(int) -> bool {
    |i: int| rar_marker_at(d, i, scan_limit(d), v)
}

/// The offset of the first marker of version `v` in the scan window.
pub open spec fn marker_offset(d: Seq<u8>, v: RarVersion) -> Option<int> {
    first_where(0, scan_limit(d), marker_here(d, v))
}

// ---- Variable-length integers ----------------------------------------------------

/// The number of bytes of the variable-length integer at `off`, looking from its
/// `k`-th byte on: the first byte without the continuation bit ends it; at most
/// ten bytes are read, and running out of data fails.
pub open spec fn vint_len(d: Seq<u8>, off: int, k: nat) -> Option<nat>
    decreases 10 - k,
{
    if k >= 10 || off + k >= d.len() || off + k < 0 {
        None
    } else if d[off + k] & 0x80 == 0 {
        Some(k + 1)
    } else if k == 9 {
        None
    } else {
        vint_len(d, off, k + 1)
    }
}

/// The value of the first `n` bytes of the variable-length integer at `off`:
/// seven bits per byte, least significant group first.
pub open spec fn vint_acc(d: Seq<u8>, off: int, n: nat) -> u64
    decreases n,
{
    if n == 0 {
        0
    } else {
        vint_acc(d, off, (n - 1) as nat) | (((d[off + n - 1] & 0x7F) as u64) << ((7 * (n - 1))
            as u32))
    }
}

/// The variable-length integer at `off` and its length in bytes.
pub open spec fn vint(d: Seq<u8>, off: int) -> Option<(u64, int)> {
    match vint_len(d, off, 0) {
        Some(n) => Some((vint_acc(d, off, n), n as int)),
        None => None,
    }
}

/// A variable-length integer lies within the data.
pub proof fn lemma_vint_bounds(d: Seq<u8>, off: int, k: nat)
    ensures
        vint_len(d, off, k) matches Some(n) ==> k < n <= 10 && off + n <= d.len() && 0 <= off + k,
    decreases 10 - k,
{
    if !(k >= 10 || off + k >= d.len() || off + k < 0) && !(d[off + k] & 0x80 == 0) && k != 9 {
        lemma_vint_bounds(d, off, k + 1);
    }
}

// ---- Headers ----------------------------------------------------------------------------

/// The file name stored in the RAR4 file header at `ho` of size `hs`.
pub open spec fn rar4_filename(d: Seq<u8>, ho: int, hs: int) -> Option<Seq<char>> {
    let nlo = ho + 26;
    if nlo + 2 > d.len() {
        None
    } else {
        let nl = le16(d, nlo);
        let no = ho + 32;
        let ne = no + nl;
        if nl == 0 || ne > ho + hs || ne > d.len() {
            None
        } else {
            Some(lossy_utf8(d.subrange(no, ne)))
        }
    }
}

/// The size of the data area that follows the RAR4 header at `o`.
pub open spec fn rar4_data_size(d: Seq<u8>, o: int) -> u64 {
    if le16(d, o + 3) >= 0x8000 {
        le32(d, o + 7) as u64
    } else {
        0
    }
}

/// The RAR4 header at `o` and the offset just past its data area, when a
/// complete header of at least 7 bytes lies there.
pub open spec fn rar4_step(d: Seq<u8>, o: usize) -> Option<(RarHeaderModel, usize)> {
    if o + 7 > d.len() {
        None
    } else {
        let hs = le16(d, o + 5);
        if hs < 7 || o + hs > d.len() || (le16(d, o + 3) >= 0x8000 && o + 11 > d.len()) {
            None
        } else {
            let ds = rar4_data_size(d, o as int);
            let h = RarHeaderModel {
                offset: o as u64,
                header_type: d[o + 2],
                header_size: hs as u16,
                header_crc: le16(d, o as int) as u16,
                filename: if d[o + 2] == 0x74 {
                    rar4_filename(d, o as int, hs)
                } else {
                    None
                },
                data_size: ds,
                crc_valid: true,
            };
            Some((h, ((o + hs) as usize).wrapping_add(ds as usize)))
        }
    }
}

/// The RAR4 headers walked from `o` on: each header is followed by its data
/// area; the walk stops at a truncated or undersized header, or when the next
/// offset does not advance.
pub open spec fn rar4_headers(d: Seq<u8>, o: usize) -> Seq<RarHeaderModel>
    decreases usize::MAX - o,
{
    match rar4_step(d, o) {
        None => seq![],
        Some((h, next)) => if next <= o {
            seq![h]
        } else {
            seq![h] + rar4_headers(d, next)
        },
    }
}

/// The file name stored in the RAR5 file header whose fields start at `pos`
/// and whose header data ends at `he`; only well-formed UTF-8 names count.
pub open spec fn rar5_filename(d: Seq<u8>, pos: int, he: int) -> Option<Seq<char>> {
    match vint(d, pos) {
        None => None,
        Some((ff, b1)) => match vint(d, pos + b1) {
            None => None,
            Some((_, b2)) => match vint(d, pos + b1 + b2) {
                None => None,
                Some((_, b3)) => {
                    let c3 = pos + b1 + b2 + b3;
                    if ff & 2 != 0 && c3 + 4 > he {
                        None
                    } else {
                        let c4 = if ff & 2 != 0 {
                            c3 + 4
                        } else {
                            c3
                        };
                        if ff & 4 != 0 && c4 + 4 > he {
                            None
                        } else {
                            let c5 = if ff & 4 != 0 {
                                c4 + 4
                            } else {
                                c4
                            };
                            match vint(d, c5) {
                                None => None,
                                Some((_, b5)) => match vint(d, c5 + b5) {
                                    None => None,
                                    Some((_, b6)) => match vint(d, c5 + b5 + b6) {
                                        None => None,
                                        Some((nl, b7)) => {
                                            let c8 = c5 + b5 + b6 + b7;
                                            if nl == 0 || c8 + nl > he {
                                                None
                                            } else if valid_utf8(d.subrange(c8, c8 + nl)) {
                                                Some(decode_utf8(d.subrange(c8, c8 + nl)))
                                            } else {
                                                None
                                            }
                                        },
                                    },
                                },
                            }
                        }
                    }
                },
            },
        },
    }
}

/// The size of the data area announced by a RAR5 header with flags `hf`
/// whose optional fields start at `pos`.
pub open spec fn rar5_data_size(d: Seq<u8>, pos: usize, hf: u64) -> u64 {
    if hf & 2 != 0 {
        let ep: usize = if hf & 1 != 0 {
            match vint(d, pos as int) {
                Some((es, eb)) => pos.wrapping_add((eb as usize).wrapping_add(es as usize)),
                None => pos,
            }
        } else {
            pos
        };
        match vint(d, ep as int) {
            Some((ds, _)) => ds,
            None => 0,
        }
    } else {
        0
    }
}

/// The RAR5 header at `o` and the offset just past its data area, when a
/// plausible header lies there.
pub open spec fn rar5_step(d: Seq<u8>, o: usize) -> Option<(RarHeaderModel, usize)> {
    if o + 6 > d.len() {
        None
    } else {
        match vint(d, o + 4) {
            None => None,
            Some((hsv, b1)) => {
                let pos1 = o + 4 + b1;
                let hde = pos1 + hsv;
                if hsv == 0 || hsv > 262140 || hde > d.len() {
                    None
                } else {
                    match vint(d, pos1) {
                        None => None,
                        Some((ht, b2)) => match vint(d, pos1 + b2) {
                            None => None,
                            Some((hf, b3)) => {
                                let pos3 = pos1 + b2 + b3;
                                let ds = rar5_data_size(d, pos3 as usize, hf);
                                let h = RarHeaderModel {
                                    offset: o as u64,
                                    header_type: ht as u8,
                                    header_size: (hde - o) as u16,
                                    header_crc: le16(d, o as int) as u16,
                                    filename: if ht == 2 {
                                        rar5_filename(d, pos3, hde)
                                    } else {
                                        None
                                    },
                                    data_size: ds,
                                    crc_valid: true,
                                };
                                Some((h, (hde as usize).wrapping_add(ds as usize)))
                            },
                        },
                    }
                }
            },
        }
    }
}

/// The RAR5 headers walked from `o` on: each header is followed by its data
/// area; the walk stops at a truncated or implausible header, or when the next
/// offset does not advance.
pub open spec fn rar5_headers(d: Seq<u8>, o: usize) -> Seq<RarHeaderModel>
    decreases usize::MAX - o,
{
    match rar5_step(d, o) {
        None => seq![],
        Some((h, next)) => if next <= o {
            seq![h]
        } else {
            seq![h] + rar5_headers(d, next)
        },
    }
}

/// The headers found after the marker of version `v`.
pub open spec fn rar_headers(d: Seq<u8>, v: RarVersion) -> Seq<RarHeaderModel> {
    match marker_offset(d, v) {
        None => seq![],
        Some(m) => match v {
            RarVersion::Rar4 => rar4_headers(d, (m + 7) as usize),
            RarVersion::Rar5 => rar5_headers(d, (m + 8) as usize),
        },
    }
}

/// Whether the header CRC stored for `h` matches its bytes. The version is taken
/// from the archive's marker: RAR5 compares the full CRC-32 of the bytes after the
/// 4-byte CRC field with that field; RAR4 (and a missing marker) compares the low
/// 16 bits of the CRC-32 of the bytes after the 2-byte CRC field with `h.header_crc`.
pub open spec fn header_crc_ok(d: Seq<u8>, h: RarHeaderModel) -> bool {
    let o = h.offset as int;
    let hs = h.header_size as int;
    if o + hs > d.len() {
        false
    } else {
        match detected_version(d) {
            Some(RarVersion::Rar5) => if hs <= 4 {
                false
            } else {
                crc32_of(d.subrange(o + 4, o + hs)) == le32(d, o)
            },
            _ => if hs <= 2 {
                false
            } else {
                (crc32_of(d.subrange(o + 2, o + hs)) & 0xFFFF) as u16 == h.header_crc
            },
        }
    }
}

/// The header type of file headers in version `v`.
pub open spec fn file_header_type(v: RarVersion) -> u8 {
    match v {
        RarVersion::Rar4 => 0x74,
        RarVersion::Rar5 => 2,
    }
}

/// How many of the headers `hs` have type `t`, and how many of those fail their CRC check.
pub open spec fn count_type(d: Seq<u8>, hs: Seq<RarHeaderModel>, t: u8, bad_only: bool) -> nat
    decreases hs.len(),
{
    if hs.len() == 0 {
        0
    } else {
        let h = hs.last();
        count_type(d, hs.drop_last(), t, bad_only) + if h.header_type == t && (!bad_only
            || !header_crc_ok(d, h)) {
            1nat
        } else {
            0nat
        }
    }
}

/// The damage entries for the headers `hs` whose CRC check fails, in order.
pub open spec fn crc_damages(d: Seq<u8>, hs: Seq<RarHeaderModel>) -> Seq<DamageEntryModel>
    decreases hs.len(),
{
    if hs.len() == 0 {
        seq![]
    } else {
        let h = hs.last();
        crc_damages(d, hs.drop_last()) + if header_crc_ok(d, h) {
            seq![]
        } else {
            seq![
                DamageEntryModel {
                    damage_type: "corrupted_header"@,
                    offset: h.offset,
                    entry_name: h.filename,
                    description: "Header CRC mismatch at offset 0x"@ + hex_upper(h.offset as nat)
                        + " (type: 0x"@ + hex_upper2(h.header_type as nat) + ")"@,
                },
            ]
        }
    }
}

/// The damage entry for an archive without a RAR marker.
pub open spec fn missing_marker_damage() -> DamageEntryModel {
    DamageEntryModel {
        damage_type: "missing_marker"@,
        offset: 0,
        entry_name: None,
        description: "RAR marker block not found at file start"@,
    }
}

/// The number of file headers found in the RAR archive with contents `d`.
pub open spec fn rar_file_header_count(d: Seq<u8>) -> nat {
    match detected_version(d) {
        None => 0,
        Some(v) => count_type(d, rar_headers(d, v), file_header_type(v), false),
    }
}

/// The diagnosis of a RAR archive with contents `d`.
pub open spec fn rar_report(d: Seq<u8>) -> DamageReportModel {
    match detected_version(d) {
        None => DamageReportModel {
            format: "rar"@,
            total_entries: 0,
            valid_entries: 0,
            corrupted_entries: 0,
            unrecoverable_entries: 0,
            damages: seq![missing_marker_damage()],
            repairable: false,
        },
        Some(v) => {
            let hs = rar_headers(d, v);
            let total = count_type(d, hs, file_header_type(v), false) as u32;
            let bad = count_type(d, hs, file_header_type(v), true) as u32;
            DamageReportModel {
                format: "rar"@,
                total_entries: total,
                valid_entries: total.wrapping_sub(bad),
                corrupted_entries: bad,
                unrecoverable_entries: 0,
                damages: crc_damages(d, hs),
                repairable: hs.len() > 0,
            }
        },
    }
}

/// Among the headers of each type, no more fail their CRC check than there are.
pub proof fn lemma_bad_le_total(d: Seq<u8>, hs: Seq<RarHeaderModel>, t: u8)
    ensures
        count_type(d, hs, t, true) <= count_type(d, hs, t, false),
    decreases hs.len(),
{
    if hs.len() > 0 {
        lemma_bad_le_total(d, hs.drop_last(), t);
    }
}

// ---- Exec helpers --------------------------------------------------------------------

/// Whether the marker of version `v` lies at `i`, entirely before `lim`.
fn marker_matches(data: &[u8], i: usize, lim: usize, v: RarVersion) -> (r: bool)
    requires
        lim <= data@.len(),
    ensures
        r == rar_marker_at(data@, i as int, lim as int, v),
{
    let n: usize = match v {
        RarVersion::Rar4 => 7,
        RarVersion::Rar5 => 8,
    };
    if i > lim || lim - i < n {
        return false;
    }
    let r = data[i] == 0x52 && data[i + 1] == 0x61 && data[i + 2] == 0x72 && data[i + 3] == 0x21
        && data[i + 4] == 0x1A && data[i + 5] == 0x07 && match v {
        RarVersion::Rar4 => data[i + 6] == 0x00,
        RarVersion::Rar5 => data[i + 6] == 0x01 && data[i + 7] == 0x00,
    };
    proof {
        let s = data@.subrange(i as int, i + marker_of(v).len());
        if r {
            assert(s =~= marker_of(v));
        } else {
            if s == marker_of(v) {
                assert(s[0] == data@[i as int]);
                assert(s[6] == data@[i + 6]);
                if v == RarVersion::Rar5 {
                    assert(s[7] == data@[i + 7]);
                }
            }
        }
    }
    r
}

/// The smaller of two sizes.
fn min_usize(a: usize, b: usize) -> (r: usize)
    ensures
        r == if a < b {
            a
        } else {
            b
        },
{
    if a < b {
        a
    } else {
        b
    }
}


// ---- The scanner ------------------------------------------------------------------------

/// Marker detection, header walking and CRC checking for RAR archives.
pub struct RarScanner;

impl RarScanner {
    /// Check for RAR marker block at file start.
    /// Returns the RAR version (4 or 5) if found.
    /// Also scans first ~1024 bytes for the marker in case there's garbage before it.
    pub fn check_marker(data: &[u8]) -> (r: Option<RarVersion>)
        ensures
            r == detected_version(data@),
    {
        let lim = min_usize(data.len(), 1024);
        let mut i: usize = 0;
        while i < lim
            invariant
                lim == scan_limit(data@),
                i <= lim,
                detected_version(data@) == marker_scan(data@, i as int),
            decreases lim - i,
        {
            if marker_matches(data, i, lim, RarVersion::Rar5) {
                return Some(RarVersion::Rar5);
            }
            if marker_matches(data, i, lim, RarVersion::Rar4) {
                return Some(RarVersion::Rar4);
            }
            i = i + 1;
        }
        None
    }

    /// Scan for RAR headers throughout the file.
    /// Parses headers sequentially starting after the marker block.
    pub fn scan_headers(data: &[u8], version: RarVersion) -> (headers: Vec<RarHeaderInfo>)
        ensures
            headers@.map_values(|h: RarHeaderInfo| h@) == rar_headers(data@, version),
    {
        let found = Self::find_marker_offset(data, version);
        proof {
            lemma_first_where_range(0, scan_limit(data@), marker_here(data@, version));
        }
        match found {
            Some(offset) => match version {
                RarVersion::Rar4 => Self::scan_rar4_headers(data, offset + 7),
                RarVersion::Rar5 => Self::scan_rar5_headers(data, offset + 8),
            },
            None => {
                let v: Vec<RarHeaderInfo> = Vec::new();
                assert(v@.map_values(|h: RarHeaderInfo| h@) =~= seq![]);
                v
            },
        }
    }

    /// Validate header CRC for a RAR header at the given offset.
    ///
    /// For RAR4: CRC32 of header bytes from type field (offset+2) to end of header
    /// (offset + header_size), then compare lower 16 bits to stored header_crc.
    ///
    /// For RAR5: CRC32 of header bytes after the 4-byte CRC field (offset+4) to
    /// end of header (offset + header_size), compare full 32-bit CRC to the value
    /// stored at offset..offset+4 in the file.
    pub fn validate_header_crc(data: &[u8], header: &RarHeaderInfo) -> (ok: bool)
        ensures
            ok == header_crc_ok(data@, header@),
    {
        let header_size = header.header_size as usize;
        if header.offset > data.len() as u64 || header_size > data.len() - header.offset as usize {
            return false;
        }
        let offset = header.offset as usize;
        match Self::check_marker(data) {
            Some(RarVersion::Rar5) => {
                if header_size <= 4 {
                    return false;
                }
                let computed_crc = crc32(copy_range(data, offset + 4, offset + header_size).as_slice());
                let stored_crc = read_le32(data, offset);
                computed_crc == stored_crc
            },
            _ => {
                if header_size <= 2 {
                    return false;
                }
                let computed_crc = crc32(copy_range(data, offset + 2, offset + header_size).as_slice());
                (computed_crc & 0xFFFF) as u16 == header.header_crc
            },
        }
    }

    /// Diagnose a RAR archive — produces a DamageReport.
    ///
    /// 1. Check for RAR marker to detect version
    /// 2. If no marker found, return a report with repairable=false and "missing_marker" damage
    /// 3. Scan headers and validate CRC for each
    /// 4. Count total file headers, corrupted headers, valid headers
    /// 5. Report every header whose CRC does not match
    pub fn diagnose(data: &[u8]) -> (report: DamageReport)
        ensures
            report@ == rar_report(data@),
            rar_file_header_count(data@) <= u32::MAX ==> report.valid_entries
                + report.corrupted_entries == report.total_entries,
    {
        let version = match Self::check_marker(data) {
            Some(v) => v,
            None => {
                let mut damages: Vec<DamageEntry> = Vec::new();
                damages.push(
                    DamageEntry {
                        damage_type: String::from_str("missing_marker"),
                        offset: 0,
                        entry_name: None,
                        description: String::from_str("RAR marker block not found at file start"),
                    },
                );
                let report = DamageReport {
                    format: String::from_str("rar"),
                    total_entries: 0,
                    valid_entries: 0,
                    corrupted_entries: 0,
                    unrecoverable_entries: 0,
                    damages,
                    repairable: false,
                };
                assert(report@.damages =~= seq![missing_marker_damage()]);
                return report;
            },
        };

        let mut headers = Self::scan_headers(data, version);
        let ghost hs = rar_headers(data@, version);
        let fht: u8 = match version {
            RarVersion::Rar4 => 0x74,
            RarVersion::Rar5 => 2,
        };

        let mut total: usize = 0;
        let mut bad: usize = 0;
        let mut damages: Vec<DamageEntry> = Vec::new();
        let mut i: usize = 0;
        while i < headers.len()
            invariant
                i <= headers.len(),
                headers@.map_values(|h: RarHeaderInfo| h@) == hs,
                fht == file_header_type(version),
                total == count_type(data@, hs.take(i as int), fht, false),
                bad == count_type(data@, hs.take(i as int), fht, true),
                bad <= total <= i,
                damages@.map_values(|e: DamageEntry| e@) == crc_damages(data@, hs.take(i as int)),
            decreases headers.len() - i,
        {
            let h = &headers[i];
            assert(h@ == hs[i as int]);
            assert(hs.take(i + 1).drop_last() =~= hs.take(i as int));
            let crc_valid = Self::validate_header_crc(data, h);
            if h.header_type == fht {
                total = total + 1;
                if !crc_valid {
                    bad = bad + 1;
                }
            }
            let ghost before = damages@.map_values(|e: DamageEntry| e@);
            if !crc_valid {
                let mut description = String::new();
                push_str(&mut description, "Header CRC mismatch at offset 0x");
                push_hex(&mut description, h.offset);
                push_str(&mut description, " (type: 0x");
                push_hex2(&mut description, h.header_type);
                push_str(&mut description, ")");
                damages.push(
                    DamageEntry {
                        damage_type: String::from_str("corrupted_header"),
                        offset: h.offset,
                        entry_name: h.filename.clone(),
                        description,
                    },
                );
            }
            assert(damages@.map_values(|e: DamageEntry| e@) =~= crc_damages(
                data@,
                hs.take(i + 1),
            ));
            i = i + 1;
        }
        assert(hs.take(i as int) =~= hs);
        let total_entries = #[verifier::truncate] (total as u32);
        let corrupted_entries = #[verifier::truncate] (bad as u32);
        DamageReport {
            format: String::from_str("rar"),
            total_entries,
            valid_entries: total_entries.wrapping_sub(corrupted_entries),
            corrupted_entries,
            unrecoverable_entries: 0,
            damages,
            repairable: headers.len() > 0,
        }
    }

    // --- Private helpers ---

    /// Find the byte offset of the RAR marker in data.
    fn find_marker_offset(data: &[u8], version: RarVersion) -> (r: Option<usize>)
        ensures
            match r {
                Some(i) => marker_offset(data@, version) == Some(i as int),
                None => marker_offset(data@, version) is None,
            },
    {
        let lim = min_usize(data.len(), 1024);
        let ghost d = data@;
        let mut i: usize = 0;
        while i < lim
            invariant
                lim == scan_limit(d),
                d == data@,
                i <= lim,
                forall|q: int| 0 <= q < i ==> !#[trigger] marker_here(d, version)(q),
            decreases lim - i,
        {
            if marker_matches(data, i, lim, version) {
                proof {
                    lemma_first_where_found(0, i as int, lim as int, marker_here(d, version));
                }
                return Some(i);
            }
            i = i + 1;
        }
        proof {
            lemma_first_where_none(0, lim as int, marker_here(d, version));
        }
        None
    }

    /// Parse RAR4 headers sequentially from the given offset.
    ///
    /// RAR4 header structure:
    /// - 2 bytes: header CRC (CRC of header from type field to end)
    /// - 1 byte: header type
    /// - 2 bytes: flags
    /// - 2 bytes: header size (total including CRC and type fields)
    /// - If flags & 0x8000: 4 bytes additional data size after header
    /// - For file headers (type 0x74): filename is embedded in header data
    fn scan_rar4_headers(data: &[u8], start: usize) -> (headers: Vec<RarHeaderInfo>)
        ensures
            headers@.map_values(|h: RarHeaderInfo| h@) == rar4_headers(data@, start),
    {
        let mut headers: Vec<RarHeaderInfo> = Vec::new();
        let mut offset = start;
        loop
            invariant_except_break
                headers@.map_values(|h: RarHeaderInfo| h@) + rar4_headers(data@, offset)
                    == rar4_headers(data@, start),
            ensures
                headers@.map_values(|h: RarHeaderInfo| h@) == rar4_headers(data@, start),
            decreases usize::MAX - offset,
        {
            let ghost prev = headers@.map_values(|h: RarHeaderInfo| h@);
            match Self::parse_rar4_header(data, offset) {
                None => {
                    assert(prev + seq![] =~= prev);
                    break;
                },
                Some((header, next_offset)) => {
                    headers.push(header);
                    if next_offset <= offset {
                        assert(headers@.map_values(|h: RarHeaderInfo| h@) =~= prev + rar4_headers(
                            data@,
                            offset,
                        ));
                        break;
                    }
                    assert(headers@.map_values(|h: RarHeaderInfo| h@) + rar4_headers(
                        data@,
                        next_offset,
                    ) =~= prev + rar4_headers(data@, offset));
                    offset = next_offset;
                },
            }
        }
        headers
    }

    /// The RAR4 header at `offset` and the offset just past its data area.
    fn parse_rar4_header(data: &[u8], offset: usize) -> (r: Option<(RarHeaderInfo, usize)>)
        ensures
            match r {
                Some((h, next)) => rar4_step(data@, offset) == Some((h@, next)),
                None => rar4_step(data@, offset) is None,
            },
    {
        if offset > data.len() || data.len() - offset < 7 {
            return None;
        }
        let header_crc = read_le16(data, offset);
        let header_type = data[offset + 2];
        let flags = read_le16(data, offset + 3);
        let header_size = read_le16(data, offset + 5);
        if header_size < 7 || header_size as usize > data.len() - offset {
            return None;
        }
        let data_size: u64 = if flags >= 0x8000 {
            if data.len() - offset < 11 {
                return None;
            }
            read_le32(data, offset + 7) as u64
        } else {
            0
        };
        let filename = if header_type == 0x74 {
            Self::extract_rar4_filename(data, offset, header_size)
        } else {
            None
        };
        let header = RarHeaderInfo {
            offset: offset as u64,
            header_type,
            header_size,
            header_crc,
            filename,
            data_size,
            crc_valid: true,
        };
        let next_offset = (offset + header_size as usize).wrapping_add(data_size as usize);
        Some((header, next_offset))
    }

    /// Extract filename from a RAR4 file header: the name length is at +26 and
    /// the name at +32 from the header start; it must lie inside the header.
    fn extract_rar4_filename(data: &[u8], header_offset: usize, header_size: u16) -> (r: Option<
        String,
    >)
        requires
            header_offset + header_size <= data@.len(),
        ensures
            opt_str_view(r) == rar4_filename(data@, header_offset as int, header_size as int),
    {
        if data.len() - header_offset < 28 {
            return None;
        }
        let name_len = read_le16(data, header_offset + 26) as usize;
        if name_len == 0 {
            return None;
        }
        if 32 + name_len > header_size as usize {
            return None;
        }
        let name_offset = header_offset + 32;
        let name_end = name_offset + name_len;
        let name_bytes = copy_range(data, name_offset, name_end);
        Some(utf8_decode_lossy(name_bytes.as_slice()))
    }

    /// Parse RAR5 headers sequentially from the given offset.
    ///
    /// RAR5 header structure:
    /// - 4 bytes: header CRC32
    /// - vint: header size (size of header data after this field)
    /// - vint: header type
    /// - vint: header flags
    /// - (optional extra fields depending on type)
    /// - For file headers (type 2): contains filename
    fn scan_rar5_headers(data: &[u8], start: usize) -> (headers: Vec<RarHeaderInfo>)
        ensures
            headers@.map_values(|h: RarHeaderInfo| h@) == rar5_headers(data@, start),
    {
        let mut headers: Vec<RarHeaderInfo> = Vec::new();
        let mut offset = start;
        loop
            invariant_except_break
                headers@.map_values(|h: RarHeaderInfo| h@) + rar5_headers(data@, offset)
                    == rar5_headers(data@, start),
            ensures
                headers@.map_values(|h: RarHeaderInfo| h@) == rar5_headers(data@, start),
            decreases usize::MAX - offset,
        {
            let ghost prev = headers@.map_values(|h: RarHeaderInfo| h@);
            match Self::parse_rar5_header(data, offset) {
                None => {
                    assert(prev + seq![] =~= prev);
                    break;
                },
                Some((header, next_offset)) => {
                    headers.push(header);
                    if next_offset <= offset {
                        assert(headers@.map_values(|h: RarHeaderInfo| h@) =~= prev + rar5_headers(
                            data@,
                            offset,
                        ));
                        break;
                    }
                    assert(headers@.map_values(|h: RarHeaderInfo| h@) + rar5_headers(
                        data@,
                        next_offset,
                    ) =~= prev + rar5_headers(data@, offset));
                    offset = next_offset;
                },
            }
        }
        headers
    }

    /// The RAR5 header at `offset` and the offset just past its data area.
    fn parse_rar5_header(data: &[u8], offset: usize) -> (r: Option<(RarHeaderInfo, usize)>)
        ensures
            match r {
                Some((h, next)) => rar5_step(data@, offset) == Some((h@, next)),
                None => rar5_step(data@, offset) is None,
            },
    {
        if offset > data.len() || data.len() - offset < 6 {
            return None;
        }
        let header_crc = read_le16(data, offset);
        let mut pos = offset + 4;
        let (header_size_val, bytes_read) = match Self::read_vint(data, pos) {
            Some(v) => v,
            None => return None,
        };
        proof {
            lemma_vint_bounds(data@, pos as int, 0);
        }
        pos = pos + bytes_read;
        if header_size_val == 0 || header_size_val > 262140 || header_size_val > (data.len()
            - pos) as u64 {
            return None;
        }
        let header_data_end = pos + header_size_val as usize;
        let (header_type_val, type_bytes_read) = match Self::read_vint(data, pos) {
            Some(v) => v,
            None => return None,
        };
        proof {
            lemma_vint_bounds(data@, pos as int, 0);
        }
        pos = pos + type_bytes_read;
        let (header_flags, flags_bytes_read) = match Self::read_vint(data, pos) {
            Some(v) => v,
            None => return None,
        };
        proof {
            lemma_vint_bounds(data@, pos as int, 0);
        }
        pos = pos + flags_bytes_read;

        let data_size = Self::rar5_data_size_of(data, pos, header_flags);
        let filename = if header_type_val == 2 {
            Self::extract_rar5_filename(data, pos, header_data_end, header_flags)
        } else {
            None
        };
        let header = RarHeaderInfo {
            offset: offset as u64,
            header_type: #[verifier::truncate] (header_type_val as u8),
            header_size: #[verifier::truncate] ((header_data_end - offset) as u16),
            header_crc,
            filename,
            data_size,
            crc_valid: true,
        };
        let next_offset = header_data_end.wrapping_add(#[verifier::truncate] (data_size as usize));
        Some((header, next_offset))
    }

    /// The size of the data area announced by RAR5 header flags, read from the
    /// optional fields at `pos` (skipping the extra area when flag 0x0001 is set).
    fn rar5_data_size_of(data: &[u8], pos: usize, header_flags: u64) -> (ds: u64)
        ensures
            ds == rar5_data_size(data@, pos, header_flags),
    {
        if header_flags & 0x0002 != 0 {
            let mut extra_pos = pos;
            if header_flags & 0x0001 != 0 {
                if let Some((extra_size, extra_bytes)) = Self::read_vint(data, extra_pos) {
                    extra_pos = extra_pos.wrapping_add(
                        extra_bytes.wrapping_add(#[verifier::truncate] (extra_size as usize)),
                    );
                }
            }
            match Self::read_vint(data, extra_pos) {
                Some((ds, _)) => ds,
                None => 0,
            }
        } else {
            0
        }
    }

    /// Extract filename from a RAR5 file header whose fields start at `pos`:
    /// file flags, unpacked size, attributes, optional mtime and CRC, compression
    /// info, host OS, then the name length and the name, which must be UTF-8.
    fn extract_rar5_filename(data: &[u8], pos: usize, header_end: usize, _header_flags: u64) -> (r:
        Option<String>)
        requires
            header_end <= data@.len(),
        ensures
            opt_str_view(r) == rar5_filename(data@, pos as int, header_end as int),
    {
        let (file_flags, cur) = match Self::skip_vint(data, pos) {
            Some(v) => v,
            None => return None,
        };
        let (_, cur) = match Self::skip_vint(data, cur) {
            Some(v) => v,
            None => return None,
        };
        let (_, mut cur) = match Self::skip_vint(data, cur) {
            Some(v) => v,
            None => return None,
        };
        if file_flags & 0x0002 != 0 {
            if cur > header_end || header_end - cur < 4 {
                return None;
            }
            cur = cur + 4;
        }
        if file_flags & 0x0004 != 0 {
            if cur > header_end || header_end - cur < 4 {
                return None;
            }
            cur = cur + 4;
        }
        let (_, cur) = match Self::skip_vint(data, cur) {
            Some(v) => v,
            None => return None,
        };
        let (_, cur) = match Self::skip_vint(data, cur) {
            Some(v) => v,
            None => return None,
        };
        let (name_len, cur) = match Self::skip_vint(data, cur) {
            Some(v) => v,
            None => return None,
        };
        if name_len == 0 || cur > header_end || name_len > (header_end - cur) as u64 {
            return None;
        }
        let name_bytes = copy_range(data, cur, cur + name_len as usize);
        utf8_decode(name_bytes.as_slice())
    }

    /// The variable-length integer at `offset` and the offset just past it.
    fn skip_vint(data: &[u8], offset: usize) -> (r: Option<(u64, usize)>)
        ensures
            match r {
                Some((v, next)) => vint(data@, offset as int) == Some((v, next - offset))
                    && next <= data@.len(),
                None => vint(data@, offset as int) is None,
            },
    {
        match Self::read_vint(data, offset) {
            Some((v, n)) => {
                let len = data.len();
                proof {
                    lemma_vint_bounds(data@, offset as int, 0);
                }
                assert(offset + n <= len);
                Some((v, offset + n))
            },
            None => None,
        }
    }

    /// Read a RAR5 variable-length integer (vint).
    /// Returns (value, bytes_consumed) or None if data is insufficient.
    ///
    /// Each byte contributes 7 bits of data; the high bit indicates that more
    /// bytes follow. Bytes are in little-endian order (least significant 7 bits first).
    fn read_vint(data: &[u8], offset: usize) -> (r: Option<(u64, usize)>)
        ensures
            match r {
                Some((v, n)) => vint(data@, offset as int) == Some((v, n as int)),
                None => vint(data@, offset as int) is None,
            },
    {
        let mut value: u64 = 0;
        let mut shift: u32 = 0;
        let mut pos = offset;
        let ghost mut k: nat = 0;
        loop
            invariant
                pos == offset + k,
                k <= 9,
                shift == 7 * k,
                value == vint_acc(data@, offset as int, k),
                vint_len(data@, offset as int, 0) == vint_len(data@, offset as int, k),
            decreases 10 - k,
        {
            if pos >= data.len() {
                return None;
            }
            let byte = data[pos];
            value = value | (((byte & 0x7F) as u64) << shift);
            pos = pos + 1;
            if byte & 0x80 == 0 {
                assert(vint_len(data@, offset as int, k) == Some((k + 1) as nat));
                return Some((value, pos - offset));
            }
            shift = shift + 7;
            if shift >= 64 {
                return None;
            }
            proof {
                k = k + 1;
            }
        }
    }
}

} // verus!
