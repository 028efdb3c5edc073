//! Signature scanning and header parsing for (possibly damaged) ZIP archives.

use vstd::prelude::*;

use crate::bytes::{copy_range, has_sig, le16, le32, read_le16, read_le32, sig_at};
use crate::text::{decimal, push_decimal, push_str, utf8_decode};
use super::models::{
    CdEntry, DamageEntry, DamageEntryModel, DamageReport, DamageReportModel, EocdRecord,
    LocalFileHeader, opt_str_view,
};
use vstd::utf8::{decode_utf8, valid_utf8};

verus! {

// ---- Specification of the ZIP structures -------------------------------

/// A Local File Header signature `PK\x03\x04` starts at `i`.
pub open spec fn is_lfh_sig(d: Seq<u8>, i: int) -> bool {
    sig_at(d, i, 0x50, 0x4B, 0x03, 0x04)
}

/// A Central Directory signature `PK\x01\x02` starts at `i`.
pub open spec fn is_cd_sig(d: Seq<u8>, i: int) -> bool {
    sig_at(d, i, 0x50, 0x4B, 0x01, 0x02)
}

/// An End of Central Directory signature `PK\x05\x06` starts at `i`.
pub open spec fn is_eocd_sig(d: Seq<u8>, i: int) -> bool {
    sig_at(d, i, 0x50, 0x4B, 0x05, 0x06)
}

/// The offsets below `n` at which a Local File Header signature starts, ascending.
pub open spec fn lfh_positions(d: Seq<u8>, n: int) -> Seq<int>
    decreases n,
{
    if n <= 0 {
        seq![]
    } else if is_lfh_sig(d, n - 1) {
        lfh_positions(d, n - 1).push(n - 1)
    } else {
        lfh_positions(d, n - 1)
    }
}

/// Data shorter than a signature holds no Local File Header signature.
proof fn lemma_short_data_has_no_lfh(d: Seq<u8>, n: int)
    requires
        d.len() < 4,
    ensures
        lfh_positions(d, n).len() == 0,
    decreases n,
{
    if n > 0 {
        lemma_short_data_has_no_lfh(d, n - 1);
    }
}

/// All offsets of Local File Header signatures in `d`, ascending.
pub open spec fn lfh_offsets(d: Seq<u8>) -> Seq<int> {
    lfh_positions(d, d.len() as int)
}

/// A complete Local File Header (fixed part, name and extra field) lies at `o`.
pub open spec fn lfh_fits(d: Seq<u8>, o: int) -> bool {
    &&& 0 <= o
    &&& o + 30 <= d.len()
    &&& is_lfh_sig(d, o)
    &&& o + 30 + le16(d, o + 26) + le16(d, o + 28) <= d.len()
}

/// Offset just past the name and extra field of the Local File Header at `o`.
pub open spec fn lfh_data_start(d: Seq<u8>, o: int) -> int {
    o + 30 + le16(d, o + 26) + le16(d, o + 28)
}

/// `h` holds the fields of the Local File Header at `o`.
pub open spec fn lfh_parsed(h: LocalFileHeader, d: Seq<u8>, o: int) -> bool {
    let name_end = o + 30 + le16(d, o + 26);
    &&& h.offset == o
    &&& h.version_needed == le16(d, o + 4)
    &&& h.flags == le16(d, o + 6)
    &&& h.compression_method == le16(d, o + 8)
    &&& h.last_mod_time == le16(d, o + 10)
    &&& h.last_mod_date == le16(d, o + 12)
    &&& h.crc32 == le32(d, o + 14)
    &&& h.compressed_size == le32(d, o + 18)
    &&& h.uncompressed_size == le32(d, o + 22)
    &&& h.filename@ == d.subrange(o + 30, name_end)
    &&& h.extra_field@ == d.subrange(name_end, lfh_data_start(d, o))
    &&& h.data_offset == lfh_data_start(d, o)
}

/// Lowest offset at which an End of Central Directory record may start
/// (the record is at most 22 + 65535 bytes from the end).
pub open spec fn eocd_search_start(len: int) -> int {
    if len > 22 + 65535 {
        len - 22 - 65535
    } else {
        0
    }
}

/// An End of Central Directory record whose comment runs exactly to the end starts at `p`.
pub open spec fn eocd_at(d: Seq<u8>, p: int) -> bool {
    &&& eocd_search_start(d.len() as int) <= p
    &&& p + 22 <= d.len()
    &&& is_eocd_sig(d, p)
    &&& p + 22 + le16(d, p + 20) == d.len()
}

/// Scanning down from `p`, the first position holding an End of Central Directory record.
pub open spec fn eocd_scan(d: Seq<u8>, p: int) -> Option<int>
    decreases p + 1 - eocd_search_start(d.len() as int),
{
    if p < eocd_search_start(d.len() as int) {
        None
    } else if eocd_at(d, p) {
        Some(p)
    } else {
        eocd_scan(d, p - 1)
    }
}

/// The End of Central Directory record found by scanning backwards from the end.
pub open spec fn last_eocd(d: Seq<u8>) -> Option<int> {
    if d.len() < 22 {
        None
    } else {
        eocd_scan(d, d.len() - 22)
    }
}

/// `e` holds the fields of the End of Central Directory record at `p`.
pub open spec fn eocd_parsed(e: EocdRecord, d: Seq<u8>, p: int) -> bool {
    &&& e.disk_number == le16(d, p + 4)
    &&& e.cd_start_disk == le16(d, p + 6)
    &&& e.cd_entries_on_disk == le16(d, p + 8)
    &&& e.cd_entries_total == le16(d, p + 10)
    &&& e.cd_size == le32(d, p + 12)
    &&& e.cd_offset == le32(d, p + 16)
    &&& e.comment@ == d.subrange(p + 22, d.len() as int)
}

/// The first Central Directory signature at a position in `lo..hi`.
pub open spec fn next_cd_sig(d: Seq<u8>, lo: int, hi: int) -> Option<int>
    decreases hi - lo,
{
    if lo >= hi {
        None
    } else if is_cd_sig(d, lo) {
        Some(lo)
    } else {
        next_cd_sig(d, lo + 1, hi)
    }
}

/// Where the Central Directory parser, standing at `pos`, finds its next entry:
/// at `pos` itself when a signature is there, else at the next signature that
/// leaves room for a fixed-size entry; `None` when it stops.
pub open spec fn cd_entry_start(d: Seq<u8>, pos: int) -> Option<int> {
    if pos + 46 > d.len() {
        None
    } else if is_cd_sig(d, pos) {
        Some(pos)
    } else {
        next_cd_sig(d, pos + 1, d.len() - 45)
    }
}

/// Offset just past the name, extra field and comment of the entry at `p`.
pub open spec fn cd_var_end(d: Seq<u8>, p: int) -> int {
    p + 46 + le16(d, p + 28) + le16(d, p + 30) + le16(d, p + 32)
}

/// Start offsets of the Central Directory entries parsed from `pos` on, at most `count` of them.
pub open spec fn cd_positions(d: Seq<u8>, pos: int, count: nat) -> Seq<int>
    decreases count,
{
    if count == 0 {
        seq![]
    } else {
        match cd_entry_start(d, pos) {
            None => seq![],
            Some(p) => if cd_var_end(d, p) > d.len() {
                seq![]
            } else {
                seq![p] + cd_positions(d, cd_var_end(d, p), (count - 1) as nat)
            },
        }
    }
}

/// `e` holds the fields of the Central Directory entry at `p`.
pub open spec fn cd_parsed(e: CdEntry, d: Seq<u8>, p: int) -> bool {
    let name_end = p + 46 + le16(d, p + 28);
    let extra_end = name_end + le16(d, p + 30);
    &&& e.version_made_by == le16(d, p + 4)
    &&& e.version_needed == le16(d, p + 6)
    &&& e.flags == le16(d, p + 8)
    &&& e.compression_method == le16(d, p + 10)
    &&& e.last_mod_time == le16(d, p + 12)
    &&& e.last_mod_date == le16(d, p + 14)
    &&& e.crc32 == le32(d, p + 16)
    &&& e.compressed_size == le32(d, p + 20)
    &&& e.uncompressed_size == le32(d, p + 24)
    &&& e.filename@ == d.subrange(p + 46, name_end)
    &&& e.extra_field@ == d.subrange(name_end, extra_end)
    &&& e.comment@ == d.subrange(extra_end, cd_var_end(d, p))
    &&& e.disk_number_start == le16(d, p + 34)
    &&& e.internal_attrs == le16(d, p + 36)
    &&& e.external_attrs == le32(d, p + 38)
    &&& e.local_header_offset == le32(d, p + 42)
}


// ---- Specification of the diagnosis ---------------------------------------------

/// The name under which a damaged entry is reported: its file name when that is
/// non-empty, well-formed UTF-8.
pub open spec fn reported_name(name: Seq<u8>) -> Option<Seq<char>> {
    if valid_utf8(name) && decode_utf8(name).len() > 0 {
        Some(decode_utf8(name))
    } else {
        None
    }
}

/// Positions of the Central Directory entries that the End of Central Directory record announces.
pub open spec fn zip_cd_positions(d: Seq<u8>) -> Seq<int> {
    match last_eocd(d) {
        Some(p) => cd_positions(d, le32(d, p + 16), le16(d, p + 10) as nat),
        None => seq![],
    }
}

/// Some Central Directory entry points at the Local File Header at `off`.
pub open spec fn lfh_referenced(d: Seq<u8>, cds: Seq<int>, off: int) -> bool {
    exists|j: int| 0 <= j < cds.len() && le32(d, #[trigger] cds[j] + 42) == off
}

/// Class of the Local File Header signature at `off`:
/// 0 intact, 1 corrupted but repairable, 2 unrecoverable.
pub open spec fn lfh_class(d: Seq<u8>, off: int, has_eocd: bool, cds: Seq<int>) -> int {
    if !lfh_fits(d, off) {
        2
    } else if has_eocd && !lfh_referenced(d, cds, off) {
        1
    } else if le32(d, off + 14) == 0 {
        1
    } else {
        0
    }
}

/// The damage reported for the Local File Header signature at `off`, if any.
pub open spec fn lfh_damage(d: Seq<u8>, off: int, has_eocd: bool, cds: Seq<int>) -> Seq<
    DamageEntryModel,
> {
    let name = reported_name(d.subrange(off + 30, off + 30 + le16(d, off + 26)));
    if !lfh_fits(d, off) {
        seq![]
    } else if has_eocd && !lfh_referenced(d, cds, off) {
        seq![
            DamageEntryModel {
                damage_type: "misaligned_lfh"@,
                offset: off as u64,
                entry_name: name,
                description: "Local File Header at offset "@ + decimal(off as nat)
                    + " is not referenced by any Central Directory entry"@,
            },
        ]
    } else if le32(d, off + 14) == 0 {
        seq![
            DamageEntryModel {
                damage_type: "invalid_crc"@,
                offset: off as u64,
                entry_name: name,
                description: "Local File Header at offset "@ + decimal(off as nat)
                    + " has CRC-32 == 0 (potentially corrupted)"@,
            },
        ]
    } else {
        seq![]
    }
}

/// The damages reported for the Local File Header signatures at `offs`, in order.
pub open spec fn lfh_damages(d: Seq<u8>, offs: Seq<int>, has_eocd: bool, cds: Seq<int>) -> Seq<
    DamageEntryModel,
>
    decreases offs.len(),
{
    if offs.len() == 0 {
        seq![]
    } else {
        lfh_damages(d, offs.drop_last(), has_eocd, cds) + lfh_damage(
            d,
            offs.last(),
            has_eocd,
            cds,
        )
    }
}

/// How many of the signatures at `offs` fall in class `c`.
pub open spec fn class_count(
    d: Seq<u8>,
    offs: Seq<int>,
    has_eocd: bool,
    cds: Seq<int>,
    c: int,
) -> nat
    decreases offs.len(),
{
    if offs.len() == 0 {
        0
    } else {
        class_count(d, offs.drop_last(), has_eocd, cds, c) + if lfh_class(
            d,
            offs.last(),
            has_eocd,
            cds,
        ) == c {
            1nat
        } else {
            0nat
        }
    }
}

/// The damage entry for a missing End of Central Directory record.
pub open spec fn missing_eocd_damage() -> DamageEntryModel {
    DamageEntryModel {
        damage_type: "missing_eocd"@,
        offset: 0,
        entry_name: None,
        description: "End of Central Directory record is missing or corrupted"@,
    }
}

/// The damage entry for a Central Directory whose entry count does not add up.
pub open spec fn corrupted_cd_damage(cd_offset: int, cd_count: nat, lfh_total: u32) -> DamageEntryModel {
    DamageEntryModel {
        damage_type: "corrupted_cd"@,
        offset: cd_offset as u64,
        entry_name: None,
        description: "Central Directory entry count mismatch: CD has "@ + decimal(cd_count)
            + " entries, but "@ + decimal(lfh_total as nat) + " LFH signatures found"@,
    }
}

/// The report for an archive with no usable content.
pub open spec fn empty_report(format: Seq<char>) -> DamageReportModel {
    DamageReportModel {
        format,
        total_entries: 0,
        valid_entries: 0,
        corrupted_entries: 0,
        unrecoverable_entries: 0,
        damages: seq![],
        repairable: false,
    }
}

/// The diagnosis of a ZIP archive with contents `d`.
pub open spec fn zip_report(d: Seq<u8>) -> DamageReportModel {
    let offs = lfh_offsets(d);
    if d.len() < 4 || offs.len() == 0 {
        empty_report("zip"@)
    } else {
        let eocd = last_eocd(d);
        let cds = zip_cd_positions(d);
        let total = offs.len() as u32;
        let head = match eocd {
            None => seq![missing_eocd_damage()],
            Some(p) => if cds.len() != le16(d, p + 10) || (cds.len() as u32) != total {
                seq![corrupted_cd_damage(le32(d, p + 16), cds.len(), total)]
            } else {
                seq![]
            },
        };
        let valid = class_count(d, offs, eocd is Some, cds, 0) as u32;
        let corrupted = class_count(d, offs, eocd is Some, cds, 1) as u32;
        let unrecoverable = class_count(d, offs, eocd is Some, cds, 2) as u32;
        DamageReportModel {
            format: "zip"@,
            total_entries: total,
            valid_entries: valid,
            corrupted_entries: corrupted,
            unrecoverable_entries: unrecoverable,
            damages: head + lfh_damages(d, offs, eocd is Some, cds),
            repairable: valid > 0 || corrupted > 0,
        }
    }
}

/// An archive with Local File Headers but no End of Central Directory record is
/// reported with a `missing_eocd` damage first.
pub proof fn lemma_missing_end_record_reported(d: Seq<u8>)
    requires
        0 < lfh_offsets(d).len(),
        last_eocd(d) is None,
    ensures
        zip_report(d).damages.len() > 0,
        zip_report(d).damages[0].damage_type == "missing_eocd"@,
{
    if d.len() < 4 {
        lemma_short_data_has_no_lfh(d, d.len() as int);
    }
}

/// When an End of Central Directory record is found but the Central Directory
/// entries parsed from it number differently from the Local File Header signatures
/// found, or from what the record announces, the report's first damage is a
/// `corrupted_cd` one that gives both counts.
pub proof fn lemma_count_mismatch_reported(d: Seq<u8>)
    requires
        0 < lfh_offsets(d).len() <= u32::MAX,
        (last_eocd(d) matches Some(p) && (zip_cd_positions(d).len() != lfh_offsets(d).len()
            || zip_cd_positions(d).len() != le16(d, p + 10))),
    ensures
        zip_report(d).damages.len() > 0,
        zip_report(d).damages[0].damage_type == "corrupted_cd"@,
        zip_report(d).damages[0].description == "Central Directory entry count mismatch: CD has "@
            + decimal(zip_cd_positions(d).len()) + " entries, but "@ + decimal(
            lfh_offsets(d).len(),
        ) + " LFH signatures found"@,
{
    if d.len() < 4 {
        lemma_short_data_has_no_lfh(d, d.len() as int);
    }
    let p = last_eocd(d)->0;
    lemma_cd_positions_shape(d, le32(d, p + 16), le16(d, p + 10) as nat);
    assert(le16(d, p + 10) <= 0xFFFF) by {
        assert(d[p + 10] as int <= 255 && d[p + 11] as int <= 255);
    }
    let n = lfh_offsets(d).len();
    assert((n as u32) as nat == n);
    assert((zip_cd_positions(d).len() as u32) as nat == zip_cd_positions(d).len());
}

/// Every signature falls in exactly one class, so the three class counts add up to their number.
pub proof fn lemma_class_counts_sum(
    d: Seq<u8>,
    offs: Seq<int>,
    has_eocd: bool,
    cds: Seq<int>,
)
    ensures
        class_count(d, offs, has_eocd, cds, 0) + class_count(d, offs, has_eocd, cds, 1)
            + class_count(d, offs, has_eocd, cds, 2) == offs.len(),
    decreases offs.len(),
{
    if offs.len() > 0 {
        lemma_class_counts_sum(d, offs.drop_last(), has_eocd, cds);
    }
}

// ---- Lemmas ---------------------------------------------------------------

proof fn lemma_next_cd_sig_found(d: Seq<u8>, lo: int, s: int, hi: int)
    requires
        lo <= s < hi,
        is_cd_sig(d, s),
        forall|q: int| lo <= q < s ==> !is_cd_sig(d, q),
    ensures
        next_cd_sig(d, lo, hi) == Some(s),
    decreases s - lo,
{
    if lo < s {
        lemma_next_cd_sig_found(d, lo + 1, s, hi);
    }
}

proof fn lemma_next_cd_sig_none(d: Seq<u8>, lo: int, hi: int)
    requires
        forall|q: int| lo <= q < hi ==> !is_cd_sig(d, q),
    ensures
        next_cd_sig(d, lo, hi) is None,
    decreases hi - lo,
{
    if lo < hi {
        lemma_next_cd_sig_none(d, lo + 1, hi);
    }
}

proof fn lemma_next_cd_sig_range(d: Seq<u8>, lo: int, hi: int)
    ensures
        next_cd_sig(d, lo, hi) matches Some(s) ==> lo <= s < hi && is_cd_sig(d, s),
    decreases hi - lo,
{
    if lo < hi && !is_cd_sig(d, lo) {
        lemma_next_cd_sig_range(d, lo + 1, hi);
    }
}

/// The parsed positions number at most `count`, ascend, and each holds a complete entry.
pub proof fn lemma_cd_positions_shape(d: Seq<u8>, pos: int, count: nat)
    ensures
        cd_positions(d, pos, count).len() <= count,
        forall|i: int|
            0 <= i < cd_positions(d, pos, count).len() ==> {
                let p = #[trigger] cd_positions(d, pos, count)[i];
                &&& pos <= p
                &&& p + 46 <= d.len()
                &&& is_cd_sig(d, p)
                &&& cd_var_end(d, p) <= d.len()
            },
    decreases count,
{
    if count > 0 {
        if pos + 46 <= d.len() && !is_cd_sig(d, pos) {
            lemma_next_cd_sig_range(d, pos + 1, d.len() - 45);
        }
        match cd_entry_start(d, pos) {
            None => {},
            Some(p) => {
                if cd_var_end(d, p) <= d.len() {
                    lemma_cd_positions_shape(d, cd_var_end(d, p), (count - 1) as nat);
                }
            },
        }
    }
}

/// Every element of `lfh_positions(d, n)` is a signature offset below `n`, and they ascend.
pub proof fn lemma_lfh_positions_shape(d: Seq<u8>, n: int)
    ensures
        forall|i: int|
            0 <= i < lfh_positions(d, n).len() ==> 0 <= #[trigger] lfh_positions(d, n)[i] < n
                && is_lfh_sig(d, lfh_positions(d, n)[i]),
        forall|i: int, j: int|
            0 <= i < j < lfh_positions(d, n).len() ==> lfh_positions(d, n)[i] < lfh_positions(
                d,
                n,
            )[j],
        lfh_positions(d, n).len() <= if n < 0 {
            0
        } else {
            n
        },
    decreases n,
{
    if n > 0 {
        lemma_lfh_positions_shape(d, n - 1);
    }
}

// ---- The scanner --------------------------------------------------------------

/// Signature scanning and header parsing for ZIP archives.
pub struct ZipScanner;

impl ZipScanner {
    /// Scan raw bytes for Local File Header signatures (PK\x03\x04).
    /// Returns byte offsets of all found signatures, sorted in ascending order.
    pub fn scan_lfh_signatures(data: &[u8]) -> (offsets: Vec<u64>)
        ensures
            offsets@.map_values(|x: u64| x as int) == lfh_offsets(data@),
    {
        let mut offsets: Vec<u64> = Vec::new();
        let mut i: usize = 0;
        while i < data.len()
            invariant
                i <= data.len(),
                offsets@.map_values(|x: u64| x as int) == lfh_positions(data@, i as int),
            decreases data.len() - i,
        {
            if has_sig(data, i, 0x50, 0x4B, 0x03, 0x04) {
                offsets.push(i as u64);
            }
            i = i + 1;
            assert(offsets@.map_values(|x: u64| x as int) =~= lfh_positions(data@, i as int));
        }
        offsets
    }

    /// Parse a Local File Header at the given offset.
    /// Returns None if the data at offset is not a valid LFH structure.
    pub fn parse_lfh(data: &[u8], offset: u64) -> (r: Option<LocalFileHeader>)
        ensures
            r is Some <==> lfh_fits(data@, offset as int),
            r matches Some(h) ==> lfh_parsed(h, data@, offset as int),
    {
        if offset > data.len() as u64 {
            return None;
        }
        let o = offset as usize;
        if data.len() - o < 30 {
            return None;
        }
        if !has_sig(data, o, 0x50, 0x4B, 0x03, 0x04) {
            return None;
        }
        let version_needed = read_le16(data, o + 4);
        let flags = read_le16(data, o + 6);
        let compression_method = read_le16(data, o + 8);
        let last_mod_time = read_le16(data, o + 10);
        let last_mod_date = read_le16(data, o + 12);
        let crc32 = read_le32(data, o + 14);
        let compressed_size = read_le32(data, o + 18);
        let uncompressed_size = read_le32(data, o + 22);
        let filename_length = read_le16(data, o + 26) as usize;
        let extra_field_length = read_le16(data, o + 28) as usize;

        if filename_length + extra_field_length > data.len() - o - 30 {
            return None;
        }
        let filename_start = o + 30;
        let extra_start = filename_start + filename_length;
        let variable_end = extra_start + extra_field_length;
        let filename = copy_range(data, filename_start, extra_start);
        let extra_field = copy_range(data, extra_start, variable_end);

        Some(
            LocalFileHeader {
                offset,
                version_needed,
                flags,
                compression_method,
                last_mod_time,
                last_mod_date,
                crc32,
                compressed_size,
                uncompressed_size,
                filename,
                extra_field,
                data_offset: variable_end as u64,
            },
        )
    }

    /// Locate and parse the End of Central Directory record.
    /// Scans backwards from end of file (per ZIP spec).
    pub fn find_eocd(data: &[u8]) -> (r: Option<(u64, EocdRecord)>)
        ensures
            r is None <==> last_eocd(data@) is None,
            r matches Some((p, e)) ==> last_eocd(data@) == Some(p as int) && eocd_parsed(
                e,
                data@,
                p as int,
            ),
    {
        if data.len() < 22 {
            return None;
        }
        let search_start: usize = if data.len() > 22 + 65535 {
            data.len() - 22 - 65535
        } else {
            0
        };
        let mut pos: usize = data.len() - 22;
        loop
            invariant
                search_start == eocd_search_start(data@.len() as int),
                search_start <= pos,
                pos + 22 <= data@.len(),
                last_eocd(data@) == eocd_scan(data@, pos as int),
            decreases pos,
        {
            if has_sig(data, pos, 0x50, 0x4B, 0x05, 0x06) {
                assert(pos + 22 <= data.len());
                let comment_length = read_le16(data, pos + 20) as usize;
                if comment_length == data.len() - pos - 22 {
                    let disk_number = read_le16(data, pos + 4);
                    let cd_start_disk = read_le16(data, pos + 6);
                    let cd_entries_on_disk = read_le16(data, pos + 8);
                    let cd_entries_total = read_le16(data, pos + 10);
                    let cd_size = read_le32(data, pos + 12);
                    let cd_offset = read_le32(data, pos + 16);
                    let comment = copy_range(data, pos + 22, data.len());
                    return Some(
                        (
                            pos as u64,
                            EocdRecord {
                                disk_number,
                                cd_start_disk,
                                cd_entries_on_disk,
                                cd_entries_total,
                                cd_size,
                                cd_offset,
                                comment,
                            },
                        ),
                    );
                }
            }
            if pos == search_start {
                assert(eocd_scan(data@, pos as int - 1) is None);
                return None;
            }
            pos = pos - 1;
        }
    }

    /// Parse Central Directory entries starting at the given offset.
    /// Parses `count` entries; skips corrupted entries (bad signature or out of bounds).
    pub fn parse_central_directory(data: &[u8], offset: u64, count: u16) -> (entries: Vec<
        CdEntry,
    >)
        ensures
            entries.len() == cd_positions(data@, offset as int, count as nat).len(),
            forall|i: int|
                0 <= i < entries.len() ==> cd_parsed(
                    #[trigger] entries@[i],
                    data@,
                    cd_positions(data@, offset as int, count as nat)[i],
                ),
    {
        let ghost start = offset as int;
        let mut entries: Vec<CdEntry> = Vec::new();
        if offset > data.len() as u64 {
            assert(cd_positions(data@, start, count as nat) =~= seq![]) by {
                if count > 0 {
                    assert(cd_entry_start(data@, start) is None);
                }
            }
            return entries;
        }
        let mut pos: usize = offset as usize;
        let mut k: u16 = 0;
        let ghost mut ps: Seq<int> = seq![];
        while k < count
            invariant
                k <= count,
                ps.len() == entries.len(),
                cd_positions(data@, start, count as nat) == ps + cd_positions(
                    data@,
                    pos as int,
                    (count - k) as nat,
                ),
                forall|i: int|
                    0 <= i < entries.len() ==> cd_parsed(#[trigger] entries@[i], data@, ps[i]),
            ensures
                ps.len() == entries.len(),
                cd_positions(data@, start, count as nat) == ps,
                forall|i: int|
                    0 <= i < entries.len() ==> cd_parsed(#[trigger] entries@[i], data@, ps[i]),
            decreases count - k,
        {
            let ghost pos0 = pos as int;
            if pos > data.len() || data.len() - pos < 46 {
                assert(cd_positions(data@, pos as int, (count - k) as nat) =~= seq![]);
                break;
            }
            if !has_sig(data, pos, 0x50, 0x4B, 0x01, 0x02) {
                // Corrupted entry: look for the next signature with room for an entry.
                let limit = data.len() - 45;
                let mut scan_pos = pos + 1;
                let mut found_next = false;
                while scan_pos < limit
                    invariant_except_break
                        !found_next,
                    invariant
                        pos + 1 <= scan_pos,
                        limit == data@.len() - 45,
                        forall|q: int| pos + 1 <= q < scan_pos ==> !is_cd_sig(data@, q),
                    ensures
                        pos + 1 <= scan_pos,
                        forall|q: int| pos + 1 <= q < scan_pos ==> !is_cd_sig(data@, q),
                        found_next ==> scan_pos < limit && is_cd_sig(data@, scan_pos as int),
                        !found_next ==> scan_pos >= limit,
                    decreases limit - scan_pos,
                {
                    if has_sig(data, scan_pos, 0x50, 0x4B, 0x01, 0x02) {
                        found_next = true;
                        break;
                    }
                    scan_pos = scan_pos + 1;
                }
                if !found_next {
                    proof {
                        lemma_next_cd_sig_none(data@, pos + 1, limit as int);
                    }
                    assert(cd_positions(data@, pos as int, (count - k) as nat) =~= seq![]);
                    break;
                }
                proof {
                    lemma_next_cd_sig_found(data@, pos + 1, scan_pos as int, limit as int);
                }
                pos = scan_pos;
            }
            assert(cd_entry_start(data@, pos0) == Some(pos as int));
            let version_made_by = read_le16(data, pos + 4);
            let version_needed = read_le16(data, pos + 6);
            let flags = read_le16(data, pos + 8);
            let compression_method = read_le16(data, pos + 10);
            let last_mod_time = read_le16(data, pos + 12);
            let last_mod_date = read_le16(data, pos + 14);
            let crc32 = read_le32(data, pos + 16);
            let compressed_size = read_le32(data, pos + 20);
            let uncompressed_size = read_le32(data, pos + 24);
            let filename_length = read_le16(data, pos + 28) as usize;
            let extra_field_length = read_le16(data, pos + 30) as usize;
            let comment_length = read_le16(data, pos + 32) as usize;
            let disk_number_start = read_le16(data, pos + 34);
            let internal_attrs = read_le16(data, pos + 36);
            let external_attrs = read_le32(data, pos + 38);
            let local_header_offset = read_le32(data, pos + 42);

            if filename_length + extra_field_length + comment_length > data.len() - pos - 46 {
                assert(cd_positions(data@, pos0, (count - k) as nat) =~= seq![]);
                break;
            }
            let filename_start = pos + 46;
            let extra_start = filename_start + filename_length;
            let comment_start = extra_start + extra_field_length;
            let variable_end = comment_start + comment_length;
            let filename = copy_range(data, filename_start, extra_start);
            let extra_field = copy_range(data, extra_start, comment_start);
            let comment = copy_range(data, comment_start, variable_end);

            entries.push(
                CdEntry {
                    version_made_by,
                    version_needed,
                    flags,
                    compression_method,
                    last_mod_time,
                    last_mod_date,
                    crc32,
                    compressed_size,
                    uncompressed_size,
                    filename,
                    extra_field,
                    comment,
                    disk_number_start,
                    internal_attrs,
                    external_attrs,
                    local_header_offset,
                },
            );
            proof {
                ps = ps.push(pos as int);
                assert(cd_positions(data@, pos0, (count - k) as nat) == seq![pos as int]
                    + cd_positions(data@, variable_end as int, (count - k - 1) as nat));
                assert(cd_positions(data@, start, count as nat) =~= ps + cd_positions(
                    data@,
                    variable_end as int,
                    (count - k - 1) as nat,
                ));
            }
            pos = variable_end;
            k = k + 1;
            assert(k == count ==> cd_positions(data@, pos as int, (count - k) as nat) =~= seq![]);
            assert(k == count ==> ps + seq![] =~= ps);
        }
        entries
    }

    /// Diagnose a ZIP archive — produces a DamageReport.
    pub fn diagnose(data: &[u8]) -> (report: DamageReport)
        ensures
            report@ == zip_report(data@),
            lfh_offsets(data@).len() <= u32::MAX ==> report.total_entries
                == report.valid_entries + report.corrupted_entries + report.unrecoverable_entries,
            lfh_offsets(data@).len() <= u32::MAX ==> report.total_entries == lfh_offsets(
                data@,
            ).len(),
            report.format@ == "zip"@,
            report.repairable <==> report.valid_entries + report.corrupted_entries > 0,
            0 < lfh_offsets(data@).len() <= u32::MAX && (last_eocd(data@) matches Some(p) && (
            zip_cd_positions(data@).len() != lfh_offsets(data@).len() || zip_cd_positions(
                data@,
            ).len() != le16(data@, p + 10))) ==> report@.damages.len() > 0
                && report@.damages[0].damage_type == "corrupted_cd"@,
    {
        proof {
            if 0 < lfh_offsets(data@).len() <= u32::MAX && (last_eocd(data@) matches Some(p) && (
            zip_cd_positions(data@).len() != lfh_offsets(data@).len() || zip_cd_positions(
                data@,
            ).len() != le16(data@, p + 10))) {
                lemma_count_mismatch_reported(data@);
            }
        }
        if data.len() < 4 {
            proof {
                lemma_short_data_has_no_lfh(data@, data@.len() as int);
            }
            return empty_damage_report("zip");
        }
        let sigs = Self::scan_lfh_signatures(data);
        let ghost offs = lfh_offsets(data@);
        assert(sigs@.len() == offs.len());
        if sigs.len() == 0 {
            return empty_damage_report("zip");
        }
        let total_entries = #[verifier::truncate] (sigs.len() as u32);
        let mut damages: Vec<DamageEntry> = Vec::new();

        let eocd_result = Self::find_eocd(data);
        let cd_entries = match &eocd_result {
            Some((_, eocd)) => Self::parse_central_directory(
                data,
                eocd.cd_offset as u64,
                eocd.cd_entries_total,
            ),
            None => Vec::new(),
        };
        let ghost cds = zip_cd_positions(data@);
        assert(cd_entries.len() == cds.len());
        proof {
            match last_eocd(data@) {
                Some(p) => lemma_cd_positions_shape(
                    data@,
                    le32(data@, p + 16),
                    le16(data@, p + 10) as nat,
                ),
                None => {},
            }
        }

        match &eocd_result {
            None => {
                damages.push(
                    DamageEntry {
                        damage_type: String::from_str("missing_eocd"),
                        offset: 0,
                        entry_name: None,
                        description: String::from_str(
                            "End of Central Directory record is missing or corrupted",
                        ),
                    },
                );
            },
            Some((_, eocd)) => {
                if cd_entries.len() as u16 != eocd.cd_entries_total || cd_entries.len() as u32
                    != total_entries {
                    let mut description = String::new();
                    push_str(&mut description, "Central Directory entry count mismatch: CD has ");
                    push_decimal(&mut description, cd_entries.len() as u64);
                    push_str(&mut description, " entries, but ");
                    push_decimal(&mut description, total_entries as u64);
                    push_str(&mut description, " LFH signatures found");
                    damages.push(
                        DamageEntry {
                            damage_type: String::from_str("corrupted_cd"),
                            offset: eocd.cd_offset as u64,
                            entry_name: None,
                            description,
                        },
                    );
                }
            },
        }
        let ghost head = damages@.map_values(|e: DamageEntry| e@);
        let has_eocd = eocd_result.is_some();

        let mut valid_entries: usize = 0;
        let mut corrupted_entries: usize = 0;
        let mut unrecoverable_entries: usize = 0;
        let mut i: usize = 0;
        while i < sigs.len()
            invariant
                i <= sigs.len(),
                sigs@.map_values(|x: u64| x as int) == offs,
                cd_entries.len() == cds.len(),
                forall|j: int|
                    0 <= j < cd_entries.len() ==> cd_parsed(#[trigger] cd_entries@[j], data@, cds[j]),
                has_eocd == (last_eocd(data@) is Some),
                damages@.map_values(|e: DamageEntry| e@) == head + lfh_damages(
                    data@,
                    offs.take(i as int),
                    has_eocd,
                    cds,
                ),
                valid_entries == class_count(data@, offs.take(i as int), has_eocd, cds, 0),
                corrupted_entries == class_count(data@, offs.take(i as int), has_eocd, cds, 1),
                unrecoverable_entries == class_count(data@, offs.take(i as int), has_eocd, cds, 2),
                valid_entries + corrupted_entries + unrecoverable_entries == i,
            decreases sigs.len() - i,
        {
            let lfh_offset = sigs[i];
            let ghost off = offs[i as int];
            assert(off == lfh_offset as int);
            assert(offs.take(i + 1).drop_last() =~= offs.take(i as int));
            assert(offs.take(i + 1).last() == off);
            let ghost before = damages@.map_values(|e: DamageEntry| e@);
            match Self::parse_lfh(data, lfh_offset) {
                Some(header) => {
                    let mut is_referenced = false;
                    let mut j: usize = 0;
                    while j < cd_entries.len()
                        invariant
                            j <= cd_entries.len(),
                            cd_entries.len() == cds.len(),
                            forall|q: int|
                                0 <= q < cd_entries.len() ==> cd_parsed(
                                    #[trigger] cd_entries@[q],
                                    data@,
                                    cds[q],
                                ),
                            off == lfh_offset as int,
                            is_referenced == exists|q: int|
                                0 <= q < j && le32(data@, #[trigger] cds[q] + 42) == off,
                        decreases cd_entries.len() - j,
                    {
                        assert(cd_parsed(cd_entries@[j as int], data@, cds[j as int]));
                        if cd_entries[j].local_header_offset as u64 == lfh_offset {
                            is_referenced = true;
                        }
                        j = j + 1;
                    }
                    assert(is_referenced == lfh_referenced(data@, cds, off));
                    let entry_name = reported_entry_name(&header.filename);
                    if !is_referenced && has_eocd {
                        let mut description = String::new();
                        push_str(&mut description, "Local File Header at offset ");
                        push_decimal(&mut description, lfh_offset);
                        push_str(
                            &mut description,
                            " is not referenced by any Central Directory entry",
                        );
                        damages.push(
                            DamageEntry {
                                damage_type: String::from_str("misaligned_lfh"),
                                offset: lfh_offset,
                                entry_name,
                                description,
                            },
                        );
                        corrupted_entries = corrupted_entries + 1;
                    } else if header.crc32 == 0 {
                        let mut description = String::new();
                        push_str(&mut description, "Local File Header at offset ");
                        push_decimal(&mut description, lfh_offset);
                        push_str(&mut description, " has CRC-32 == 0 (potentially corrupted)");
                        damages.push(
                            DamageEntry {
                                damage_type: String::from_str("invalid_crc"),
                                offset: lfh_offset,
                                entry_name,
                                description,
                            },
                        );
                        corrupted_entries = corrupted_entries + 1;
                    } else {
                        valid_entries = valid_entries + 1;
                    }
                },
                None => {
                    unrecoverable_entries = unrecoverable_entries + 1;
                },
            }
            assert(damages@.map_values(|e: DamageEntry| e@) =~= before + lfh_damage(
                data@,
                off,
                has_eocd,
                cds,
            ));
            i = i + 1;
        }
        assert(offs.take(i as int) =~= offs);
        let valid = #[verifier::truncate] (valid_entries as u32);
        let corrupted = #[verifier::truncate] (corrupted_entries as u32);
        let unrecoverable = #[verifier::truncate] (unrecoverable_entries as u32);
        let report = DamageReport {
            format: String::from_str("zip"),
            total_entries,
            valid_entries: valid,
            corrupted_entries: corrupted,
            unrecoverable_entries: unrecoverable,
            damages,
            repairable: valid > 0 || corrupted > 0,
        };
        proof {
            let spec = zip_report(data@);
            assert(report@.format == spec.format);
            assert(report@.total_entries == spec.total_entries);
            assert(report@.valid_entries == spec.valid_entries);
            assert(report@.unrecoverable_entries == spec.unrecoverable_entries);
            assert(head =~= match last_eocd(data@) {
                None => seq![missing_eocd_damage()],
                Some(p) => if cds.len() != le16(data@, p + 10) || (cds.len() as u32) != total_entries {
                    seq![corrupted_cd_damage(le32(data@, p + 16), cds.len(), total_entries)]
                } else {
                    seq![]
                },
            });
            assert(report@.damages =~= spec.damages);
            lemma_class_counts_sum(data@, offs, has_eocd, cds);
        }
        report
    }
}

/// The name under which a damaged entry is reported.
fn reported_entry_name(name: &[u8]) -> (r: Option<String>)
    ensures
        opt_str_view(r) == reported_name(name@),
{
    match utf8_decode(name) {
        Some(s) => {
            if s.as_str().is_empty() {
                None
            } else {
                Some(s)
            }
        },
        None => None,
    }
}

/// A report with no entries and no damages, not repairable.
pub(crate) fn empty_damage_report(format: &str) -> (r: DamageReport)
    ensures
        r@ == empty_report(format@),
{
    let r = DamageReport {
        format: String::from_str(format),
        total_entries: 0,
        valid_entries: 0,
        corrupted_entries: 0,
        unrecoverable_entries: 0,
        damages: Vec::new(),
        repairable: false,
    };
    assert(r@.damages =~= seq![]);
    r
}

} // verus!
