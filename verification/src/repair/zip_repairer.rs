//! Rebuilding the Central Directory of a damaged ZIP archive and writing a repaired copy.

use vstd::prelude::*;

use crate::bytes::{
    append_range, first_where, has_sig, le16, le16_bytes, le32, le32_bytes,
    lemma_first_where_found, lemma_first_where_none, lemma_first_where_range, push_le16, push_le32,
    sig_at,
};
use crate::checksum::{crc32, crc32_of, inflate, inflate_result};
use crate::text::{lossy_utf8, utf8_decode_lossy};
use super::models::{
    CdEntry, RepairError, RepairedEntry, RepairedEntryModel, ScanResult, ScanResultModel,
    entries_view, strings_view,
};
use super::zip_scanner::{
    ZipScanner, cd_entry_start, cd_positions, cd_var_end, eocd_at, eocd_scan, eocd_search_start,
    is_cd_sig, is_eocd_sig, is_lfh_sig, last_eocd, lfh_data_start, lfh_fits, zip_cd_positions,
};

verus! {

// ---- Specification ----------------------------------------------------------

/// An entry boundary (Local File Header, Central Directory or End of Central
/// Directory signature) starts at `i`.
pub open spec fn is_boundary(d: Seq<u8>, i: int) -> bool {
    is_lfh_sig(d, i) || is_cd_sig(d, i) || is_eocd_sig(d, i)
}

/// The predicate "an entry boundary starts here" over positions of `d`.
pub open spec fn boundary_at(d: Seq<u8>) -> spec_fn(int) -> bool {
    |q: int| is_boundary(d, q)
}

/// The size of the data that starts at `start`: the distance to the next entry
/// boundary, or to the end of the buffer when there is none; 0 past the end.
pub open spec fn inferred_size(d: Seq<u8>, start: int) -> int {
    if start >= d.len() {
        0
    } else {
        match first_where(start, d.len() - 3, boundary_at(d)) {
            Some(q) => q - start,
            None => d.len() - start,
        }
    }
}

/// A size capped to what a `u32` holds.
pub open spec fn capped_u32(x: int) -> u32 {
    if x > u32::MAX {
        u32::MAX
    } else {
        x as u32
    }
}

/// A ZIP record signature starts at `j`: `PK 03 04` (Local File Header),
/// `PK 01 02` (Central Directory entry) or `PK 05 06` (End of Central Directory).
pub open spec fn record_signature_at(d: Seq<u8>, j: int) -> bool {
    ||| sig_at(d, j, 0x50, 0x4B, 0x03, 0x04)
    ||| sig_at(d, j, 0x50, 0x4B, 0x01, 0x02)
    ||| sig_at(d, j, 0x50, 0x4B, 0x05, 0x06)
}

/// `n` is the right compressed size for the entry whose Local File Header is at `o`:
/// the header's own field when that is not 0; when it is 0 (an entry written by a
/// streaming tool), exactly the stored bytes from the data start up to the next
/// record signature or the end of the data, cut at what a `u32` holds (and 0 when
/// the data start lies past the end).
pub open spec fn covers_stored_bytes(d: Seq<u8>, o: int, n: u32) -> bool {
    let s = lfh_data_start(d, o);
    if le32(d, o + 18) != 0 {
        n == le32(d, o + 18)
    } else if s >= d.len() {
        n == 0
    } else {
        &&& s + n <= d.len()
        &&& forall|j: int| s <= j < s + n ==> !#[trigger] record_signature_at(d, j)
        &&& (n == u32::MAX || s + n == d.len() || record_signature_at(d, s + n))
    }
}

/// The size inferred for a zero size field covers the stored bytes.
proof fn lemma_inferred_size_covers(d: Seq<u8>, o: int)
    requires
        le32(d, o + 18) == 0,
    ensures
        covers_stored_bytes(d, o, capped_u32(inferred_size(d, lfh_data_start(d, o)))),
{
    let s = lfh_data_start(d, o);
    if s < d.len() {
        let hi = d.len() - 3;
        let p = boundary_at(d);
        lemma_first_where_range(s, hi, p);
        let n = capped_u32(inferred_size(d, s)) as int;
        match first_where(s, hi, p) {
            Some(q) => {
                lemma_first_before(s, hi, p);
                assert forall|j: int| s <= j < s + n implies !#[trigger] record_signature_at(d, j) by {
                    assert(!p(j));
                }
                if n != u32::MAX {
                    assert(p(q));
                }
            },
            None => {
                lemma_first_before(s, hi, p);
                assert forall|j: int| s <= j < s + n implies !#[trigger] record_signature_at(d, j) by {
                    if j < hi {
                        assert(!p(j));
                    }
                }
            },
        }
    }
}

/// The size taken for the entry at `o` (the header's field, or the inferred size
/// when that field is 0) covers its stored bytes.
pub proof fn lemma_chosen_size_covers(d: Seq<u8>, o: int)
    ensures
        covers_stored_bytes(
            d,
            o,
            if le32(d, o + 18) == 0 {
                capped_u32(inferred_size(d, lfh_data_start(d, o)))
            } else {
                le32(d, o + 18) as u32
            },
        ),
{
    if le32(d, o + 18) == 0 {
        lemma_inferred_size_covers(d, o);
    } else {
        assert(0 <= le32(d, o + 18) <= u32::MAX) by {
            assert(d[o + 18] as int <= 255 && d[o + 19] as int <= 255);
            assert(d[o + 20] as int <= 255 && d[o + 21] as int <= 255);
        }
    }
}

/// Before what `first_where` finds (or anywhere in range when it finds nothing), no
/// index satisfies `p`.
proof fn lemma_first_before(lo: int, hi: int, p: spec_fn(int) -> bool)
    ensures
        first_where(lo, hi, p) matches Some(s) ==> forall|q: int| lo <= q < s ==> !#[trigger] p(q),
        first_where(lo, hi, p) is None ==> forall|q: int| lo <= q < hi ==> !#[trigger] p(q),
    decreases hi - lo,
{
    if lo < hi && !p(lo) {
        lemma_first_before(lo + 1, hi, p);
    }
}

/// `e` is the Central Directory entry rebuilt from the Local File Header at `off`.
pub open spec fn cd_rebuilt(e: CdEntry, d: Seq<u8>, off: u64) -> bool {
    let o = off as int;
    let name_end = o + 30 + le16(d, o + 26);
    &&& e.version_made_by == 20
    &&& e.version_needed == le16(d, o + 4)
    &&& e.flags == le16(d, o + 6)
    &&& e.compression_method == le16(d, o + 8)
    &&& e.last_mod_time == le16(d, o + 10)
    &&& e.last_mod_date == le16(d, o + 12)
    &&& e.crc32 == le32(d, o + 14)
    &&& e.compressed_size == (if le32(d, o + 18) == 0 {
        capped_u32(inferred_size(d, lfh_data_start(d, o)))
    } else {
        le32(d, o + 18) as u32
    })
    &&& e.uncompressed_size == le32(d, o + 22)
    &&& e.filename@ == d.subrange(o + 30, name_end)
    &&& e.extra_field@ == d.subrange(name_end, lfh_data_start(d, o))
    &&& e.comment@ == Seq::<u8>::empty()
    &&& e.disk_number_start == 0
    &&& e.internal_attrs == 0
    &&& e.external_attrs == 0
    &&& e.local_header_offset == off as u32
}

/// A rebuilt directory entry's compressed size is the header's own size field when
/// that is not 0, and otherwise covers exactly the entry's stored bytes: from the
/// data start up to the next record signature or the end of the data (cut at
/// `u32::MAX`), so that a streamed entry's data is kept.
pub proof fn lemma_rebuilt_size_covers_stored_bytes(e: CdEntry, d: Seq<u8>, off: u64)
    requires
        cd_rebuilt(e, d, off),
    ensures
        covers_stored_bytes(d, off as int, e.compressed_size),
{
    lemma_chosen_size_covers(d, off as int);
}

/// The offsets among `offs` at which a complete Local File Header lies, in order.
pub open spec fn parseable_offsets(d: Seq<u8>, offs: Seq<u64>) -> Seq<u64>
    decreases offs.len(),
{
    if offs.len() == 0 {
        seq![]
    } else if lfh_fits(d, offs.last() as int) {
        parseable_offsets(d, offs.drop_last()).push(offs.last())
    } else {
        parseable_offsets(d, offs.drop_last())
    }
}

/// The CRC-32 of an entry's uncompressed contents: stored data (method 0) is
/// checksummed as is, deflated data (method 8) after decompression; other
/// methods, and data that fails to decompress, give `None`.
pub open spec fn recomputed_crc(compressed: Seq<u8>, method: u16) -> Option<u32> {
    if method == 0 {
        Some(crc32_of(compressed))
    } else if method == 8 {
        match inflate_result(compressed) {
            Some(plain) => Some(crc32_of(plain)),
            None => None,
        }
    } else {
        None
    }
}

/// The source data of `e` lies inside the buffer.
pub open spec fn entry_fits(d: Seq<u8>, e: RepairedEntryModel) -> bool {
    e.data_offset as int + e.compressed_size <= d.len()
}

/// The name under which an entry is recovered or reported as failed.
pub open spec fn entry_name(e: RepairedEntryModel) -> Seq<char> {
    lossy_utf8(e.filename)
}

/// The Local File Header written for `e`.
pub open spec fn lfh_record(e: RepairedEntryModel) -> Seq<u8> {
    seq![0x50u8, 0x4Bu8, 0x03u8, 0x04u8] + le16_bytes(20) + le16_bytes(0) + le16_bytes(
        e.compression_method as int,
    ) + le16_bytes(e.last_mod_time as int) + le16_bytes(e.last_mod_date as int) + le32_bytes(
        e.crc32 as int,
    ) + le32_bytes(e.compressed_size as int) + le32_bytes(e.uncompressed_size as int)
        + le16_bytes((e.filename.len() as u16) as int) + le16_bytes(0) + e.filename
}

/// The Central Directory entry written for `e`, whose header was written at `lfh_offset`.
pub open spec fn cd_record(e: RepairedEntryModel, lfh_offset: u32) -> Seq<u8> {
    seq![0x50u8, 0x4Bu8, 0x01u8, 0x02u8] + le16_bytes(20) + le16_bytes(20) + le16_bytes(0)
        + le16_bytes(e.compression_method as int) + le16_bytes(e.last_mod_time as int)
        + le16_bytes(e.last_mod_date as int) + le32_bytes(e.crc32 as int) + le32_bytes(
        e.compressed_size as int,
    ) + le32_bytes(e.uncompressed_size as int) + le16_bytes((e.filename.len() as u16) as int)
        + le16_bytes(0) + le16_bytes(0) + le16_bytes(0) + le16_bytes(0) + le32_bytes(0)
        + le32_bytes(lfh_offset as int) + e.filename
}

/// The End of Central Directory record written after `count` entries of `size` bytes at `start`.
pub open spec fn eocd_record(count: u16, size: u32, start: u32) -> Seq<u8> {
    seq![0x50u8, 0x4Bu8, 0x05u8, 0x06u8] + le16_bytes(0) + le16_bytes(0) + le16_bytes(
        count as int,
    ) + le16_bytes(count as int) + le32_bytes(size as int) + le32_bytes(start as int)
        + le16_bytes(0)
}

/// State of the first (header and data) phase of writing a repaired ZIP.
pub struct ZipLayout {
    pub bytes: Seq<u8>,
    pub offset: u32,
    pub lfh_offsets: Seq<u32>,
    pub recovered: Seq<Seq<char>>,
    pub failed: Seq<Seq<char>>,
}

/// The headers and data written for the entries `es`, with the bookkeeping of that phase.
/// Output offsets are 32-bit and wrap around, as the format's fields do.
pub open spec fn lfh_phase(d: Seq<u8>, es: Seq<RepairedEntryModel>) -> ZipLayout
    decreases es.len(),
{
    if es.len() == 0 {
        ZipLayout {
            bytes: seq![],
            offset: 0,
            lfh_offsets: seq![],
            recovered: seq![],
            failed: seq![],
        }
    } else {
        let prev = lfh_phase(d, es.drop_last());
        let e = es.last();
        if entry_fits(d, e) {
            let start = e.data_offset as int;
            ZipLayout {
                bytes: prev.bytes + lfh_record(e) + d.subrange(start, start + e.compressed_size),
                offset: prev.offset.wrapping_add(
                    ((e.filename.len() as u32).wrapping_add(30)).wrapping_add(e.compressed_size),
                ),
                lfh_offsets: prev.lfh_offsets.push(prev.offset),
                recovered: prev.recovered.push(entry_name(e)),
                failed: prev.failed,
            }
        } else {
            ZipLayout {
                bytes: prev.bytes,
                offset: prev.offset,
                lfh_offsets: prev.lfh_offsets.push(0),
                recovered: prev.recovered,
                failed: prev.failed.push(entry_name(e)),
            }
        }
    }
}

/// State of the Central Directory phase of writing a repaired ZIP.
pub struct CdLayout {
    pub bytes: Seq<u8>,
    pub size: u32,
    pub count: u16,
}

/// The Central Directory written for the first `n` entries: one record for each
/// entry whose name is among the recovered names.
pub open spec fn cd_phase(
    es: Seq<RepairedEntryModel>,
    offs: Seq<u32>,
    recovered: Seq<Seq<char>>,
    n: int,
) -> CdLayout
    decreases n,
{
    if n <= 0 {
        CdLayout { bytes: seq![], size: 0, count: 0 }
    } else {
        let prev = cd_phase(es, offs, recovered, n - 1);
        let e = es[n - 1];
        if recovered.contains(entry_name(e)) {
            CdLayout {
                bytes: prev.bytes + cd_record(e, offs[n - 1]),
                size: prev.size.wrapping_add((e.filename.len() as u32).wrapping_add(46)),
                count: prev.count.wrapping_add(1),
            }
        } else {
            prev
        }
    }
}

/// The bytes of the repaired archive written for entries `es` taken from `d`.
#[verifier::opaque]
pub open spec fn zip_output(d: Seq<u8>, es: Seq<RepairedEntryModel>) -> Seq<u8> {
    let l = lfh_phase(d, es);
    let c = cd_phase(es, l.lfh_offsets, l.recovered, es.len() as int);
    l.bytes + c.bytes + eocd_record(c.count, c.size, l.offset)
}

/// The result reported after writing the repaired archive.
pub open spec fn zip_write_result(d: Seq<u8>, es: Seq<RepairedEntryModel>) -> ScanResultModel {
    let l = lfh_phase(d, es);
    ScanResultModel {
        success: l.failed.len() == 0 && l.recovered.len() > 0,
        recovered_entries: l.recovered,
        failed_entries: l.failed,
        repaired_path: None,
    }
}

/// Every entry is either recovered or failed, and gets one header slot.
pub proof fn lemma_lfh_phase_counts(d: Seq<u8>, es: Seq<RepairedEntryModel>)
    ensures
        lfh_phase(d, es).recovered.len() + lfh_phase(d, es).failed.len() == es.len(),
        lfh_phase(d, es).lfh_offsets.len() == es.len(),
    decreases es.len(),
{
    if es.len() > 0 {
        lemma_lfh_phase_counts(d, es.drop_last());
    }
}


/// While the headers and data written stay within 4 GiB, the running output offset
/// is the number of bytes written, and the directory offset recorded for each entry
/// that was written is where its Local File Header starts in the output.
pub proof fn lemma_directory_points_at_headers(d: Seq<u8>, es: Seq<RepairedEntryModel>)
    requires
        lfh_phase(d, es).bytes.len() <= u32::MAX,
    ensures
        lfh_phase(d, es).offset == lfh_phase(d, es).bytes.len(),
        lfh_phase(d, es).lfh_offsets.len() == es.len(),
        forall|i: int|
            0 <= i < es.len() && entry_fits(d, #[trigger] es[i]) ==> {
                let o = lfh_phase(d, es).lfh_offsets[i] as int;
                &&& o + lfh_record(es[i]).len() <= lfh_phase(d, es).bytes.len()
                &&& lfh_phase(d, es).bytes.subrange(o, o + lfh_record(es[i]).len()) == lfh_record(
                    es[i],
                )
            },
    decreases es.len(),
{
    lemma_lfh_phase_counts(d, es);
    if es.len() > 0 {
        let prev_es = es.drop_last();
        let prev = lfh_phase(d, prev_es);
        let cur = lfh_phase(d, es);
        let e = es.last();
        assert(prev.bytes.len() <= cur.bytes.len());
        lemma_directory_points_at_headers(d, prev_es);
        lemma_lfh_phase_counts(d, prev_es);
        if entry_fits(d, e) {
            let start = e.data_offset as int;
            let rec = lfh_record(e);
            assert(rec.len() == 30 + e.filename.len());
            assert(cur.bytes.len() == prev.bytes.len() + 30 + e.filename.len() + e.compressed_size);
            assert((e.filename.len() as u32) as int == e.filename.len());
            assert(cur.offset == prev.offset + 30 + e.filename.len() + e.compressed_size);
            assert forall|i: int| 0 <= i < es.len() && entry_fits(d, #[trigger] es[i]) implies {
                let o = cur.lfh_offsets[i] as int;
                &&& o + lfh_record(es[i]).len() <= cur.bytes.len()
                &&& cur.bytes.subrange(o, o + lfh_record(es[i]).len()) == lfh_record(es[i])
            } by {
                if i < es.len() - 1 {
                    assert(es[i] == prev_es[i]);
                    assert(cur.lfh_offsets[i] == prev.lfh_offsets[i]);
                    let o = prev.lfh_offsets[i] as int;
                    assert(cur.bytes.subrange(o, o + lfh_record(es[i]).len()) =~= prev.bytes.subrange(
                        o,
                        o + lfh_record(es[i]).len(),
                    ));
                } else {
                    assert(cur.lfh_offsets[i] == prev.offset);
                    assert(cur.bytes.subrange(prev.bytes.len() as int, (prev.bytes.len() + rec.len()) as int)
                        =~= rec);
                }
            }
        } else {
            assert forall|i: int| 0 <= i < es.len() && entry_fits(d, #[trigger] es[i]) implies {
                let o = cur.lfh_offsets[i] as int;
                &&& o + lfh_record(es[i]).len() <= cur.bytes.len()
                &&& cur.bytes.subrange(o, o + lfh_record(es[i]).len()) == lfh_record(es[i])
            } by {
                assert(i < es.len() - 1);
                assert(es[i] == prev_es[i]);
                assert(cur.lfh_offsets[i] == prev.lfh_offsets[i]);
            }
        }
    }
}

/// While the directory written stays within 4 GiB, its recorded size is the number
/// of bytes it takes.
pub proof fn lemma_directory_size(
    es: Seq<RepairedEntryModel>,
    offs: Seq<u32>,
    recovered: Seq<Seq<char>>,
    n: int,
)
    requires
        cd_phase(es, offs, recovered, n).bytes.len() <= u32::MAX,
    ensures
        cd_phase(es, offs, recovered, n).size == cd_phase(es, offs, recovered, n).bytes.len(),
    decreases n,
{
    if n > 0 {
        let prev = cd_phase(es, offs, recovered, n - 1);
        let e = es[n - 1];
        assert(prev.bytes.len() <= cd_phase(es, offs, recovered, n).bytes.len());
        lemma_directory_size(es, offs, recovered, n - 1);
        if recovered.contains(entry_name(e)) {
            assert(cd_record(e, offs[n - 1]).len() == 46 + e.filename.len());
            assert((e.filename.len() as u32) as int == e.filename.len());
        }
    }
}

/// The repaired archive, while it stays within 4 GiB: the headers and data, the
/// directory, and an End of Central Directory record that gives the directory's true
/// size and starting offset.
pub proof fn lemma_end_record_locates_directory(d: Seq<u8>, es: Seq<RepairedEntryModel>)
    requires
        zip_output(d, es).len() <= u32::MAX,
    ensures
        ({
            let l = lfh_phase(d, es);
            let c = cd_phase(es, l.lfh_offsets, l.recovered, es.len() as int);
            zip_output(d, es) == l.bytes + c.bytes + eocd_record(
                c.count,
                c.bytes.len() as u32,
                l.bytes.len() as u32,
            )
        }),
{
    reveal(zip_output);
    let l = lfh_phase(d, es);
    let c = cd_phase(es, l.lfh_offsets, l.recovered, es.len() as int);
    assert(zip_output(d, es).len() == l.bytes.len() + c.bytes.len() + eocd_record(c.count, c.size, l.offset).len());
    lemma_directory_points_at_headers(d, es);
    lemma_directory_size(es, l.lfh_offsets, l.recovered, es.len() as int);
}

/// Two bytes written as `le16_bytes(x)` read back as `x`.
proof fn lemma_le16_reads_back(s: Seq<u8>, i: int, x: int)
    requires
        0 <= i,
        i + 2 <= s.len(),
        0 <= x <= 0xFFFF,
        s.subrange(i, i + 2) == le16_bytes(x),
    ensures
        le16(s, i) == x,
{
    assert(s[i] == s.subrange(i, i + 2)[0]);
    assert(s[i + 1] == s.subrange(i, i + 2)[1]);
    assert(le16(s, i) == x) by (nonlinear_arith)
        requires
            0 <= x <= 0xFFFF,
            s[i] == (x % 256) as u8,
            s[i + 1] == ((x / 256) % 256) as u8,
            le16(s, i) == s[i] as int + 256 * (s[i + 1] as int),
    ;
}

/// Four bytes written as `le32_bytes(x)` read back as `x`.
proof fn lemma_le32_reads_back(s: Seq<u8>, i: int, x: int)
    requires
        0 <= i,
        i + 4 <= s.len(),
        0 <= x <= 0xFFFF_FFFF,
        s.subrange(i, i + 4) == le32_bytes(x),
    ensures
        le32(s, i) == x,
{
    assert(s[i] == s.subrange(i, i + 4)[0]);
    assert(s[i + 1] == s.subrange(i, i + 4)[1]);
    assert(s[i + 2] == s.subrange(i, i + 4)[2]);
    assert(s[i + 3] == s.subrange(i, i + 4)[3]);
    assert(le32(s, i) == x) by (nonlinear_arith)
        requires
            0 <= x <= 0xFFFF_FFFF,
            s[i] == (x % 256) as u8,
            s[i + 1] == ((x / 256) % 256) as u8,
            s[i + 2] == ((x / 65536) % 256) as u8,
            s[i + 3] == ((x / 16777216) % 256) as u8,
            le32(s, i) == s[i] as int + 256 * (s[i + 1] as int) + 65536 * (s[i + 2] as int)
                + 16777216 * (s[i + 3] as int),
    ;
}

/// A repaired archive that stays within 4 GiB is read back by the scanner: the End
/// of Central Directory record it finds is the one written last, which gives the
/// number of directory entries written, the directory's size, and the directory's
/// offset; the directory ends exactly where that record starts.
pub proof fn lemma_scanner_finds_end_record(d: Seq<u8>, es: Seq<RepairedEntryModel>)
    requires
        zip_output(d, es).len() <= u32::MAX,
    ensures
        ({
            let o = zip_output(d, es);
            let l = lfh_phase(d, es);
            let c = cd_phase(es, l.lfh_offsets, l.recovered, es.len() as int);
            let p = o.len() - 22;
            &&& last_eocd(o) == Some(p)
            &&& le16(o, p + 10) == c.count
            &&& le32(o, p + 12) == c.bytes.len()
            &&& le32(o, p + 16) == l.bytes.len()
            &&& le32(o, p + 16) + le32(o, p + 12) == p
        }),
{
    lemma_end_record_locates_directory(d, es);
    let o = zip_output(d, es);
    let l = lfh_phase(d, es);
    let c = cd_phase(es, l.lfh_offsets, l.recovered, es.len() as int);
    let e = eocd_record(c.count, c.bytes.len() as u32, l.bytes.len() as u32);
    assert(e.len() == 22);
    let p = o.len() - 22;
    assert(p == l.bytes.len() + c.bytes.len());
    assert(o.subrange(p, p + 22) =~= e);
    assert(o.subrange(p + 10, p + 12) =~= le16_bytes(c.count as int));
    assert(o.subrange(p + 12, p + 16) =~= le32_bytes((c.bytes.len() as u32) as int));
    assert(o.subrange(p + 16, p + 20) =~= le32_bytes((l.bytes.len() as u32) as int));
    assert(o.subrange(p + 20, p + 22) =~= le16_bytes(0));
    lemma_le16_reads_back(o, p + 10, c.count as int);
    lemma_le32_reads_back(o, p + 12, (c.bytes.len() as u32) as int);
    lemma_le32_reads_back(o, p + 16, (l.bytes.len() as u32) as int);
    lemma_le16_reads_back(o, p + 20, 0);
    assert(o[p] == 0x50u8 && o[p + 1] == 0x4Bu8 && o[p + 2] == 0x05u8 && o[p + 3] == 0x06u8) by {
        assert(o[p] == o.subrange(p, p + 22)[0]);
        assert(o[p + 1] == o.subrange(p, p + 22)[1]);
        assert(o[p + 2] == o.subrange(p, p + 22)[2]);
        assert(o[p + 3] == o.subrange(p, p + 22)[3]);
    }
    assert(is_eocd_sig(o, p));
    assert(eocd_search_start(o.len() as int) <= p);
    assert(eocd_at(o, p));
    assert(eocd_scan(o, p) == Some(p));
}

/// The directory records written for the first `n` entries, in order.
pub open spec fn cd_records(
    es: Seq<RepairedEntryModel>,
    offs: Seq<u32>,
    recovered: Seq<Seq<char>>,
    n: int,
) -> Seq<Seq<u8>>
    decreases n,
{
    if n <= 0 {
        seq![]
    } else {
        let prev = cd_records(es, offs, recovered, n - 1);
        if recovered.contains(entry_name(es[n - 1])) {
            prev.push(cd_record(es[n - 1], offs[n - 1]))
        } else {
            prev
        }
    }
}

/// The records `rs` laid end to end.
pub open spec fn concat_records(rs: Seq<Seq<u8>>) -> Seq<u8>
    decreases rs.len(),
{
    if rs.len() == 0 {
        seq![]
    } else {
        concat_records(rs.drop_last()) + rs.last()
    }
}

/// A record that the directory parser reads as one entry: it starts with the
/// directory signature, and its name, extra and comment lengths account for
/// exactly the bytes after its fixed 46.
pub open spec fn well_formed_cd_record(r: Seq<u8>) -> bool {
    &&& r.len() >= 46
    &&& r[0] == 0x50u8 && r[1] == 0x4Bu8 && r[2] == 0x01u8 && r[3] == 0x02u8
    &&& 46 + le16(r, 28) + le16(r, 30) + le16(r, 32) == r.len()
}

/// The directory phase writes its records end to end, and counts them while there
/// are fewer than 65536.
proof fn lemma_cd_phase_is_records(
    es: Seq<RepairedEntryModel>,
    offs: Seq<u32>,
    recovered: Seq<Seq<char>>,
    n: int,
)
    requires
        n <= es.len(),
        n <= offs.len(),
    ensures
        cd_phase(es, offs, recovered, n).bytes == concat_records(cd_records(es, offs, recovered, n)),
        cd_records(es, offs, recovered, n).len() <= (if n < 0 { 0 } else { n }),
        cd_records(es, offs, recovered, n).len() <= 0xFFFF ==> cd_phase(es, offs, recovered, n).count
            == cd_records(es, offs, recovered, n).len(),
        forall|k: int|
            0 <= k < cd_records(es, offs, recovered, n).len() ==> exists|j: int|
                0 <= j < n && #[trigger] cd_records(es, offs, recovered, n)[k] == cd_record(
                    es[j],
                    offs[j],
                ),
    decreases n,
{
    if n > 0 {
        lemma_cd_phase_is_records(es, offs, recovered, n - 1);
        let prev = cd_records(es, offs, recovered, n - 1);
        let cur = cd_records(es, offs, recovered, n);
        if recovered.contains(entry_name(es[n - 1])) {
            assert(cur.drop_last() =~= prev);
            assert forall|k: int| 0 <= k < cur.len() implies exists|j: int|
                0 <= j < n && #[trigger] cur[k] == cd_record(es[j], offs[j]) by {
                if k < prev.len() {
                    assert(cur[k] == prev[k]);
                    let j = choose|j: int| 0 <= j < n - 1 && #[trigger] prev[k] == cd_record(es[j], offs[j]);
                    assert(cur[k] == cd_record(es[j], offs[j]));
                } else {
                    assert(cur[k] == cd_record(es[n - 1], offs[n - 1]));
                }
            }
        }
    }
}

/// A directory record written for a name of at most 65535 bytes is well formed.
proof fn lemma_cd_record_well_formed(e: RepairedEntryModel, off: u32)
    requires
        e.filename.len() <= 0xFFFF,
    ensures
        well_formed_cd_record(cd_record(e, off)),
        cd_record(e, off).len() == 46 + e.filename.len(),
{
    let r = cd_record(e, off);
    let n = e.filename.len() as int;
    assert(r.len() == 46 + n);
    assert(r.subrange(28, 30) =~= le16_bytes((e.filename.len() as u16) as int));
    assert(r.subrange(30, 32) =~= le16_bytes(0));
    assert(r.subrange(32, 34) =~= le16_bytes(0));
    assert((e.filename.len() as u16) as int == n);
    lemma_le16_reads_back(r, 28, n);
    lemma_le16_reads_back(r, 30, 0);
    lemma_le16_reads_back(r, 32, 0);
}

/// Records laid end to end are the first record followed by the rest.
proof fn lemma_concat_front(rs: Seq<Seq<u8>>)
    requires
        rs.len() > 0,
    ensures
        concat_records(rs) == rs[0] + concat_records(rs.subrange(1, rs.len() as int)),
    decreases rs.len(),
{
    if rs.len() > 1 {
        let init = rs.drop_last();
        lemma_concat_front(init);
        assert(init.subrange(1, init.len() as int) =~= rs.subrange(1, rs.len() as int).drop_last());
        assert(rs.subrange(1, rs.len() as int).last() == rs.last());
        assert(concat_records(rs) =~= rs[0] + concat_records(rs.subrange(1, rs.len() as int)));
    } else {
        assert(rs.subrange(1, rs.len() as int) =~= Seq::<Seq<u8>>::empty());
        assert(rs.drop_last() =~= Seq::<Seq<u8>>::empty());
        assert(concat_records(rs.drop_last()) == Seq::<u8>::empty());
        assert(concat_records(rs.subrange(1, rs.len() as int)) == Seq::<u8>::empty());
        assert(rs.last() == rs[0]);
        assert(concat_records(rs) =~= rs[0] + concat_records(rs.subrange(1, rs.len() as int)));
    }
}

/// Where the `k`-th of the records `rs` starts when they are laid end to end.
pub open spec fn record_start(rs: Seq<Seq<u8>>, k: int) -> int {
    concat_records(rs.take(k)).len() as int
}

/// Well-formed directory records laid end to end at `base` in `o` are parsed back
/// one by one: the parser finds each where it was written.
proof fn lemma_parse_records(o: Seq<u8>, base: int, rs: Seq<Seq<u8>>)
    requires
        0 <= base,
        base + concat_records(rs).len() <= o.len(),
        o.subrange(base, base + concat_records(rs).len()) == concat_records(rs),
        forall|k: int| 0 <= k < rs.len() ==> well_formed_cd_record(#[trigger] rs[k]),
    ensures
        cd_positions(o, base, rs.len()).len() == rs.len(),
        forall|k: int|
            0 <= k < rs.len() ==> #[trigger] cd_positions(o, base, rs.len())[k] == base
                + record_start(rs, k),
    decreases rs.len(),
{
    if rs.len() > 0 {
        lemma_concat_front(rs);
        let r = rs[0];
        let rest = rs.subrange(1, rs.len() as int);
        let all = concat_records(rs);
        assert(well_formed_cd_record(r));
        assert(all.subrange(0, r.len() as int) =~= r);
        assert forall|i: int| 0 <= i < r.len() implies o[base + i] == #[trigger] r[i] by {
            assert(o[base + i] == o.subrange(base, base + all.len())[i]);
            assert(all[i] == r[i]);
        }
        assert(is_cd_sig(o, base));
        assert(cd_entry_start(o, base) == Some(base));
        assert(le16(o, base + 28) == le16(r, 28));
        assert(le16(o, base + 30) == le16(r, 30));
        assert(le16(o, base + 32) == le16(r, 32));
        assert(cd_var_end(o, base) == base + r.len());
        let nb = base + r.len();
        assert(concat_records(rest) =~= all.subrange(r.len() as int, all.len() as int));
        assert(o.subrange(nb, nb + concat_records(rest).len()) =~= concat_records(rest)) by {
            assert forall|i: int| 0 <= i < concat_records(rest).len() implies o.subrange(
                nb,
                nb + concat_records(rest).len(),
            )[i] == concat_records(rest)[i] by {
                assert(o[nb + i] == o.subrange(base, base + all.len())[r.len() + i]);
            }
        }
        assert forall|k: int| 0 <= k < rest.len() implies well_formed_cd_record(#[trigger] rest[k]) by {
            assert(rest[k] == rs[k + 1]);
        }
        lemma_parse_records(o, nb, rest);
        let ps = cd_positions(o, base, rs.len());
        let tail = cd_positions(o, nb, rest.len());
        assert(ps == seq![base] + tail);
        assert forall|k: int| 0 <= k < rs.len() implies #[trigger] ps[k] == base + record_start(rs, k) by {
            if k == 0 {
                assert(rs.take(0) =~= Seq::<Seq<u8>>::empty());
            } else {
                assert(ps[k] == tail[k - 1]);
                lemma_concat_front(rs.take(k));
                assert(rs.take(k)[0] == r);
                assert(rs.take(k).subrange(1, k) =~= rest.take(k - 1));
            }
        }
    }
}

/// The first `m` records laid end to end begin the whole run, and the `k`-th record
/// stands at its start.
proof fn lemma_concat_prefix(rs: Seq<Seq<u8>>, m: int)
    requires
        0 <= m <= rs.len(),
    ensures
        concat_records(rs.take(m)).len() <= concat_records(rs).len(),
        concat_records(rs).subrange(0, concat_records(rs.take(m)).len() as int) == concat_records(
            rs.take(m),
        ),
    decreases rs.len(),
{
    if m == rs.len() {
        assert(rs.take(m) =~= rs);
    } else {
        let init = rs.drop_last();
        lemma_concat_prefix(init, m);
        assert(init.take(m) =~= rs.take(m));
        assert(concat_records(rs) == concat_records(init) + rs.last());
        assert(concat_records(rs).subrange(0, concat_records(rs.take(m)).len() as int) =~= concat_records(
            init,
        ).subrange(0, concat_records(rs.take(m)).len() as int));
    }
}

/// The `k`-th record stands at `record_start(rs, k)` in the records laid end to end.
proof fn lemma_record_at(rs: Seq<Seq<u8>>, k: int)
    requires
        0 <= k < rs.len(),
    ensures
        record_start(rs, k) + rs[k].len() <= concat_records(rs).len(),
        concat_records(rs).subrange(record_start(rs, k), record_start(rs, k) + rs[k].len())
            == rs[k],
{
    lemma_concat_prefix(rs, k + 1);
    let t = rs.take(k + 1);
    assert(t.drop_last() =~= rs.take(k));
    assert(t.last() == rs[k]);
    assert(concat_records(t) == concat_records(rs.take(k)) + rs[k]);
    let a = record_start(rs, k);
    assert(concat_records(rs).subrange(a, a + rs[k].len()) =~= concat_records(t).subrange(
        a,
        a + rs[k].len(),
    ));
    assert(concat_records(t).subrange(a, a + rs[k].len()) =~= rs[k]);
}

/// A repaired archive that stays within 4 GiB, has fewer than 65536 entries and
/// names of at most 65535 bytes reads back through the scanner: the directory
/// entries it parses stand where the directory records were written, in order,
/// each holding exactly the record written.
pub proof fn lemma_directory_reads_back(d: Seq<u8>, es: Seq<RepairedEntryModel>)
    requires
        zip_output(d, es).len() <= u32::MAX,
        es.len() <= 0xFFFF,
        forall|i: int| 0 <= i < es.len() ==> (#[trigger] es[i]).filename.len() <= 0xFFFF,
    ensures
        ({
            let o = zip_output(d, es);
            let l = lfh_phase(d, es);
            let rs = cd_records(es, l.lfh_offsets, l.recovered, es.len() as int);
            let ps = zip_cd_positions(o);
            &&& ps.len() == rs.len()
            &&& forall|k: int|
                0 <= k < rs.len() ==> #[trigger] ps[k] == l.bytes.len() + record_start(rs, k)
                    && 0 <= ps[k] && ps[k] + rs[k].len() <= o.len() && o.subrange(
                    ps[k],
                    ps[k] + rs[k].len(),
                ) == rs[k]
        }),
{
    let o = zip_output(d, es);
    let l = lfh_phase(d, es);
    let n = es.len() as int;
    lemma_lfh_phase_counts(d, es);
    let c = cd_phase(es, l.lfh_offsets, l.recovered, n);
    let rs = cd_records(es, l.lfh_offsets, l.recovered, n);
    lemma_cd_phase_is_records(es, l.lfh_offsets, l.recovered, n);
    lemma_scanner_finds_end_record(d, es);
    lemma_end_record_locates_directory(d, es);
    let p = o.len() - 22;
    let lb = l.bytes.len() as int;
    assert(zip_cd_positions(o) == cd_positions(o, lb, rs.len()));
    assert(o.subrange(lb, lb + concat_records(rs).len()) =~= concat_records(rs));
    assert forall|k: int| 0 <= k < rs.len() implies well_formed_cd_record(#[trigger] rs[k]) by {
        let j = choose|j: int| 0 <= j < n && #[trigger] rs[k] == cd_record(es[j], l.lfh_offsets[j]);
        lemma_cd_record_well_formed(es[j], l.lfh_offsets[j]);
    }
    lemma_parse_records(o, lb, rs);
    let ps = zip_cd_positions(o);
    assert forall|k: int| 0 <= k < rs.len() implies #[trigger] ps[k] == lb + record_start(rs, k)
        && 0 <= ps[k] && ps[k] + rs[k].len() <= o.len() && o.subrange(ps[k], ps[k] + rs[k].len())
        == rs[k] by {
        lemma_record_at(rs, k);
        let a = record_start(rs, k);
        assert(o.subrange(lb + a, lb + a + rs[k].len()) =~= concat_records(rs).subrange(
            a,
            a + rs[k].len(),
        ));
    }
}

/// The Local File Header written for `e`, followed by its data copied from `d`.
pub open spec fn entry_block(d: Seq<u8>, e: RepairedEntryModel) -> Seq<u8> {
    lfh_record(e) + d.subrange(e.data_offset as int, e.data_offset as int + e.compressed_size)
}

/// While the headers and data written stay within 4 GiB, each entry that was
/// written stands, header and data, at the offset recorded for it.
proof fn lemma_blocks_in_place(d: Seq<u8>, es: Seq<RepairedEntryModel>)
    requires
        lfh_phase(d, es).bytes.len() <= u32::MAX,
    ensures
        forall|i: int|
            0 <= i < es.len() && entry_fits(d, #[trigger] es[i]) ==> {
                let o = lfh_phase(d, es).lfh_offsets[i] as int;
                &&& o + entry_block(d, es[i]).len() <= lfh_phase(d, es).bytes.len()
                &&& lfh_phase(d, es).bytes.subrange(o, o + entry_block(d, es[i]).len())
                    == entry_block(d, es[i])
            },
    decreases es.len(),
{
    lemma_directory_points_at_headers(d, es);
    if es.len() > 0 {
        let prev_es = es.drop_last();
        let prev = lfh_phase(d, prev_es);
        let cur = lfh_phase(d, es);
        let e = es.last();
        assert(prev.bytes.len() <= cur.bytes.len());
        lemma_blocks_in_place(d, prev_es);
        lemma_directory_points_at_headers(d, prev_es);
        assert forall|i: int| 0 <= i < es.len() && entry_fits(d, #[trigger] es[i]) implies {
            let o = cur.lfh_offsets[i] as int;
            &&& o + entry_block(d, es[i]).len() <= cur.bytes.len()
            &&& cur.bytes.subrange(o, o + entry_block(d, es[i]).len()) == entry_block(d, es[i])
        } by {
            if i < es.len() - 1 {
                assert(es[i] == prev_es[i]);
                assert(cur.lfh_offsets[i] == prev.lfh_offsets[i]);
                let o = prev.lfh_offsets[i] as int;
                assert(cur.bytes.subrange(o, o + entry_block(d, es[i]).len()) =~= prev.bytes.subrange(
                    o,
                    o + entry_block(d, es[i]).len(),
                ));
            } else {
                assert(cur.lfh_offsets[i] == prev.offset);
                assert(cur.bytes =~= prev.bytes + entry_block(d, e));
                assert(cur.bytes.subrange(
                    prev.bytes.len() as int,
                    (prev.bytes.len() + entry_block(d, e).len()) as int,
                ) =~= entry_block(d, e));
            }
        }
    }
}

/// When every entry fits, every entry is recovered, in order.
proof fn lemma_all_fit_recovered(d: Seq<u8>, es: Seq<RepairedEntryModel>)
    requires
        forall|i: int| 0 <= i < es.len() ==> entry_fits(d, #[trigger] es[i]),
    ensures
        lfh_phase(d, es).recovered == Seq::new(es.len(), |i: int| entry_name(es[i])),
        forall|i: int|
            0 <= i < es.len() ==> lfh_phase(d, es).recovered.contains(entry_name(#[trigger] es[i])),
    decreases es.len(),
{
    if es.len() > 0 {
        let prev_es = es.drop_last();
        assert forall|i: int| 0 <= i < prev_es.len() implies entry_fits(d, #[trigger] prev_es[i]) by {
            assert(prev_es[i] == es[i]);
        }
        lemma_all_fit_recovered(d, prev_es);
        assert(entry_fits(d, es[es.len() - 1]));
        assert(lfh_phase(d, es).recovered =~= Seq::new(es.len(), |i: int| entry_name(es[i])));
    }
    let r = lfh_phase(d, es).recovered;
    assert forall|i: int| 0 <= i < es.len() implies r.contains(entry_name(#[trigger] es[i])) by {
        assert(r[i] == entry_name(es[i]));
    }
}

/// When the name of each of the first `n` entries is among the recovered names,
/// the directory holds one record for each of them, in order.
proof fn lemma_all_records(
    es: Seq<RepairedEntryModel>,
    offs: Seq<u32>,
    recovered: Seq<Seq<char>>,
    n: int,
)
    requires
        0 <= n <= es.len(),
        n <= offs.len(),
        forall|i: int| 0 <= i < n ==> recovered.contains(entry_name(#[trigger] es[i])),
    ensures
        cd_records(es, offs, recovered, n) == Seq::new(n as nat, |k: int| cd_record(es[k], offs[k])),
    decreases n,
{
    if n > 0 {
        lemma_all_records(es, offs, recovered, n - 1);
        assert(recovered.contains(entry_name(es[n - 1])));
        assert(cd_records(es, offs, recovered, n) =~= Seq::new(
            n as nat,
            |k: int| cd_record(es[k], offs[k]),
        ));
    }
}

/// Every entry's data lies within the input and its name takes at most 65535 bytes.
pub open spec fn entries_fit(d: Seq<u8>, es: Seq<RepairedEntryModel>) -> bool {
    forall|i: int|
        0 <= i < es.len() ==> (#[trigger] es[i]).filename.len() <= 0xFFFF && entry_fits(d, es[i])
}

/// What reading the `k`-th entry back finds, when its directory record stands at `q`
/// in `o`: the entry's name, CRC-32 and compressed size, and a pointer to a complete
/// Local File Header with that name, followed by the entry's bytes copied from `d`.
pub open spec fn entry_read_back(d: Seq<u8>, o: Seq<u8>, q: int, e: RepairedEntryModel) -> bool {
    let off = le32(o, q + 42);
    let ds = lfh_data_start(o, off);
    &&& o.subrange(q + 46, q + 46 + le16(o, q + 28)) == e.filename
    &&& le32(o, q + 16) == e.crc32
    &&& le32(o, q + 20) == e.compressed_size
    &&& lfh_fits(o, off)
    &&& o.subrange(off + 30, off + 30 + le16(o, off + 26)) == e.filename
    &&& ds + e.compressed_size <= o.len()
    &&& o.subrange(ds, ds + e.compressed_size) == d.subrange(
        e.data_offset as int,
        e.data_offset as int + e.compressed_size,
    )
}

/// When every entry fits, the directory records written are one per entry, in order.
proof fn lemma_all_fit_cd_records(d: Seq<u8>, es: Seq<RepairedEntryModel>)
    requires
        entries_fit(d, es),
    ensures
        ({
            let l = lfh_phase(d, es);
            let rs = cd_records(es, l.lfh_offsets, l.recovered, es.len() as int);
            &&& l.lfh_offsets.len() == es.len()
            &&& rs.len() == es.len()
            &&& forall|k: int| 0 <= k < es.len() ==> #[trigger] rs[k] == cd_record(es[k], l.lfh_offsets[k])
        }),
{
    let l = lfh_phase(d, es);
    lemma_lfh_phase_counts(d, es);
    assert forall|i: int| 0 <= i < es.len() implies entry_fits(d, #[trigger] es[i]) by {
        assert(es[i].filename.len() <= 0xFFFF && entry_fits(d, es[i]));
    }
    lemma_all_fit_recovered(d, es);
    lemma_all_records(es, l.lfh_offsets, l.recovered, es.len() as int);
}

/// When every entry fits, the directory parsed back holds, at each position, the
/// record written for the entry of the same index.
proof fn lemma_positions_hold_records(d: Seq<u8>, es: Seq<RepairedEntryModel>)
    requires
        zip_output(d, es).len() <= u32::MAX,
        es.len() <= 0xFFFF,
        entries_fit(d, es),
    ensures
        ({
            let o = zip_output(d, es);
            let offs = lfh_phase(d, es).lfh_offsets;
            let ps = zip_cd_positions(o);
            &&& offs.len() == es.len()
            &&& ps.len() == es.len()
            &&& forall|k: int|
                0 <= k < es.len() ==> 0 <= #[trigger] ps[k] && ps[k] + cd_record(es[k], offs[k]).len()
                    <= o.len() && o.subrange(ps[k], ps[k] + cd_record(es[k], offs[k]).len())
                    == cd_record(es[k], offs[k])
        }),
{
    let o = zip_output(d, es);
    let l = lfh_phase(d, es);
    let n = es.len() as int;
    let offs = l.lfh_offsets;
    let rs = cd_records(es, offs, l.recovered, n);
    lemma_all_fit_cd_records(d, es);
    let ps = zip_cd_positions(o);
    assert(ps.len() == rs.len() && forall|k: int|
        0 <= k < rs.len() ==> 0 <= #[trigger] ps[k] && ps[k] + rs[k].len() <= o.len() && o.subrange(
            ps[k],
            ps[k] + rs[k].len(),
        ) == rs[k]) by {
        lemma_directory_reads_back(d, es);
    }
    assert forall|k: int| 0 <= k < n implies 0 <= #[trigger] ps[k] && ps[k] + cd_record(es[k], offs[k]).len()
        <= o.len() && o.subrange(ps[k], ps[k] + cd_record(es[k], offs[k]).len()) == cd_record(
        es[k],
        offs[k],
    ) by {
        assert(rs[k] == cd_record(es[k], offs[k]));
    }
}

/// The repaired archive begins with the headers and data written in the first phase.
proof fn lemma_output_starts_with_headers(d: Seq<u8>, es: Seq<RepairedEntryModel>)
    ensures
        lfh_phase(d, es).bytes.len() <= zip_output(d, es).len(),
        zip_output(d, es).subrange(0, lfh_phase(d, es).bytes.len() as int) == lfh_phase(d, es).bytes,
{
    reveal(zip_output);
    let l = lfh_phase(d, es);
    let c = cd_phase(es, l.lfh_offsets, l.recovered, es.len() as int);
    let o = zip_output(d, es);
    assert(o == l.bytes + c.bytes + eocd_record(c.count, c.size, l.offset));
    assert(o.subrange(0, l.bytes.len() as int) =~= l.bytes);
}

/// When every entry fits, each entry's header and data stand in the repaired
/// archive at the offset recorded for it.
proof fn lemma_blocks_in_output(d: Seq<u8>, es: Seq<RepairedEntryModel>)
    requires
        zip_output(d, es).len() <= u32::MAX,
        entries_fit(d, es),
    ensures
        ({
            let o = zip_output(d, es);
            let offs = lfh_phase(d, es).lfh_offsets;
            forall|k: int|
                0 <= k < es.len() ==> #[trigger] offs[k] + entry_block(d, es[k]).len() <= o.len()
                    && o.subrange(offs[k] as int, offs[k] + entry_block(d, es[k]).len())
                    == entry_block(d, es[k])
        }),
{
    let o = zip_output(d, es);
    let l = lfh_phase(d, es);
    let lb = l.bytes;
    let offs = l.lfh_offsets;
    lemma_output_starts_with_headers(d, es);
    assert(lb.len() <= u32::MAX);
    lemma_blocks_in_place(d, es);
    assert forall|k: int| 0 <= k < es.len() implies #[trigger] offs[k] + entry_block(d, es[k]).len()
        <= o.len() && o.subrange(offs[k] as int, offs[k] + entry_block(d, es[k]).len())
        == entry_block(d, es[k]) by {
        let w = offs[k] as int;
        let blk = entry_block(d, es[k]);
        assert(entry_fits(d, es[k]));
        assert(w + blk.len() <= lb.len() && lb.subrange(w, w + blk.len()) == blk);
        lemma_piece(o, 0, lb, w, w + blk.len());
    }
}

/// Each entry reads back from records and blocks that stand where they were written.
proof fn lemma_entries_read_back(
    d: Seq<u8>,
    o: Seq<u8>,
    es: Seq<RepairedEntryModel>,
    offs: Seq<u32>,
    ps: Seq<int>,
)
    requires
        entries_fit(d, es),
        offs.len() == es.len(),
        ps.len() == es.len(),
        forall|k: int|
            0 <= k < es.len() ==> 0 <= #[trigger] ps[k] && ps[k] + cd_record(es[k], offs[k]).len()
                <= o.len() && o.subrange(ps[k], ps[k] + cd_record(es[k], offs[k]).len()) == cd_record(
                es[k],
                offs[k],
            ),
        forall|k: int|
            0 <= k < es.len() ==> #[trigger] offs[k] + entry_block(d, es[k]).len() <= o.len()
                && o.subrange(offs[k] as int, offs[k] + entry_block(d, es[k]).len()) == entry_block(
                d,
                es[k],
            ),
    ensures
        forall|k: int| 0 <= k < es.len() ==> entry_read_back(d, o, #[trigger] ps[k], es[k]),
{
    assert forall|k: int| 0 <= k < es.len() implies entry_read_back(d, o, #[trigger] ps[k], es[k]) by {
        assert(es[k].filename.len() <= 0xFFFF && entry_fits(d, es[k]));
        assert(offs[k] + entry_block(d, es[k]).len() <= o.len());
        lemma_entry_reads_back(d, o, es[k], ps[k], offs[k]);
    }
}

/// A repaired archive reads back through the scanner as the entries it was written
/// from, when every entry's data lies within the input, there are fewer than 65536
/// entries with names of at most 65535 bytes, and the output stays within 4 GiB.
/// The End of Central Directory record found is the last one written and announces
/// every entry, with the directory ending where that record starts; the `k`-th
/// directory entry parsed holds the `k`-th entry's name, CRC-32 and compressed size,
/// and points at a complete Local File Header with that name, followed by the
/// entry's bytes copied from the input (`entry_read_back`).
pub proof fn lemma_written_archive_reads_back(d: Seq<u8>, es: Seq<RepairedEntryModel>)
    requires
        zip_output(d, es).len() <= u32::MAX,
        es.len() <= 0xFFFF,
        entries_fit(d, es),
    ensures
        ({
            let o = zip_output(d, es);
            let p = o.len() - 22;
            let ps = zip_cd_positions(o);
            &&& last_eocd(o) == Some(p)
            &&& le16(o, p + 10) == es.len()
            &&& le32(o, p + 16) + le32(o, p + 12) == p
            &&& ps.len() == es.len()
            &&& forall|k: int| 0 <= k < es.len() ==> entry_read_back(d, o, #[trigger] ps[k], es[k])
        }),
{
    let o = zip_output(d, es);
    let l = lfh_phase(d, es);
    let n = es.len() as int;
    let offs = l.lfh_offsets;
    let p = o.len() - 22;
    let c = cd_phase(es, offs, l.recovered, n);
    assert(le16(o, p + 10) == c.count && last_eocd(o) == Some(p) && le32(o, p + 16) + le32(o, p + 12)
        == p) by {
        lemma_scanner_finds_end_record(d, es);
    }
    assert(c.count == n) by {
        lemma_all_fit_cd_records(d, es);
        lemma_cd_phase_is_records(es, offs, l.recovered, n);
    }
    lemma_positions_hold_records(d, es);
    lemma_blocks_in_output(d, es);
    lemma_entries_read_back(d, o, es, offs, zip_cd_positions(o));
}

/// Where the fields of a directory record lie within it.
#[verifier::rlimit(40)]
proof fn lemma_cd_record_layout(e: RepairedEntryModel, w: u32)
    requires
        e.filename.len() <= 0xFFFF,
    ensures
        cd_record(e, w).len() == 46 + e.filename.len(),
        cd_record(e, w).subrange(16, 20) == le32_bytes(e.crc32 as int),
        cd_record(e, w).subrange(20, 24) == le32_bytes(e.compressed_size as int),
        cd_record(e, w).subrange(28, 30) == le16_bytes(e.filename.len() as int),
        cd_record(e, w).subrange(42, 46) == le32_bytes(w as int),
        cd_record(e, w).subrange(46, 46 + e.filename.len() as int) == e.filename,
{
    let r = cd_record(e, w);
    assert((e.filename.len() as u16) as int == e.filename.len());
    assert(r.subrange(16, 20) =~= le32_bytes(e.crc32 as int));
    assert(r.subrange(20, 24) =~= le32_bytes(e.compressed_size as int));
    assert(r.subrange(28, 30) =~= le16_bytes(e.filename.len() as int));
    assert(r.subrange(42, 46) =~= le32_bytes(w as int));
    assert(r.subrange(46, 46 + e.filename.len() as int) =~= e.filename);
}

/// Where the fields of an entry's header and its data lie within its block.
#[verifier::rlimit(40)]
proof fn lemma_entry_block_layout(d: Seq<u8>, e: RepairedEntryModel)
    requires
        e.filename.len() <= 0xFFFF,
        entry_fits(d, e),
    ensures
        entry_block(d, e).len() == 30 + e.filename.len() + e.compressed_size,
        entry_block(d, e).subrange(0, 4) == seq![0x50u8, 0x4Bu8, 0x03u8, 0x04u8],
        entry_block(d, e).subrange(26, 28) == le16_bytes(e.filename.len() as int),
        entry_block(d, e).subrange(28, 30) == le16_bytes(0),
        entry_block(d, e).subrange(30, 30 + e.filename.len() as int) == e.filename,
        entry_block(d, e).subrange(
            30 + e.filename.len() as int,
            entry_block(d, e).len() as int,
        ) == d.subrange(e.data_offset as int, e.data_offset as int + e.compressed_size),
{
    let r = lfh_record(e);
    let b = entry_block(d, e);
    let nl = e.filename.len() as int;
    assert((e.filename.len() as u16) as int == nl);
    assert(r.len() == 30 + nl);
    assert(r.subrange(0, 4) =~= seq![0x50u8, 0x4Bu8, 0x03u8, 0x04u8]);
    assert(r.subrange(26, 28) =~= le16_bytes(nl));
    assert(r.subrange(28, 30) =~= le16_bytes(0));
    assert(r.subrange(30, 30 + nl) =~= e.filename);
    assert(b.subrange(0, 4) =~= r.subrange(0, 4));
    assert(b.subrange(26, 28) =~= r.subrange(26, 28));
    assert(b.subrange(28, 30) =~= r.subrange(28, 30));
    assert(b.subrange(30, 30 + nl) =~= r.subrange(30, 30 + nl));
    assert(b.subrange(30 + nl, b.len() as int) =~= d.subrange(
        e.data_offset as int,
        e.data_offset as int + e.compressed_size,
    ));
}

/// `o` holds `r` at `at`, so it holds each piece of `r` at the matching place.
proof fn lemma_piece(o: Seq<u8>, at: int, r: Seq<u8>, i: int, j: int)
    requires
        0 <= at,
        at + r.len() <= o.len(),
        o.subrange(at, at + r.len()) == r,
        0 <= i <= j <= r.len(),
    ensures
        o.subrange(at + i, at + j) == r.subrange(i, j),
{
    assert(o.subrange(at + i, at + j) =~= r.subrange(i, j)) by {
        assert forall|t: int| 0 <= t < j - i implies o.subrange(at + i, at + j)[t] == r.subrange(
            i,
            j,
        )[t] by {
            assert(o[at + i + t] == o.subrange(at, at + r.len())[i + t]);
        }
    }
}

/// One entry read back: a directory record for `e` at `q` that points at `w`, where
/// the entry's header and data stand.
proof fn lemma_entry_reads_back(d: Seq<u8>, o: Seq<u8>, e: RepairedEntryModel, q: int, w: u32)
    requires
        e.filename.len() <= 0xFFFF,
        entry_fits(d, e),
        0 <= q,
        q + cd_record(e, w).len() <= o.len(),
        o.subrange(q, q + cd_record(e, w).len()) == cd_record(e, w),
        w + entry_block(d, e).len() <= o.len(),
        o.subrange(w as int, w + entry_block(d, e).len()) == entry_block(d, e),
    ensures
        entry_read_back(d, o, q, e),
{
    let rec = cd_record(e, w);
    let nl = e.filename.len() as int;
    lemma_cd_record_layout(e, w);
    lemma_piece(o, q, rec, 16, 20);
    lemma_piece(o, q, rec, 20, 24);
    lemma_piece(o, q, rec, 28, 30);
    lemma_piece(o, q, rec, 42, 46);
    lemma_piece(o, q, rec, 46, 46 + nl);
    lemma_le16_reads_back(o, q + 28, nl);
    lemma_le32_reads_back(o, q + 16, e.crc32 as int);
    lemma_le32_reads_back(o, q + 20, e.compressed_size as int);
    lemma_le32_reads_back(o, q + 42, w as int);
    let off = w as int;
    let blk = entry_block(d, e);
    lemma_entry_block_layout(d, e);
    lemma_piece(o, off, blk, 0, 4);
    lemma_piece(o, off, blk, 26, 28);
    lemma_piece(o, off, blk, 28, 30);
    lemma_piece(o, off, blk, 30, 30 + nl);
    lemma_piece(o, off, blk, 30 + nl, blk.len() as int);
    assert(o[off] == 0x50u8 && o[off + 1] == 0x4Bu8 && o[off + 2] == 0x03u8 && o[off + 3] == 0x04u8) by {
        assert(o[off] == o.subrange(off, off + 4)[0]);
        assert(o[off + 1] == o.subrange(off, off + 4)[1]);
        assert(o[off + 2] == o.subrange(off, off + 4)[2]);
        assert(o[off + 3] == o.subrange(off, off + 4)[3]);
    }
    lemma_le16_reads_back(o, off + 26, nl);
    lemma_le16_reads_back(o, off + 28, 0);
    assert(lfh_data_start(o, off) == off + 30 + nl);
}

// ---- Exec helpers -----------------------------------------------------------------

fn push_lfh_record(out: &mut Vec<u8>, e: &RepairedEntry)
    ensures
        final(out)@ == old(out)@ + lfh_record(e@),
{
    let ghost init = out@;
    out.push(0x50);
    out.push(0x4B);
    out.push(0x03);
    out.push(0x04);
    push_le16(out, 20);
    push_le16(out, 0);
    push_le16(out, e.compression_method);
    push_le16(out, e.last_mod_time);
    push_le16(out, e.last_mod_date);
    push_le32(out, e.crc32);
    push_le32(out, e.compressed_size);
    push_le32(out, e.uncompressed_size);
    push_le16(out, #[verifier::truncate] (e.filename.len() as u16));
    push_le16(out, 0);
    let n = e.filename.len();
    append_range(out, e.filename.as_slice(), 0, n);
    assert(e.filename@.subrange(0, n as int) =~= e.filename@);
    assert(out@ =~= init + lfh_record(e@));
}

fn push_cd_record(out: &mut Vec<u8>, e: &RepairedEntry, lfh_offset: u32)
    ensures
        final(out)@ == old(out)@ + cd_record(e@, lfh_offset),
{
    let ghost init = out@;
    out.push(0x50);
    out.push(0x4B);
    out.push(0x01);
    out.push(0x02);
    push_le16(out, 20);
    push_le16(out, 20);
    push_le16(out, 0);
    push_le16(out, e.compression_method);
    push_le16(out, e.last_mod_time);
    push_le16(out, e.last_mod_date);
    push_le32(out, e.crc32);
    push_le32(out, e.compressed_size);
    push_le32(out, e.uncompressed_size);
    push_le16(out, #[verifier::truncate] (e.filename.len() as u16));
    push_le16(out, 0);
    push_le16(out, 0);
    push_le16(out, 0);
    push_le16(out, 0);
    push_le32(out, 0);
    push_le32(out, lfh_offset);
    let n = e.filename.len();
    append_range(out, e.filename.as_slice(), 0, n);
    assert(e.filename@.subrange(0, n as int) =~= e.filename@);
    assert(out@ =~= init + cd_record(e@, lfh_offset));
}

fn push_eocd_record(out: &mut Vec<u8>, count: u16, size: u32, start: u32)
    ensures
        final(out)@ == old(out)@ + eocd_record(count, size, start),
{
    let ghost init = out@;
    out.push(0x50);
    out.push(0x4B);
    out.push(0x05);
    out.push(0x06);
    push_le16(out, 0);
    push_le16(out, 0);
    push_le16(out, count);
    push_le16(out, count);
    push_le32(out, size);
    push_le32(out, start);
    push_le16(out, 0);
    assert(out@ =~= init + eocd_record(count, size, start));
}

/// Whether `names` holds a string equal to `name`.
pub(crate) fn contains_name(names: &Vec<String>, name: &String) -> (r: bool)
    ensures
        r == strings_view(names@).contains(name@),
{
    let mut i: usize = 0;
    while i < names.len()
        invariant
            i <= names.len(),
            forall|j: int| 0 <= j < i ==> names@[j]@ != name@,
        decreases names.len() - i,
    {
        if names[i] == *name {
            assert(strings_view(names@)[i as int] == name@);
            return true;
        }
        i = i + 1;
    }
    assert forall|j: int| 0 <= j < strings_view(names@).len() implies strings_view(names@)[j]
        != name@ by {
        assert(strings_view(names@)[j] == names@[j]@);
    }
    false
}

// ---- The repairer -----------------------------------------------------------------

/// Rebuilds the Central Directory of a damaged ZIP archive and writes a repaired copy.
pub struct ZipRepairer;

impl ZipRepairer {
    /// Reconstruct Central Directory from discovered Local File Headers.
    /// Offsets at which no complete header lies are skipped.
    pub fn reconstruct_cd(data: &[u8], lfh_offsets: &[u64]) -> (cd_entries: Vec<CdEntry>)
        ensures
            cd_entries.len() == parseable_offsets(data@, lfh_offsets@).len(),
            forall|i: int|
                0 <= i < cd_entries.len() ==> cd_rebuilt(
                    #[trigger] cd_entries@[i],
                    data@,
                    parseable_offsets(data@, lfh_offsets@)[i],
                ),
            forall|i: int|
                0 <= i < cd_entries.len() ==> covers_stored_bytes(
                    data@,
                    parseable_offsets(data@, lfh_offsets@)[i] as int,
                    (#[trigger] cd_entries@[i]).compressed_size,
                ),
    {
        let mut cd_entries: Vec<CdEntry> = Vec::new();
        let mut i: usize = 0;
        while i < lfh_offsets.len()
            invariant
                i <= lfh_offsets.len(),
                cd_entries.len() == parseable_offsets(data@, lfh_offsets@.take(i as int)).len(),
                forall|j: int|
                    0 <= j < cd_entries.len() ==> cd_rebuilt(
                        #[trigger] cd_entries@[j],
                        data@,
                        parseable_offsets(data@, lfh_offsets@.take(i as int))[j],
                    ),
            decreases lfh_offsets.len() - i,
        {
            let offset = lfh_offsets[i];
            assert(lfh_offsets@.take(i + 1).drop_last() =~= lfh_offsets@.take(i as int));
            assert(lfh_offsets@.take(i + 1).last() == offset);
            let ghost prev = parseable_offsets(data@, lfh_offsets@.take(i as int));
            match ZipScanner::parse_lfh(data, offset) {
                Some(lfh) => {
                    assert(parseable_offsets(data@, lfh_offsets@.take(i + 1)) == prev.push(offset));
                    assert(lfh.data_offset as int == lfh_data_start(data@, offset as int));
                    let compressed_size = if lfh.compressed_size == 0 {
                        let inferred = Self::infer_data_size(data, lfh.data_offset);
                        assert(inferred == inferred_size(data@, lfh_data_start(data@, offset as int)));
                        if inferred > u32::MAX as u64 {
                            u32::MAX
                        } else {
                            inferred as u32
                        }
                    } else {
                        lfh.compressed_size
                    };
                    cd_entries.push(
                        CdEntry {
                            version_made_by: 20,
                            version_needed: lfh.version_needed,
                            flags: lfh.flags,
                            compression_method: lfh.compression_method,
                            last_mod_time: lfh.last_mod_time,
                            last_mod_date: lfh.last_mod_date,
                            crc32: lfh.crc32,
                            compressed_size,
                            uncompressed_size: lfh.uncompressed_size,
                            filename: lfh.filename,
                            extra_field: lfh.extra_field,
                            comment: Vec::new(),
                            disk_number_start: 0,
                            internal_attrs: 0,
                            external_attrs: 0,
                            local_header_offset: #[verifier::truncate] (offset as u32),
                        },
                    );
                    let ghost e = cd_entries@[cd_entries.len() - 1];
                    let ghost o = offset as int;
                    assert(e.compressed_size == (if le32(data@, o + 18) == 0 {
                        capped_u32(inferred_size(data@, lfh_data_start(data@, o)))
                    } else {
                        le32(data@, o + 18) as u32
                    }));
                    assert(e.comment@ == Seq::<u8>::empty());
                    
                    assert(cd_rebuilt(cd_entries@[cd_entries.len() - 1], data@, offset));
                },
                None => {
                    assert(parseable_offsets(data@, lfh_offsets@.take(i + 1)) == prev);
                },
            }
            i = i + 1;
        }
        assert(lfh_offsets@.take(i as int) =~= lfh_offsets@);
        assert forall|k: int| 0 <= k < cd_entries.len() implies covers_stored_bytes(
            data@,
            parseable_offsets(data@, lfh_offsets@)[k] as int,
            (#[trigger] cd_entries@[k]).compressed_size,
        ) by {
            lemma_rebuilt_size_covers_stored_bytes(
                cd_entries@[k],
                data@,
                parseable_offsets(data@, lfh_offsets@)[k],
            );
        }
        cd_entries
    }

    /// Infer compressed data size when the size field is invalid.
    /// Scans forward for next LFH signature, CD signature, EOCD signature, or EOF.
    pub fn infer_data_size(data: &[u8], data_start: u64) -> (size: u64)
        ensures
            size == inferred_size(data@, data_start as int),
    {
        if data_start >= data.len() as u64 {
            return 0;
        }
        let start = data_start as usize;
        let ghost d = data@;
        let mut q = start;
        while data.len() - q > 3
            invariant
                start <= q <= data.len(),
                start < data.len(),
                start == data_start,
                d == data@,
                forall|r: int| start <= r < q ==> !#[trigger] boundary_at(d)(r),
            decreases data.len() - q,
        {
            if has_sig(data, q, 0x50, 0x4B, 0x03, 0x04) || has_sig(data, q, 0x50, 0x4B, 0x01, 0x02)
                || has_sig(data, q, 0x50, 0x4B, 0x05, 0x06) {
                proof {
                    lemma_first_where_found(start as int, q as int, d.len() - 3, boundary_at(d));
                    assert(first_where(start as int, d.len() - 3, boundary_at(d)) == Some(q as int));
                    assert(inferred_size(d, start as int) == q - start);
                }
                return (q - start) as u64;
            }
            q = q + 1;
        }
        proof {
            lemma_first_where_none(start as int, d.len() - 3, boundary_at(d));
        }
        (data.len() - start) as u64
    }

    /// Recalculate CRC-32 for an entry's decompressed data.
    /// - method 0 (STORED): data is uncompressed, compute CRC-32 directly
    /// - method 8 (DEFLATED): decompress, then compute CRC-32
    /// - Other methods: return None (unsupported compression)
    pub fn recalculate_crc32(compressed_data: &[u8], method: u16) -> (r: Option<u32>)
        ensures
            r == recomputed_crc(compressed_data@, method),
    {
        if method == 0 {
            Some(crc32(compressed_data))
        } else if method == 8 {
            match inflate(compressed_data) {
                Some(decompressed) => Some(crc32(decompressed.as_slice())),
                None => None,
            }
        } else {
            None
        }
    }

    /// Write a repaired ZIP archive to the output buffer.
    /// Copies valid file data, writes reconstructed CD and EOCD.
    /// Invokes progress_fn(current_step, total_steps, entry_name) for each entry processed.
    /// Returns ScanResult with recovered_entries and failed_entries.
    pub fn write_repaired<F: Fn(u32, u32, &str)>(
        data: &[u8],
        entries: &[RepairedEntry],
        writer: &mut Vec<u8>,
        progress_fn: F,
    ) -> (r: Result<ScanResult, RepairError>)
        requires
            forall|a: u32, b: u32, c: &str| progress_fn.requires((a, b, c)),
        ensures
            final(writer)@ == old(writer)@ + zip_output(data@, entries_view(entries@)),
            r is Ok,
            r matches Ok(s) ==> s@ == zip_write_result(data@, entries_view(entries@)),
    {
        let ghost init = writer@;
        let ghost d = data@;
        let ghost es = entries_view(entries@);
        let total_steps = #[verifier::truncate] (entries.len() as u32);
        let mut recovered_entries: Vec<String> = Vec::new();
        let mut failed_entries: Vec<String> = Vec::new();
        let mut lfh_output_offsets: Vec<u32> = Vec::new();
        let mut current_output_offset: u32 = 0;

        // Phase 1: Local File Headers and compressed data
        let mut idx: usize = 0;
        while idx < entries.len()
            invariant
                idx <= entries.len(),
                d == data@,
                es == entries_view(entries@),
                forall|a: u32, b: u32, c: &str| progress_fn.requires((a, b, c)),
                writer@ == init + lfh_phase(d, es.take(idx as int)).bytes,
                current_output_offset == lfh_phase(d, es.take(idx as int)).offset,
                lfh_output_offsets@ == lfh_phase(d, es.take(idx as int)).lfh_offsets,
                strings_view(recovered_entries@) == lfh_phase(d, es.take(idx as int)).recovered,
                strings_view(failed_entries@) == lfh_phase(d, es.take(idx as int)).failed,
            decreases entries.len() - idx,
        {
            let entry = &entries[idx];
            assert(es.take(idx + 1).drop_last() =~= es.take(idx as int));
            assert(es.take(idx + 1).last() == entry@);
            let entry_name = utf8_decode_lossy(entry.filename.as_slice());
            progress_fn((#[verifier::truncate] (idx as u32)).wrapping_add(1), total_steps, entry_name.as_str());

            let size = entry.compressed_size as usize;
            if entry.data_offset > data.len() as u64 || size > data.len() - entry.data_offset as usize {
                proof {
                    assert(!entry_fits(d, entry@));
                }
                failed_entries.push(entry_name);
                lfh_output_offsets.push(0);
                proof {
                    assert(strings_view(failed_entries@) =~= lfh_phase(d, es.take(idx + 1)).failed);
                    assert(lfh_output_offsets@ =~= lfh_phase(d, es.take(idx + 1)).lfh_offsets);
                }
            } else {
                let data_start = entry.data_offset as usize;
                lfh_output_offsets.push(current_output_offset);
                push_lfh_record(writer, entry);
                append_range(writer, data, data_start, data_start + size);
                let lfh_len = (#[verifier::truncate] (entry.filename.len() as u32)).wrapping_add(30);
                current_output_offset = current_output_offset.wrapping_add(
                    lfh_len.wrapping_add(entry.compressed_size),
                );
                recovered_entries.push(entry_name);
                proof {
                    assert(writer@ =~= init + lfh_phase(d, es.take(idx + 1)).bytes);
                    assert(strings_view(recovered_entries@) =~= lfh_phase(
                        d,
                        es.take(idx + 1),
                    ).recovered);
                    assert(lfh_output_offsets@ =~= lfh_phase(d, es.take(idx + 1)).lfh_offsets);
                }
            }
            idx = idx + 1;
        }
        assert(es.take(idx as int) =~= es);
        let ghost layout = lfh_phase(d, es);
        proof {
            lemma_lfh_phase_counts(d, es);
        }

        // Phase 2: Central Directory entries
        let cd_start_offset = current_output_offset;
        let mut cd_size: u32 = 0;
        let mut cd_entry_count: u16 = 0;
        let ghost after_lfh = writer@;
        let mut idx: usize = 0;
        while idx < entries.len()
            invariant
                idx <= entries.len(),
                es == entries_view(entries@),
                layout == lfh_phase(d, es),
                lfh_output_offsets@ == layout.lfh_offsets,
                lfh_output_offsets@.len() == es.len(),
                strings_view(recovered_entries@) == layout.recovered,
                writer@ == after_lfh + cd_phase(es, layout.lfh_offsets, layout.recovered, idx as int).bytes,
                cd_size == cd_phase(es, layout.lfh_offsets, layout.recovered, idx as int).size,
                cd_entry_count == cd_phase(es, layout.lfh_offsets, layout.recovered, idx as int).count,
            decreases entries.len() - idx,
        {
            let entry = &entries[idx];
            let entry_name = utf8_decode_lossy(entry.filename.as_slice());
            if contains_name(&recovered_entries, &entry_name) {
                let lfh_offset = lfh_output_offsets[idx];
                push_cd_record(writer, entry, lfh_offset);
                let cd_len = (#[verifier::truncate] (entry.filename.len() as u32)).wrapping_add(46);
                cd_size = cd_size.wrapping_add(cd_len);
                cd_entry_count = cd_entry_count.wrapping_add(1);
            }
            idx = idx + 1;
        }

        // Phase 3: End of Central Directory record
        push_eocd_record(writer, cd_entry_count, cd_size, cd_start_offset);
        proof {
            reveal(zip_output);
            assert(writer@ =~= init + zip_output(d, es));
        }

        let success = failed_entries.len() == 0 && recovered_entries.len() > 0;
        Ok(ScanResult { success, recovered_entries, failed_entries, repaired_path: None })
    }
}

} // verus!
