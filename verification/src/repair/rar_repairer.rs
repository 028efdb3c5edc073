//! Rewriting a damaged RAR archive: marker, archive header, header CRCs and data areas.

use vstd::prelude::*;

use crate::bytes::{append_range, copy_range, le16, le16_bytes, le32, le32_bytes, push_le16, push_le32};
use crate::checksum::{crc32, crc32_of};
use crate::text::{hex_upper, push_hex, push_str};
use super::models::{
    RarHeaderInfo, RarHeaderModel, RarVersion, RepairError, ScanResult, ScanResultModel,
    strings_view,
};
use super::rar_scanner::{
    detected_version, file_header_type, header_crc_ok, marker_here, marker_of, rar5_headers, rar5_step,
    rar_headers, rar_marker_at, scan_limit, vint, vint_acc, vint_len,
};
use crate::bytes::lemma_first_where_found;
use super::zip_repairer::contains_name;

verus! {

// ---- Header CRCs ------------------------------------------------------------------------

/// RAR4 header types are 0x70 and above (0x73 archive, 0x74 file); RAR5 types are
/// small integers (1 archive, 2 file).
pub open spec fn is_rar4_type(t: u8) -> bool {
    t >= 0x70
}

/// `d` with the bytes `b` written over it from position `at` on.
pub open spec fn splice(d: Seq<u8>, at: int, b: Seq<u8>) -> Seq<u8> {
    d.subrange(0, at) + b + d.subrange(at + b.len(), d.len() as int)
}

/// `d` after the CRC field of header `h` has been recomputed: for a RAR4 header the
/// low 16 bits of the CRC-32 of the bytes from its type field to its end, for a RAR5
/// header the CRC-32 of the bytes after its 4-byte CRC field. A header that does not
/// lie inside `d`, or has nothing after its CRC field, leaves `d` as it is.
pub open spec fn crc_fixed(d: Seq<u8>, h: RarHeaderModel) -> Seq<u8> {
    let o = h.offset as int;
    let e = o + h.header_size as int;
    if e > d.len() {
        d
    } else if is_rar4_type(h.header_type) {
        if o + 2 >= e {
            d
        } else {
            splice(d, o, le16_bytes((crc32_of(d.subrange(o + 2, e)) & 0xFFFF) as int))
        }
    } else {
        if o + 4 >= e {
            d
        } else {
            splice(d, o, le32_bytes(crc32_of(d.subrange(o + 4, e)) as int))
        }
    }
}

// ---- Archive header -----------------------------------------------------------------------

/// The body of a minimal RAR4 archive header: type 0x73, no flags, size 13, six
/// reserved zero bytes.
pub open spec fn rar4_archive_body() -> Seq<u8> {
    seq![0x73u8, 0u8, 0u8, 13u8, 0u8, 0u8, 0u8, 0u8, 0u8, 0u8, 0u8]
}

/// The body of a minimal RAR5 archive header: size 2, type 1, no flags.
pub open spec fn rar5_archive_body() -> Seq<u8> {
    seq![2u8, 1u8, 0u8]
}

/// The minimal archive header of version `v`, its CRC field in front of its body.
pub open spec fn archive_header_bytes(v: RarVersion) -> Seq<u8> {
    match v {
        RarVersion::Rar4 => le16_bytes((crc32_of(rar4_archive_body()) & 0xFFFF) as int)
            + rar4_archive_body(),
        RarVersion::Rar5 => le32_bytes(crc32_of(rar5_archive_body()) as int) + rar5_archive_body(),
    }
}

/// The header type of archive headers in version `v`.
pub open spec fn archive_header_type(v: RarVersion) -> u8 {
    match v {
        RarVersion::Rar4 => 0x73,
        RarVersion::Rar5 => 1,
    }
}

/// The variable-length integer at `off` is the single byte `b` (below 0x80).
proof fn lemma_one_byte_vint(d: Seq<u8>, off: int, b: u8)
    requires
        0 <= off < d.len(),
        d[off] == b,
        b < 0x80,
    ensures
        vint(d, off) == Some((b as u64, 1int)),
{
    assert(b & 0x80 == 0) by (bit_vector)
        requires
            b < 0x80,
    ;
    assert(vint_len(d, off, 0) == Some(1nat));
    assert(vint_acc(d, off, 0) == 0);
    assert((0u64 | (((b & 0x7F) as u64) << 0u32)) == b as u64) by (bit_vector)
        requires
            b < 0x80,
    ;
    assert(vint_acc(d, off, 1) == b as u64);
}

/// The headers that `reconstruct_archive_header` rebuilds (`archive_header_bytes`):
/// the RAR4 one is 13 bytes, its 2-byte CRC field then its body; the RAR5 one is
/// 7 bytes, its 4-byte CRC field then `2 1 0`. Placed right after a RAR5 marker,
/// the RAR5 one is what `RarScanner::scan_headers` finds (`rar_headers`): exactly
/// one archive header, at offset 8, of type 1 and seven bytes, with no data area;
/// and `RarScanner::validate_header_crc` accepts it (`header_crc_ok`).
pub proof fn lemma_rebuilt_archive_header_rescans()
    ensures
        archive_header_bytes(RarVersion::Rar4).len() == 13,
        archive_header_bytes(RarVersion::Rar4).subrange(2, 13) == rar4_archive_body(),
        archive_header_bytes(RarVersion::Rar5).len() == 7,
        archive_header_bytes(RarVersion::Rar5).subrange(4, 7) == seq![2u8, 1u8, 0u8],
        ({
            let d = marker_of(RarVersion::Rar5) + archive_header_bytes(RarVersion::Rar5);
            let hs = rar_headers(d, RarVersion::Rar5);
            &&& hs.len() == 1
            &&& hs[0].offset == 8
            &&& hs[0].header_type == 1
            &&& hs[0].header_size == 7
            &&& hs[0].data_size == 0
            &&& header_crc_ok(d, hs[0])
        }),
{
    let h4 = archive_header_bytes(RarVersion::Rar4);
    assert(h4.subrange(2, 13) =~= rar4_archive_body());
    let h5 = archive_header_bytes(RarVersion::Rar5);
    assert(h5.subrange(4, 7) =~= seq![2u8, 1u8, 0u8]);
    let d = marker_of(RarVersion::Rar5) + h5;
    assert(d.len() == 15);
    assert(scan_limit(d) == 15);
    assert(d.subrange(0, 8) =~= marker_of(RarVersion::Rar5));
    assert(rar_marker_at(d, 0, 15, RarVersion::Rar5));
    assert((marker_here(d, RarVersion::Rar5))(0));
    lemma_first_where_found(0, 0, 15, marker_here(d, RarVersion::Rar5));
    assert(detected_version(d) == Some(RarVersion::Rar5));
    assert(d[12] == 2u8);
    assert(d[13] == 1u8);
    assert(d[14] == 0u8);
    lemma_one_byte_vint(d, 12, 2);
    lemma_one_byte_vint(d, 13, 1);
    lemma_one_byte_vint(d, 14, 0);
    assert(0u64 & 2u64 == 0u64) by (bit_vector);
    assert(rar5_step(d, 15) is None);
    assert(rar5_headers(d, 15) == Seq::<RarHeaderModel>::empty());
    let st = rar5_step(d, 8);
    assert(st is Some);
    let (h, next) = st.unwrap();
    assert(next == 15);
    assert(h.offset == 8 && h.header_type == 1 && h.header_size == 7 && h.data_size == 0);
    assert(rar5_headers(d, 8) =~= seq![h]);
    assert(rar_headers(d, RarVersion::Rar5) =~= seq![h]);
    let c = crc32_of(rar5_archive_body());
    let v = c as int;
    assert(d.subrange(12, 15) =~= rar5_archive_body());
    assert(d[8] == (v % 256) as u8);
    assert(d[9] == ((v / 256) % 256) as u8);
    assert(d[10] == ((v / 65536) % 256) as u8);
    assert(d[11] == ((v / 16777216) % 256) as u8);
    assert(le32(d, 8) == v) by (nonlinear_arith)
        requires
            0 <= v <= 0xFFFF_FFFF,
            d[8] == (v % 256) as u8,
            d[9] == ((v / 256) % 256) as u8,
            d[10] == ((v / 65536) % 256) as u8,
            d[11] == ((v / 16777216) % 256) as u8,
            le32(d, 8) == d[8] as int + 256 * (d[9] as int) + 65536 * (d[10] as int) + 16777216 * (
            d[11] as int),
    ;
    assert(header_crc_ok(d, h));
}

// ---- Writing ------------------------------------------------------------------------------

/// The stand-in name `entry@0x{offset:X}` of an entry without a file name.
pub open spec fn fallback_name(offset: u64) -> Seq<char> {
    "entry@0x"@ + hex_upper(offset as nat)
}

/// The name under which the entry of header `h` is reported.
pub open spec fn header_name(h: RarHeaderModel) -> Seq<char> {
    match h.filename {
        Some(n) => n,
        None => fallback_name(h.offset),
    }
}

/// The version a list of headers is written as: RAR4 as soon as one header has a
/// RAR4 type, RAR5 otherwise.
pub open spec fn written_version(hs: Seq<RarHeaderModel>) -> RarVersion {
    if exists|i: int| 0 <= i < hs.len() && is_rar4_type(#[trigger] hs[i].header_type) {
        RarVersion::Rar4
    } else {
        RarVersion::Rar5
    }
}

/// State of writing the headers of a repaired RAR archive.
pub struct RarWriteState {
    /// The bytes written for the headers so far.
    pub bytes: Seq<u8>,
    /// The source buffer with the CRCs of the headers so far recomputed.
    pub fixed: Seq<u8>,
    pub recovered: Seq<Seq<char>>,
    pub failed: Seq<Seq<char>>,
}

/// Writing the headers `hs` over the source `d`, file headers having type `fht`.
/// For each header in turn its CRC is recomputed in the working copy; a header that
/// runs past the end is reported as failed and skipped. Otherwise the header and its
/// data area are copied from the working copy; a data area that runs past the end is
/// copied as far as it goes and reported as failed. A file header then counts as
/// recovered unless its name is already among the failed ones.
pub open spec fn rar_write_phase(d: Seq<u8>, hs: Seq<RarHeaderModel>, fht: u8) -> RarWriteState
    decreases hs.len(),
{
    if hs.len() == 0 {
        RarWriteState { bytes: seq![], fixed: d, recovered: seq![], failed: seq![] }
    } else {
        let prev = rar_write_phase(d, hs.drop_last(), fht);
        let h = hs.last();
        let f = crc_fixed(prev.fixed, h);
        let name = header_name(h);
        let o = h.offset as int;
        let start = o + h.header_size as int;
        if start > f.len() {
            RarWriteState {
                bytes: prev.bytes,
                fixed: f,
                recovered: prev.recovered,
                failed: prev.failed.push(name),
            }
        } else {
            let overrun = h.data_size > 0 && start + h.data_size > f.len();
            let end = if overrun {
                f.len() as int
            } else {
                start + h.data_size
            };
            let failed = if overrun {
                prev.failed.push(name)
            } else {
                prev.failed
            };
            RarWriteState {
                bytes: prev.bytes + f.subrange(o, end),
                fixed: f,
                recovered: if h.header_type == fht && !failed.contains(name) {
                    prev.recovered.push(name)
                } else {
                    prev.recovered
                },
                failed,
            }
        }
    }
}

/// The bytes of the repaired archive written for the (non-empty) header list `hs`
/// over the source `d`: the marker, a reconstructed archive header unless the first
/// header is one, then the headers with their data areas.
pub open spec fn rar_output(d: Seq<u8>, hs: Seq<RarHeaderModel>) -> Seq<u8> {
    let v = written_version(hs);
    marker_of(v) + (if hs[0].header_type == archive_header_type(v) {
        seq![]
    } else {
        archive_header_bytes(v)
    }) + rar_write_phase(d, hs, file_header_type(v)).bytes
}

/// The result reported after writing the repaired archive.
pub open spec fn rar_write_result(d: Seq<u8>, hs: Seq<RarHeaderModel>) -> ScanResultModel {
    let w = rar_write_phase(d, hs, file_header_type(written_version(hs)));
    ScanResultModel {
        success: w.failed.len() == 0 && w.recovered.len() > 0,
        recovered_entries: w.recovered,
        failed_entries: w.failed,
        repaired_path: None,
    }
}

/// The views of a list of headers.
pub open spec fn headers_view(hs: Seq<RarHeaderInfo>) -> Seq<RarHeaderModel> {
    hs.map_values(|h: RarHeaderInfo| h@)
}

/// Recomputing header CRCs never changes the length of the working copy.
pub proof fn lemma_crc_fixed_len(d: Seq<u8>, h: RarHeaderModel)
    ensures
        crc_fixed(d, h).len() == d.len(),
{
}

// ---- Laws -----------------------------------------------------------------------------------

/// The CRC field that `crc_fixed` writes for `h` holds, read back, the checksum of the
/// header's bytes after that field: for RAR4 the low 16 bits of their CRC-32, for RAR5
/// the full CRC-32.
pub open spec fn crc_field_matches(d: Seq<u8>, h: RarHeaderModel) -> bool {
    let o = h.offset as int;
    let e = o + h.header_size as int;
    if is_rar4_type(h.header_type) {
        le16(d, o) == (crc32_of(d.subrange(o + 2, e)) & 0xFFFF) as int
    } else {
        le32(d, o) == crc32_of(d.subrange(o + 4, e)) as int
    }
}

/// Fixing the CRC of a header that lies inside the data and has bytes after its CRC
/// field leaves a CRC field that matches those bytes, and changes nothing else.
pub proof fn lemma_fixed_crc_matches(d: Seq<u8>, h: RarHeaderModel)
    requires
        h.offset as int + h.header_size as int <= d.len(),
        h.header_size as int > (if is_rar4_type(h.header_type) {
            2int
        } else {
            4int
        }),
    ensures
        crc_field_matches(crc_fixed(d, h), h),
        crc_fixed(d, h).len() == d.len(),
        forall|i: int|
            0 <= i < d.len() && !(h.offset <= i < h.offset + (if is_rar4_type(h.header_type) {
                2int
            } else {
                4int
            })) ==> #[trigger] crc_fixed(d, h)[i] == d[i],
{
    let o = h.offset as int;
    let e = o + h.header_size as int;
    let f = crc_fixed(d, h);
    if is_rar4_type(h.header_type) {
        let c = crc32_of(d.subrange(o + 2, e));
        let v = (c & 0xFFFF) as int;
        assert(c & 0xFFFF <= 0xFFFF) by (bit_vector);
        assert(f.subrange(o + 2, e) =~= d.subrange(o + 2, e));
        assert(f[o] == (v % 256) as u8);
        assert(f[o + 1] == ((v / 256) % 256) as u8);
        assert(le16(f, o) == v) by (nonlinear_arith)
            requires
                0 <= v <= 0xFFFF,
                f[o] == (v % 256) as u8,
                f[o + 1] == ((v / 256) % 256) as u8,
                le16(f, o) == f[o] as int + 256 * (f[o + 1] as int),
        ;
    } else {
        let c = crc32_of(d.subrange(o + 4, e));
        let v = c as int;
        assert(f.subrange(o + 4, e) =~= d.subrange(o + 4, e));
        assert(f[o] == (v % 256) as u8);
        assert(f[o + 1] == ((v / 256) % 256) as u8);
        assert(f[o + 2] == ((v / 65536) % 256) as u8);
        assert(f[o + 3] == ((v / 16777216) % 256) as u8);
        assert(le32(f, o) == v) by (nonlinear_arith)
            requires
                0 <= v <= 0xFFFF_FFFF,
                f[o] == (v % 256) as u8,
                f[o + 1] == ((v / 256) % 256) as u8,
                f[o + 2] == ((v / 65536) % 256) as u8,
                f[o + 3] == ((v / 16777216) % 256) as u8,
                le32(f, o) == f[o] as int + 256 * (f[o + 1] as int) + 65536 * (f[o + 2] as int)
                    + 16777216 * (f[o + 3] as int),
        ;
    }
}


/// A header whose CRC was fixed passes the scanner's CRC check, re-read from the fixed
/// bytes: a RAR4 header in an archive not marked as RAR5, a RAR5 header in one marked
/// as RAR5.
pub proof fn lemma_fixed_header_passes_check(d: Seq<u8>, h: RarHeaderModel)
    requires
        h.offset as int + h.header_size as int <= d.len(),
        is_rar4_type(h.header_type) ==> h.header_size > 2 && detected_version(crc_fixed(d, h))
            != Some(RarVersion::Rar5),
        !is_rar4_type(h.header_type) ==> h.header_size > 4 && detected_version(crc_fixed(d, h))
            == Some(RarVersion::Rar5),
    ensures
        header_crc_ok(
            crc_fixed(d, h),
            RarHeaderModel { header_crc: le16(crc_fixed(d, h), h.offset as int) as u16, ..h },
        ),
{
    lemma_fixed_crc_matches(d, h);
    let f = crc_fixed(d, h);
    let o = h.offset as int;
    let e = o + h.header_size as int;
    if is_rar4_type(h.header_type) {
        let c = crc32_of(f.subrange(o + 2, e));
        assert(c & 0xFFFF <= 0xFFFF) by (bit_vector);
        assert(((c & 0xFFFF) as u16) as int == (c & 0xFFFF) as int);
    }
}

/// Fixing a header's CRC twice gives the same bytes as fixing it once.
pub proof fn lemma_crc_fix_idempotent(d: Seq<u8>, h: RarHeaderModel)
    ensures
        crc_fixed(crc_fixed(d, h), h) == crc_fixed(d, h),
{
    let o = h.offset as int;
    let e = o + h.header_size as int;
    let f = crc_fixed(d, h);
    if e <= d.len() {
        if is_rar4_type(h.header_type) {
            if o + 2 < e {
                assert(f.subrange(o + 2, e) =~= d.subrange(o + 2, e));
                assert(crc_fixed(f, h) =~= f);
            }
        } else {
            if o + 4 < e {
                assert(f.subrange(o + 4, e) =~= d.subrange(o + 4, e));
                assert(crc_fixed(f, h) =~= f);
            }
        }
    }
}

// ---- Exec helpers ---------------------------------------------------------------------------

/// Overwrites `data[at..at + 2]` with the little-endian bytes of `x`.
fn set_le16_at(data: &mut Vec<u8>, at: usize, x: u16)
    requires
        at + 2 <= old(data)@.len(),
    ensures
        final(data)@ == splice(old(data)@, at as int, le16_bytes(x as int)),
{
    let len = data.len();
    assert(at + 2 <= len);
    data.set(at, (x % 256) as u8);
    data.set(at + 1, ((x / 256) % 256) as u8);
    assert(data@ =~= splice(old(data)@, at as int, le16_bytes(x as int)));
}

/// Overwrites `data[at..at + 4]` with the little-endian bytes of `x`.
fn set_le32_at(data: &mut Vec<u8>, at: usize, x: u32)
    requires
        at + 4 <= old(data)@.len(),
    ensures
        final(data)@ == splice(old(data)@, at as int, le32_bytes(x as int)),
{
    let len = data.len();
    assert(at + 4 <= len);
    data.set(at, (x % 256) as u8);
    data.set(at + 1, ((x / 256) % 256) as u8);
    data.set(at + 2, ((x / 65536) % 256) as u8);
    data.set(at + 3, ((x / 16777216) % 256) as u8);
    assert(data@ =~= splice(old(data)@, at as int, le32_bytes(x as int)));
}

/// The low 16 bits of a CRC-32.
fn low16(crc: u32) -> (r: u16)
    ensures
        r as int == (crc & 0xFFFF) as int,
{
    assert(crc & 0xFFFF <= 0xFFFF) by (bit_vector);
    (crc & 0xFFFF) as u16
}

/// The name under which the entry of `h` is reported.
fn header_entry_name(h: &RarHeaderInfo) -> (s: String)
    ensures
        s@ == header_name(h@),
{
    match &h.filename {
        Some(n) => n.clone(),
        None => {
            let mut s = String::new();
            push_str(&mut s, "entry@0x");
            push_hex(&mut s, h.offset);
            s
        },
    }
}

// ---- The repairer ---------------------------------------------------------------------------

/// Rewrites damaged RAR archives: marker, archive header, header CRCs and data areas.
pub struct RarRepairer;

impl RarRepairer {
    /// Prepend the correct RAR marker block for the detected version.
    ///
    /// - For Rar4: writes `b"Rar!\x1a\x07\x00"` (7 bytes)
    /// - For Rar5: writes `b"Rar!\x1a\x07\x01\x00"` (8 bytes)
    pub fn prepend_marker(writer: &mut Vec<u8>, version: RarVersion)
        ensures
            final(writer)@ == old(writer)@ + marker_of(version),
    {
        writer.push(0x52);
        writer.push(0x61);
        writer.push(0x72);
        writer.push(0x21);
        writer.push(0x1A);
        writer.push(0x07);
        match version {
            RarVersion::Rar4 => {
                writer.push(0x00);
            },
            RarVersion::Rar5 => {
                writer.push(0x01);
                writer.push(0x00);
            },
        }
        assert(writer@ =~= old(writer)@ + marker_of(version));
    }

    /// Recalculate and fix header CRC for a RAR header.
    ///
    /// The version is taken from the header type (RAR4 types are 0x70 and above):
    /// - RAR4: the low 16 bits of the CRC-32 of the bytes from the type field
    ///   (offset+2) to the end of the header go to data[offset..offset+2], little-endian.
    /// - RAR5: the CRC-32 of the bytes after the 4-byte CRC field (offset+4 to the end
    ///   of the header) goes to data[offset..offset+4], little-endian.
    pub fn fix_header_crc(data: &mut Vec<u8>, header: &RarHeaderInfo)
        ensures
            final(data)@ == crc_fixed(old(data)@, header@),
    {
        let len = data.len();
        let header_size = header.header_size as usize;
        if header.offset > len as u64 || header_size > len - header.offset as usize {
            return;
        }
        let offset = header.offset as usize;
        if Self::is_rar4_header(header) {
            if header_size <= 2 {
                return;
            }
            let body = copy_range(data.as_slice(), offset + 2, offset + header_size);
            let crc = crc32(body.as_slice());
            set_le16_at(data, offset, low16(crc));
        } else {
            if header_size <= 4 {
                return;
            }
            let body = copy_range(data.as_slice(), offset + 4, offset + header_size);
            let crc = crc32(body.as_slice());
            set_le32_at(data, offset, crc);
        }
    }

    /// Reconstruct a minimal valid Archive Header with default flags.
    ///
    /// For RAR4 (13 bytes): the 16-bit CRC, then type 0x73, flags 0x0000, header
    /// size 13 and six reserved zero bytes.
    ///
    /// For RAR5 (7 bytes): the CRC-32 of the header data, then the header size
    /// vint 2, the header type vint 1 and the header flags vint 0.
    pub fn reconstruct_archive_header(version: RarVersion) -> (header: Vec<u8>)
        ensures
            header@ == archive_header_bytes(version),
    {
        match version {
            RarVersion::Rar4 => {
                let mut body: Vec<u8> = Vec::new();
                body.push(0x73);
                push_le16(&mut body, 0x0000);
                push_le16(&mut body, 13);
                let mut k: usize = 0;
                while k < 6
                    invariant
                        k <= 6,
                        body@.len() == 5 + k,
                        body@.subrange(0, 5) == seq![0x73u8, 0u8, 0u8, 13u8, 0u8],
                        forall|j: int| 5 <= j < body@.len() ==> body@[j] == 0,
                    decreases 6 - k,
                {
                    body.push(0);
                    k = k + 1;
                }
                assert(body@ =~= rar4_archive_body());
                let crc = crc32(body.as_slice());
                let mut header: Vec<u8> = Vec::new();
                push_le16(&mut header, low16(crc));
                let n = body.len();
                append_range(&mut header, body.as_slice(), 0, n);
                assert(body@.subrange(0, n as int) =~= body@);
                header
            },
            RarVersion::Rar5 => {
                let mut header_data: Vec<u8> = Vec::new();
                header_data.push(2);
                header_data.push(1);
                header_data.push(0);
                assert(header_data@ =~= rar5_archive_body());
                let crc = crc32(header_data.as_slice());
                let mut header: Vec<u8> = Vec::new();
                push_le32(&mut header, crc);
                append_range(&mut header, header_data.as_slice(), 0, 3);
                assert(header_data@.subrange(0, 3) =~= header_data@);
                header
            },
        }
    }

    /// Determine if a header is RAR4 based on its header_type value: RAR4 types are
    /// 0x70 and above (0x73 archive header, 0x74 file header), RAR5 types are small
    /// integers (1 archive header, 2 file header).
    fn is_rar4_header(header: &RarHeaderInfo) -> (r: bool)
        ensures
            r == is_rar4_type(header.header_type),
    {
        header.header_type >= 0x70
    }

    /// Write a repaired RAR archive.
    ///
    /// 1. The version is RAR4 if any header has a RAR4 type, RAR5 otherwise.
    /// 2. The marker is written.
    /// 3. Unless the first header is an archive header, a reconstructed one is written.
    /// 4. On a working copy of the data, each header in turn gets its CRC fixed;
    ///    then the header bytes and its data area are written, and progress_fn is
    ///    called for file headers.
    /// 5. The ScanResult lists the recovered and the failed entries.
    pub fn write_repaired<F: Fn(u32, u32, &str)>(
        data: &[u8],
        headers: &[RarHeaderInfo],
        writer: &mut Vec<u8>,
        progress_fn: F,
    ) -> (r: Result<ScanResult, RepairError>)
        requires
            forall|a: u32, b: u32, c: &str| progress_fn.requires((a, b, c)),
        ensures
            r is Err <==> headers@.len() == 0,
            r matches Err(e) ==> e matches RepairError::NotRepairable(m) && m@
                == "No headers found in RAR archive"@,
            r is Err ==> final(writer)@ == old(writer)@,
            r matches Ok(s) ==> s@ == rar_write_result(data@, headers_view(headers@))
                && final(writer)@ == old(writer)@ + rar_output(data@, headers_view(headers@)),
    {
        if headers.len() == 0 {
            return Err(RepairError::NotRepairable(String::from_str("No headers found in RAR archive")));
        }
        let ghost hs = headers_view(headers@);
        let ghost d = data@;
        let ghost init = writer@;

        // Step 1: the version, from the header types.
        let mut any_rar4 = false;
        let mut k: usize = 0;
        while k < headers.len()
            invariant
                k <= headers.len(),
                hs == headers_view(headers@),
                any_rar4 <==> exists|i: int| 0 <= i < k && is_rar4_type(#[trigger] hs[i].header_type),
            decreases headers.len() - k,
        {
            if Self::is_rar4_header(&headers[k]) {
                assert(hs[k as int].header_type == headers@[k as int].header_type);
                any_rar4 = true;
            }
            proof {
                if !any_rar4 {
                    assert forall|i: int| 0 <= i < k + 1 implies !is_rar4_type(
                        #[trigger] hs[i].header_type,
                    ) by {
                        if i == k {
                            assert(hs[i].header_type == headers@[i].header_type);
                        }
                    }
                }
            }
            k = k + 1;
        }
        let version = if any_rar4 {
            RarVersion::Rar4
        } else {
            RarVersion::Rar5
        };
        assert(version == written_version(hs));
        let archive_type: u8 = match version {
            RarVersion::Rar4 => 0x73,
            RarVersion::Rar5 => 1,
        };
        let fht: u8 = match version {
            RarVersion::Rar4 => 0x74,
            RarVersion::Rar5 => 2,
        };

        // The number of file headers, for progress reporting.
        let mut file_count: usize = 0;
        let mut k: usize = 0;
        while k < headers.len()
            invariant
                k <= headers.len(),
                file_count <= k,
            decreases headers.len() - k,
        {
            if headers[k].header_type == fht {
                file_count = file_count + 1;
            }
            k = k + 1;
        }
        let total_file_headers = #[verifier::truncate] (file_count as u32);

        // Step 2: the marker.
        Self::prepend_marker(writer, version);

        // Step 3: an archive header unless the first header is one.
        assert(hs[0].header_type == headers@[0].header_type);
        if headers[0].header_type != archive_type {
            let archive_header = Self::reconstruct_archive_header(version);
            let n = archive_header.len();
            append_range(writer, archive_header.as_slice(), 0, n);
            assert(archive_header@.subrange(0, n as int) =~= archive_header@);
        }
        let ghost prefix = writer@;
        assert(prefix == init + marker_of(version) + (if hs[0].header_type == archive_header_type(
            version,
        ) {
            seq![]
        } else {
            archive_header_bytes(version)
        }));

        // Steps 4 and 5: the headers and their data areas.
        let mut fixed_data = copy_range(data, 0, data.len());
        assert(fixed_data@ =~= d);
        let mut recovered_entries: Vec<String> = Vec::new();
        let mut failed_entries: Vec<String> = Vec::new();
        let mut current_step: u32 = 0;
        let mut i: usize = 0;
        while i < headers.len()
            invariant
                i <= headers.len(),
                hs == headers_view(headers@),
                d == data@,
                fht == file_header_type(version),
                forall|a: u32, b: u32, c: &str| progress_fn.requires((a, b, c)),
                fixed_data@ == rar_write_phase(d, hs.take(i as int), fht).fixed,
                fixed_data@.len() == d.len(),
                writer@ == prefix + rar_write_phase(d, hs.take(i as int), fht).bytes,
                strings_view(recovered_entries@) == rar_write_phase(d, hs.take(i as int), fht).recovered,
                strings_view(failed_entries@) == rar_write_phase(d, hs.take(i as int), fht).failed,
            decreases headers.len() - i,
        {
            let header = &headers[i];
            let ghost h = hs[i as int];
            assert(h == header@);
            assert(hs.take(i + 1).drop_last() =~= hs.take(i as int));
            assert(hs.take(i + 1).last() == h);
            let ghost prev = rar_write_phase(d, hs.take(i as int), fht);

            Self::fix_header_crc(&mut fixed_data, header);
            proof {
                lemma_crc_fixed_len(prev.fixed, h);
            }
            let len = fixed_data.len();
            let header_size = header.header_size as usize;
            let entry_name = header_entry_name(header);
            if header.offset > len as u64 || header_size > len - header.offset as usize {
                failed_entries.push(entry_name);
                proof {
                    assert(strings_view(failed_entries@) =~= rar_write_phase(
                        d,
                        hs.take(i + 1),
                        fht,
                    ).failed);
                }
            } else {
                let offset = header.offset as usize;
                let data_start = offset + header_size;
                let mut overrun = false;
                let data_end = if header.data_size == 0 {
                    data_start
                } else if header.data_size > (len - data_start) as u64 {
                    overrun = true;
                    len
                } else {
                    data_start + header.data_size as usize
                };
                append_range(writer, fixed_data.as_slice(), offset, data_end);
                if overrun {
                    failed_entries.push(entry_name.clone());
                }
                let ghost failed_now = strings_view(failed_entries@);
                proof {
                    assert(failed_now =~= rar_write_phase(d, hs.take(i + 1), fht).failed);
                    assert(writer@ =~= prefix + rar_write_phase(d, hs.take(i + 1), fht).bytes);
                }
                if header.header_type == fht {
                    current_step = current_step.wrapping_add(1);
                    progress_fn(current_step, total_file_headers, entry_name.as_str());
                    if !contains_name(&failed_entries, &entry_name) {
                        recovered_entries.push(entry_name);
                    }
                }
                proof {
                    assert(strings_view(recovered_entries@) =~= rar_write_phase(
                        d,
                        hs.take(i + 1),
                        fht,
                    ).recovered);
                }
            }
            i = i + 1;
        }
        assert(hs.take(i as int) =~= hs);
        let success = failed_entries.len() == 0 && recovered_entries.len() > 0;
        Ok(ScanResult { success, recovered_entries, failed_entries, repaired_path: None })
    }
}

} // verus!
