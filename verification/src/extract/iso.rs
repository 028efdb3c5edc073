//! ISO 9660 images: volume descriptors and directory records.
//!
//! A minimal reader: the Primary Volume Descriptor (or a Joliet Supplementary
//! Volume Descriptor, preferred when present) gives the root directory, and each
//! directory sector holds a run of directory records.

use vstd::prelude::*;

use crate::bytes::le32 as le32_at;
use crate::text::{chars_of, lossy_utf8, push_char, push_str, utf8_decode_lossy};
use super::ArchiveEntryInfo;

verus! {

// ---- Directory records ---------------------------------------------------------------------

/// One entry of a directory.
pub struct DirEntry {
    pub name: String,
    pub lba: u32,
    pub size: u32,
    pub is_dir: bool,
}

/// The value of a `DirEntry`, with its name as characters.
pub struct DirEntryModel {
    pub name: Seq<char>,
    pub lba: u32,
    pub size: u32,
    pub is_dir: bool,
}

impl View for DirEntry {
    type V = DirEntryModel;

    open spec fn view(&self) -> DirEntryModel {
        DirEntryModel { name: self.name@, lba: self.lba, size: self.size, is_dir: self.is_dir }
    }
}

/// What `String::from_utf16_lossy` makes of a sequence of UTF-16 code units.
pub uninterp spec fn utf16_lossy(units: Seq<u16>) -> Seq<char>;

/// Decodes UTF-16 code units, replacing unpaired surrogates by U+FFFD
/// (`String::from_utf16_lossy`).
#[verifier::external_body]
fn utf16_decode_lossy(units: &[u16]) -> (r: String)
    ensures
        r@ == utf16_lossy(units@),
{
    String::from_utf16_lossy(units)
}

/// The big-endian 16-bit units of `b`, two bytes each; an odd last byte is dropped.
pub open spec fn be_units(b: Seq<u8>) -> Seq<u16> {
    Seq::new((b.len() / 2) as nat, |i: int| (b[2 * i] as int * 256 + b[2 * i + 1] as int) as u16)
}

/// `s` without the trailing characters that satisfy `p`.
pub open spec fn strip_trailing(s: Seq<char>, p: spec_fn(char) -> bool) -> Seq<char>
    decreases s.len(),
{
    if s.len() > 0 && p(s.last()) {
        strip_trailing(s.drop_last(), p)
    } else {
        s
    }
}

/// The trailing characters removed from ISO 9660 names: ASCII digits (mode 0),
/// dots (any other mode).
pub open spec fn trailing_class(mode: u8) -> spec_fn(char) -> bool {
    |c: char|
        if mode == 0 {
            '0' <= c && c <= '9'
        } else {
            c == '.'
        }
}

/// `s` without its version suffix: a final `;` and the ASCII digits after it.
/// A name without such a suffix stays as it is.
pub open spec fn cut_version(s: Seq<char>) -> Seq<char> {
    let t = strip_trailing(s, trailing_class(0));
    if t.len() > 0 && t.last() == ';' {
        t.drop_last()
    } else {
        s
    }
}

/// The name stored in the bytes `b`: UCS-2 big-endian under Joliet, otherwise
/// bytes with the `;1`-style version suffix cut off; trailing dots are dropped.
pub open spec fn iso_name(b: Seq<u8>, joliet: bool) -> Seq<char> {
    let raw = if joliet {
        utf16_lossy(be_units(b))
    } else {
        cut_version(lossy_utf8(b))
    };
    strip_trailing(raw, trailing_class(1))
}

/// The directory record at the start of `buf` can be read without running past `buf`.
pub open spec fn record_fits(buf: Seq<u8>) -> bool {
    &&& buf.len() >= 1
    &&& buf[0] >= 34 ==> buf.len() >= 33
    &&& (buf[0] >= 34 && buf[0] >= 33 + buf[32]) ==> buf.len() >= 33 + buf[32]
}

/// The entry described by the directory record at the start of `buf`: none for a
/// record shorter than 34 bytes, one whose name does not fit in it, the `.` and `..`
/// entries (names 0x00 and 0x01), and an empty name.
pub open spec fn dir_record(buf: Seq<u8>, joliet: bool) -> Option<DirEntryModel> {
    let rec_len = buf[0] as int;
    if rec_len < 34 {
        None
    } else {
        let name_len = buf[32] as int;
        if rec_len < 33 + name_len {
            None
        } else {
            let nb = buf.subrange(33, 33 + name_len);
            if nb == seq![0u8] || nb == seq![1u8] {
                None
            } else {
                let name = iso_name(nb, joliet);
                if name.len() == 0 {
                    None
                } else {
                    Some(
                        DirEntryModel {
                            name,
                            lba: le32_at(buf, 2) as u32,
                            size: le32_at(buf, 10) as u32,
                            is_dir: buf[25] & 2 != 0,
                        },
                    )
                }
            }
        }
    }
}

/// Reads the little-endian `u32` at `buf[off..off + 4]`.
pub fn le32(buf: &[u8], off: usize) -> (r: u32)
    requires
        off + 4 <= buf@.len(),
    ensures
        r as int == le32_at(buf@, off as int),
{
    buf[off] as u32 + (buf[off + 1] as u32) * 256 + (buf[off + 2] as u32) * 65536 + (buf[off
        + 3] as u32) * 16777216
}

/// The big-endian 16-bit units of `b`.
fn be_units_of(b: &Vec<u8>) -> (r: Vec<u16>)
    ensures
        r@ == be_units(b@),
{
    let mut r: Vec<u16> = Vec::new();
    let n = b.len() / 2;
    let mut i: usize = 0;
    while i < n
        invariant
            n == b@.len() / 2,
            i <= n,
            r@ == be_units(b@).take(i as int),
        decreases n - i,
    {
        assert(i + i + 1 < b.len());
        let u = (b[i + i] as u16) * 256 + (b[i + i + 1] as u16);
        assert(2 * i == i + i);
        r.push(u);
        i = i + 1;
        assert(r@ =~= be_units(b@).take(i as int));
    }
    assert(be_units(b@).take(n as int) =~= be_units(b@));
    r
}

/// Whether `c` belongs to the trailing class `mode`.
fn in_trailing_class(c: char, mode: u8) -> (r: bool)
    ensures
        r == (trailing_class(mode))(c),
{
    if mode == 0 {
        '0' <= c && c <= '9'
    } else {
        c == '.'
    }
}

/// The first `end` characters of `cs`.
fn copy_prefix(cs: &Vec<char>, end: usize) -> (r: Vec<char>)
    requires
        end <= cs.len(),
    ensures
        r@ == cs@.subrange(0, end as int),
{
    let mut r: Vec<char> = Vec::new();
    let mut i: usize = 0;
    while i < end
        invariant
            i <= end <= cs.len(),
            r@ == cs@.subrange(0, i as int),
        decreases end - i,
    {
        r.push(cs[i]);
        i = i + 1;
        assert(r@ =~= cs@.subrange(0, i as int));
    }
    r
}

/// `cs` without its trailing characters of class `mode`.
fn strip_trailing_class(cs: &Vec<char>, mode: u8) -> (r: Vec<char>)
    ensures
        r@ == strip_trailing(cs@, trailing_class(mode)),
{
    let mut end = cs.len();
    assert(cs@.subrange(0, end as int) =~= cs@);
    while end > 0 && in_trailing_class(cs[end - 1], mode)
        invariant
            end <= cs.len(),
            strip_trailing(cs@.subrange(0, end as int), trailing_class(mode)) == strip_trailing(
                cs@,
                trailing_class(mode),
            ),
        decreases end,
    {
        assert(cs@.subrange(0, end as int).drop_last() =~= cs@.subrange(0, end - 1));
        end = end - 1;
    }
    let r = copy_prefix(cs, end);
    assert(end == 0 || !(trailing_class(mode))(r@.last()));
    r
}

/// `cs` without its version suffix (`cut_version`).
fn cut_version_of(cs: &Vec<char>) -> (r: Vec<char>)
    ensures
        r@ == cut_version(cs@),
{
    let t = strip_trailing_class(cs, 0);
    if t.len() > 0 && t[t.len() - 1] == ';' {
        let r = copy_prefix(&t, t.len() - 1);
        assert(r@ =~= t@.drop_last());
        r
    } else {
        let r = copy_prefix(cs, cs.len());
        assert(r@ =~= cs@);
        r
    }
}

/// A string holding exactly the characters `cs`.
fn text_of(cs: &Vec<char>) -> (s: String)
    ensures
        s@ == cs@,
{
    let mut s = String::new();
    let mut i: usize = 0;
    while i < cs.len()
        invariant
            i <= cs.len(),
            s@ == cs@.subrange(0, i as int),
        decreases cs.len() - i,
    {
        push_char(&mut s, cs[i]);
        i = i + 1;
        assert(s@ =~= cs@.subrange(0, i as int));
    }
    assert(cs@.subrange(0, i as int) =~= cs@);
    s
}

/// The name stored in the name bytes of a directory record.
fn decode_iso_name(nb: &Vec<u8>, joliet: bool) -> (r: Vec<char>)
    ensures
        r@ == iso_name(nb@, joliet),
{
    let raw = if joliet {
        let units = be_units_of(nb);
        let s = utf16_decode_lossy(units.as_slice());
        chars_of(s.as_str())
    } else {
        let s = utf8_decode_lossy(nb.as_slice());
        let cs = chars_of(s.as_str());
        cut_version_of(&cs)
    };
    strip_trailing_class(&raw, 1)
}

/// Parses the directory record at the start of `buf`; `None` for the records that
/// list no entry (too short, `.` and `..`, or an empty name).
pub fn parse_dir_record(buf: &[u8], joliet: bool) -> (r: Option<DirEntry>)
    requires
        record_fits(buf@),
    ensures
        match r {
            Some(e) => dir_record(buf@, joliet) == Some(e@),
            None => dir_record(buf@, joliet) is None,
        },
{
    let rec_len = buf[0] as usize;
    if rec_len < 34 {
        return None;
    }
    let flags = buf[25];
    let is_dir = (flags & 0x02) != 0;
    let lba = le32(buf, 2);
    let size = le32(buf, 10);
    let name_len = buf[32] as usize;
    if rec_len < 33 + name_len {
        return None;
    }
    let mut nb: Vec<u8> = Vec::new();
    let name_end = 33 + name_len;
    let mut i: usize = 33;
    while i < name_end
        invariant
            33 <= i <= name_end <= buf@.len(),
            name_end == 33 + name_len,
            nb@ == buf@.subrange(33, i as int),
        decreases name_end - i,
    {
        nb.push(buf[i]);
        i = i + 1;
        assert(nb@ =~= buf@.subrange(33, i as int));
    }
    if name_len == 1 && (nb[0] == 0 || nb[0] == 1) {
        assert(nb@ =~= seq![nb@[0]]);
        return None;
    }
    assert(nb@ != seq![0u8] && nb@ != seq![1u8]) by {
        if name_len == 1 {
            assert(nb@[0] != 0 && nb@[0] != 1);
        }
    }
    let name_chars = decode_iso_name(&nb, joliet);
    if name_chars.len() == 0 {
        return None;
    }
    Some(DirEntry { name: text_of(&name_chars), lba, size, is_dir })
}

/// The entries listed by the directory records of a sector `buf` from `off` on, up
/// to `to_read` bytes: a zero record length ends the run (padding); `None` when a
/// record would run past the end of the sector.
pub open spec fn sector_records(buf: Seq<u8>, off: int, to_read: int, joliet: bool) -> Option<
    Seq<DirEntryModel>,
>
    decreases (if off < to_read {
        to_read - off
    } else {
        0
    }),
{
    if off < 0 || off >= to_read || off >= buf.len() {
        Some(seq![])
    } else if buf[off] == 0 {
        Some(seq![])
    } else if !record_fits(buf.subrange(off, buf.len() as int)) {
        None
    } else {
        proof {
            assert(buf[off] > 0);
        }
        match sector_records(buf, off + buf[off], to_read, joliet) {
            None => None,
            Some(rest) => Some(
                match dir_record(buf.subrange(off, buf.len() as int), joliet) {
                    Some(e) => seq![e] + rest,
                    None => rest,
                },
            ),
        }
    }
}

/// The views of a list of directory entries.
pub open spec fn dir_entries_view(v: Seq<DirEntry>) -> Seq<DirEntryModel> {
    v.map_values(|e: DirEntry| e@)
}

/// The entries listed in the first `to_read` bytes of a directory sector; `None` when
/// a record would run past the end of the sector.
pub fn dir_records(buf: &[u8], to_read: usize, joliet: bool) -> (r: Option<Vec<DirEntry>>)
    requires
        to_read <= buf@.len(),
    ensures
        match r {
            Some(v) => sector_records(buf@, 0, to_read as int, joliet) == Some(dir_entries_view(v@)),
            None => sector_records(buf@, 0, to_read as int, joliet) is None,
        },
{
    let mut entries: Vec<DirEntry> = Vec::new();
    let mut off: usize = 0;
    while off < to_read
        invariant
            to_read <= buf@.len(),
            off <= to_read,
            match sector_records(buf@, 0, to_read as int, joliet) {
                None => sector_records(buf@, off as int, to_read as int, joliet) is None,
                Some(all) => sector_records(buf@, off as int, to_read as int, joliet) matches Some(
                    rest,
                ) && all == dir_entries_view(entries@) + rest,
            },
            sector_records(buf@, 0, to_read as int, joliet) is None ==> sector_records(
                buf@,
                off as int,
                to_read as int,
                joliet,
            ) is None,
            sector_records(buf@, off as int, to_read as int, joliet) matches Some(rest) ==> sector_records(
                buf@,
                0,
                to_read as int,
                joliet,
            ) == Some(dir_entries_view(entries@) + rest),
        ensures
            sector_records(buf@, off as int, to_read as int, joliet) == Some(
                Seq::<DirEntryModel>::empty(),
            ),
            sector_records(buf@, off as int, to_read as int, joliet) matches Some(rest) ==> sector_records(
                buf@,
                0,
                to_read as int,
                joliet,
            ) == Some(dir_entries_view(entries@) + rest),
        decreases to_read - off,
    {
        let rec_len = buf[off] as usize;
        if rec_len == 0 {
            break;
        }
        let ghost tail = buf@.subrange(off as int, buf@.len() as int);
        let fits = rec_len < 34 || (buf.len() - off >= 33 && (rec_len < 33 + buf[off + 32] as usize
            || buf.len() - off >= 33 + buf[off + 32] as usize));
        if !fits {
            return None;
        }
        let mut rec: Vec<u8> = Vec::new();
        let mut k = off;
        while k < buf.len()
            invariant
                off <= k <= buf@.len(),
                rec@ == buf@.subrange(off as int, k as int),
            decreases buf.len() - k,
        {
            rec.push(buf[k]);
            k = k + 1;
            assert(rec@ =~= buf@.subrange(off as int, k as int));
        }
        assert(rec@ == tail);
        assert(record_fits(tail));
        let ghost prev = dir_entries_view(entries@);
        match parse_dir_record(rec.as_slice(), joliet) {
            Some(e) => {
                entries.push(e);
            },
            None => {},
        }
        if rec_len >= to_read - off {
            proof {
                assert(sector_records(buf@, off + rec_len, to_read as int, joliet) == Some(
                    Seq::<DirEntryModel>::empty(),
                ));
                assert(dir_entries_view(entries@) =~= prev + (match dir_record(tail, joliet) {
                    Some(x) => seq![x] + Seq::<DirEntryModel>::empty(),
                    None => Seq::<DirEntryModel>::empty(),
                }));
            }
            off = to_read;
        } else {
            proof {
                match sector_records(buf@, off + rec_len, to_read as int, joliet) {
                    Some(rest) => {
                        assert(dir_entries_view(entries@) + rest =~= prev + (match dir_record(
                            tail,
                            joliet,
                        ) {
                            Some(x) => seq![x] + rest,
                            None => rest,
                        }));
                    },
                    None => {},
                }
            }
            off = off + rec_len;
        }
    }
    assert(dir_entries_view(entries@) + Seq::<DirEntryModel>::empty() =~= dir_entries_view(
        entries@,
    ));
    Some(entries)
}

/// The listing of a directory entry found under the directory path `prefix`, and
/// its own path: directories are listed as `{path}/` with unknown size.
pub open spec fn listed(prefix: Seq<char>, e: DirEntryModel) -> (Seq<char>, Seq<char>, bool, int) {
    let full = if prefix.len() == 0 {
        e.name
    } else {
        prefix + "/"@ + e.name
    };
    if e.is_dir {
        (full, full + "/"@, true, -1)
    } else {
        (full, full, false, e.size as int)
    }
}

/// The path of a directory entry under `prefix`, and the way it is listed.
pub fn listed_entry(prefix: &str, e: &DirEntry) -> (r: (String, ArchiveEntryInfo))
    ensures
        listed(prefix@, e@) == (r.0@, r.1.name@, r.1.is_directory, r.1.size as int),
{
    let pcs = chars_of(prefix);
    let mut full = String::new();
    if pcs.len() > 0 {
        push_str(&mut full, prefix);
        push_str(&mut full, "/");
    }
    push_str(&mut full, e.name.as_str());
    if e.is_dir {
        let mut name = full.clone();
        push_str(&mut name, "/");
        (full, ArchiveEntryInfo { name, is_directory: true, size: -1 })
    } else {
        let name = full.clone();
        (full, ArchiveEntryInfo { name, is_directory: false, size: e.size as i64 })
    }
}

// ---- Volume descriptors ---------------------------------------------------------------------

/// Where the root directory of a volume lies, and whether its names are Joliet.
#[derive(Debug, Clone, Copy, PartialEq, Eq, Structural)]
pub struct VolumeInfo {
    pub root_lba: u32,
    pub root_size: u32,
    pub joliet: bool,
}

/// A Joliet escape sequence (`%/@`, `%/C` or `%/E`) starts at byte `88 + i`.
pub open spec fn joliet_escape_at(buf: Seq<u8>, i: int) -> bool {
    &&& 0 <= i <= 29
    &&& buf[88 + i] == 0x25
    &&& buf[89 + i] == 0x2F
    &&& (buf[90 + i] == 0x40 || buf[90 + i] == 0x43 || buf[90 + i] == 0x45)
}

/// The root directory recorded in a volume descriptor.
pub open spec fn root_of(buf: Seq<u8>, joliet: bool) -> VolumeInfo {
    VolumeInfo {
        root_lba: le32_at(buf, 158) as u32,
        root_size: le32_at(buf, 166) as u32,
        joliet,
    }
}

/// One step of the walk over the volume descriptor set: whether to read the next
/// descriptor, and the best volume so far. The set ends at a terminator (type 0xFF)
/// or at a sector without the `CD001` identifier. A primary descriptor (type 1) is
/// taken when nothing was found yet; a Joliet supplementary descriptor (type 2 with
/// a Joliet escape sequence) is preferred over anything found before.
pub open spec fn volume_step(buf: Seq<u8>, best: Option<VolumeInfo>) -> (bool, Option<VolumeInfo>) {
    if buf[0] == 0xFF {
        (false, best)
    } else if buf.subrange(1, 6) != seq![0x43u8, 0x44u8, 0x30u8, 0x30u8, 0x31u8] {
        (false, best)
    } else if buf[0] == 1 {
        (true, if best is None {
            Some(root_of(buf, false))
        } else {
            best
        })
    } else if buf[0] == 2 {
        (true, if exists|i: int| #[trigger] joliet_escape_at(buf, i) {
            Some(root_of(buf, true))
        } else {
            best
        })
    } else {
        (true, best)
    }
}

/// Reads one volume descriptor sector: updates the best volume found so far and
/// says whether the next sector should be read.
pub fn scan_volume_descriptor(buf: &[u8], best: &mut Option<VolumeInfo>) -> (go_on: bool)
    requires
        buf@.len() >= 170,
    ensures
        (go_on, *final(best)) == volume_step(buf@, *old(best)),
{
    let vd_type = buf[0];
    if vd_type == 0xFF {
        return false;
    }
    if !(buf[1] == 0x43 && buf[2] == 0x44 && buf[3] == 0x30 && buf[4] == 0x30 && buf[5] == 0x31) {
        assert(buf@.subrange(1, 6) != seq![0x43u8, 0x44u8, 0x30u8, 0x30u8, 0x31u8]) by {
            if buf@.subrange(1, 6) == seq![0x43u8, 0x44u8, 0x30u8, 0x30u8, 0x31u8] {
                assert(buf@.subrange(1, 6)[0] == buf@[1]);
                assert(buf@.subrange(1, 6)[1] == buf@[2]);
                assert(buf@.subrange(1, 6)[2] == buf@[3]);
                assert(buf@.subrange(1, 6)[3] == buf@[4]);
                assert(buf@.subrange(1, 6)[4] == buf@[5]);
            }
        }
        return false;
    }
    assert(buf@.subrange(1, 6) =~= seq![0x43u8, 0x44u8, 0x30u8, 0x30u8, 0x31u8]);
    if vd_type == 0x01 {
        if best.is_none() {
            *best = Some(VolumeInfo { root_lba: le32(buf, 156 + 2), root_size: le32(buf, 156 + 10), joliet: false });
        }
    } else if vd_type == 0x02 {
        let mut is_joliet = false;
        let mut i: usize = 0;
        while i < 30
            invariant
                i <= 30,
                buf@.len() >= 170,
                is_joliet <==> exists|j: int| 0 <= j < i && #[trigger] joliet_escape_at(buf@, j),
            decreases 30 - i,
        {
            if buf[88 + i] == 0x25 && buf[89 + i] == 0x2F && (buf[90 + i] == 0x40 || buf[90 + i]
                == 0x43 || buf[90 + i] == 0x45) {
                assert(joliet_escape_at(buf@, i as int));
                is_joliet = true;
            }
            i = i + 1;
        }
        assert(is_joliet <==> exists|j: int| #[trigger] joliet_escape_at(buf@, j));
        if is_joliet {
            *best = Some(VolumeInfo { root_lba: le32(buf, 156 + 2), root_size: le32(buf, 156 + 10), joliet: true });
        }
    }
    true
}

/// Extraction of ISO 9660 images.
pub struct IsoBackend;

} // verus!
