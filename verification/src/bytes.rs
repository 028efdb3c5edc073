//! Little-endian field access and byte-buffer building.

use vstd::prelude::*;

verus! {

/// The 16-bit little-endian value stored at `s[i..i + 2]`.
pub open spec fn le16(s: Seq<u8>, i: int) -> int {
    s[i] as int + 256 * (s[i + 1] as int)
}

/// The 32-bit little-endian value stored at `s[i..i + 4]`.
pub open spec fn le32(s: Seq<u8>, i: int) -> int {
    s[i] as int + 256 * (s[i + 1] as int) + 65536 * (s[i + 2] as int) + 16777216 * (
    s[i + 3] as int)
}

/// The four bytes `a b c d` stand at offset `i` of `s`.
pub open spec fn sig_at(s: Seq<u8>, i: int, a: u8, b: u8, c: u8, d: u8) -> bool {
    &&& 0 <= i
    &&& i + 4 <= s.len()
    &&& s[i] == a
    &&& s[i + 1] == b
    &&& s[i + 2] == c
    &&& s[i + 3] == d
}

/// The two little-endian bytes of `x` (taken modulo 2^16).
pub open spec fn le16_bytes(x: int) -> Seq<u8> {
    seq![(x % 256) as u8, ((x / 256) % 256) as u8]
}

/// The four little-endian bytes of `x` (taken modulo 2^32).
pub open spec fn le32_bytes(x: int) -> Seq<u8> {
    seq![
        (x % 256) as u8,
        ((x / 256) % 256) as u8,
        ((x / 65536) % 256) as u8,
        ((x / 16777216) % 256) as u8,
    ]
}

/// Reads the little-endian `u16` at `data[i..i + 2]`.
pub fn read_le16(data: &[u8], i: usize) -> (r: u16)
    requires
        i + 2 <= data@.len(),
    ensures
        r as int == le16(data@, i as int),
{
    data[i] as u16 + (data[i + 1] as u16) * 256
}

/// Reads the little-endian `u32` at `data[i..i + 4]`.
pub fn read_le32(data: &[u8], i: usize) -> (r: u32)
    requires
        i + 4 <= data@.len(),
    ensures
        r as int == le32(data@, i as int),
{
    data[i] as u32 + (data[i + 1] as u32) * 256 + (data[i + 2] as u32) * 65536 + (data[i
        + 3] as u32) * 16777216
}

/// Tests whether the four bytes `a b c d` stand at offset `i`.
pub fn has_sig(data: &[u8], i: usize, a: u8, b: u8, c: u8, d: u8) -> (r: bool)
    ensures
        r == sig_at(data@, i as int, a, b, c, d),
{
    if i > data.len() || data.len() - i < 4 {
        return false;
    }
    data[i] == a && data[i + 1] == b && data[i + 2] == c && data[i + 3] == d
}

/// Copies `data[start..end]` into a new vector.
pub fn copy_range(data: &[u8], start: usize, end: usize) -> (v: Vec<u8>)
    requires
        start <= end <= data@.len(),
    ensures
        v@ == data@.subrange(start as int, end as int),
{
    let mut v: Vec<u8> = Vec::new();
    let mut i = start;
    while i < end
        invariant
            start <= i <= end <= data@.len(),
            v@ == data@.subrange(start as int, i as int),
        decreases end - i,
    {
        v.push(data[i]);
        i = i + 1;
        assert(v@ =~= data@.subrange(start as int, i as int));
    }
    v
}

/// Appends `src[start..end]` to `out`.
pub fn append_range(out: &mut Vec<u8>, src: &[u8], start: usize, end: usize)
    requires
        start <= end <= src@.len(),
    ensures
        final(out)@ == old(out)@ + src@.subrange(start as int, end as int),
{
    let ghost init = out@;
    let mut i = start;
    while i < end
        invariant
            start <= i <= end <= src@.len(),
            out@ == init + src@.subrange(start as int, i as int),
        decreases end - i,
    {
        out.push(src[i]);
        i = i + 1;
        assert(out@ =~= init + src@.subrange(start as int, i as int));
    }
}

/// Appends the little-endian bytes of a `u16`.
pub fn push_le16(out: &mut Vec<u8>, x: u16)
    ensures
        final(out)@ == old(out)@ + le16_bytes(x as int),
{
    out.push((x % 256) as u8);
    out.push(((x / 256) % 256) as u8);
    assert(out@ =~= old(out)@ + le16_bytes(x as int));
}

/// Appends the little-endian bytes of a `u32`.
pub fn push_le32(out: &mut Vec<u8>, x: u32)
    ensures
        final(out)@ == old(out)@ + le32_bytes(x as int),
{
    out.push((x % 256) as u8);
    out.push(((x / 256) % 256) as u8);
    out.push(((x / 65536) % 256) as u8);
    out.push(((x / 16777216) % 256) as u8);
    assert(out@ =~= old(out)@ + le32_bytes(x as int));
}


/// The first index in `lo..hi` satisfying `p`.
pub open spec fn first_where(lo: int, hi: int, p: spec_fn(int) -> bool) -> Option<int>
    decreases hi - lo,
{
    if lo >= hi {
        None
    } else if p(lo) {
        Some(lo)
    } else {
        first_where(lo + 1, hi, p)
    }
}

/// `first_where` finds `s` when `s` is the first index in range satisfying `p`.
pub proof fn lemma_first_where_found(lo: int, s: int, hi: int, p: spec_fn(int) -> bool)
    requires
        lo <= s < hi,
        p(s),
        forall|q: int| lo <= q < s ==> !#[trigger] p(q),
    ensures
        first_where(lo, hi, p) == Some(s),
    decreases s - lo,
{
    if lo < s {
        lemma_first_where_found(lo + 1, s, hi, p);
    }
}

/// `first_where` finds nothing when no index in range satisfies `p`.
pub proof fn lemma_first_where_none(lo: int, hi: int, p: spec_fn(int) -> bool)
    requires
        forall|q: int| lo <= q < hi ==> !#[trigger] p(q),
    ensures
        first_where(lo, hi, p) is None,
    decreases hi - lo,
{
    if lo < hi {
        lemma_first_where_none(lo + 1, hi, p);
    }
}

/// What `first_where` finds lies in range and satisfies `p`.
pub proof fn lemma_first_where_range(lo: int, hi: int, p: spec_fn(int) -> bool)
    ensures
        first_where(lo, hi, p) matches Some(s) ==> lo <= s < hi && p(s),
    decreases hi - lo,
{
    if lo < hi && !p(lo) {
        lemma_first_where_range(lo + 1, hi, p);
    }
}

} // verus!
