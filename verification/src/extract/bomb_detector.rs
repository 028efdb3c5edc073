//! The parts of zip-bomb detection that work on whole numbers and names.
//!
//! The ratio and size checks report their findings in gigabytes and as a ratio,
//! computed in floating point by the caller; here are the sums, the limits and the
//! nesting check they rest on.

use vstd::prelude::*;

use crate::batch::texts;
use crate::errors::{LockError, LockErrorModel};
use crate::text::{chars_of, decimal, lowercase, push_decimal, push_str, to_lowercase};
use super::ArchiveEntryInfo;

verus! {

/// Some format among `formats` equals `ext`, ignoring case.
pub open spec fn exempt(ext: Seq<char>, formats: Seq<Seq<char>>) -> bool {
    exists|i: int| 0 <= i < formats.len() && lowercase(#[trigger] formats[i]) == lowercase(ext)
}

/// Whether two character sequences are equal.
fn same_chars(a: &Vec<char>, b: &Vec<char>) -> (r: bool)
    ensures
        r == (a@ == b@),
{
    if a.len() != b.len() {
        return false;
    }
    let mut i: usize = 0;
    while i < a.len()
        invariant
            i <= a.len() == b.len(),
            forall|j: int| 0 <= j < i ==> a@[j] == b@[j],
        decreases a.len() - i,
    {
        if a[i] != b[i] {
            return false;
        }
        i = i + 1;
    }
    assert(a@ =~= b@);
    true
}

/// Whether the archive format `archive_ext` is exempt from the size and ratio checks:
/// it equals one of `exempt_formats`, ignoring case.
pub fn is_exempt(archive_ext: &str, exempt_formats: &[String]) -> (r: bool)
    ensures
        r == exempt(archive_ext@, texts(exempt_formats@)),
{
    let ext_lower = to_lowercase(archive_ext);
    let ext_chars = chars_of(ext_lower.as_str());
    let mut i: usize = 0;
    while i < exempt_formats.len()
        invariant
            i <= exempt_formats.len(),
            ext_chars@ == lowercase(archive_ext@),
            forall|j: int|
                0 <= j < i ==> lowercase(#[trigger] texts(exempt_formats@)[j]) != lowercase(
                    archive_ext@,
                ),
        decreases exempt_formats.len() - i,
    {
        let f = to_lowercase(exempt_formats[i].as_str());
        let fc = chars_of(f.as_str());
        assert(texts(exempt_formats@)[i as int] == exempt_formats@[i as int]@);
        if same_chars(&fc, &ext_chars) {
            return true;
        }
        i = i + 1;
    }
    false
}

/// The sum of the known sizes (those not negative) of the entries `es`, in 64-bit
/// arithmetic that wraps around.
pub open spec fn known_total(es: Seq<ArchiveEntryInfo>) -> u64
    decreases es.len(),
{
    if es.len() == 0 {
        0
    } else if es.last().size >= 0 {
        known_total(es.drop_last()).wrapping_add(es.last().size as u64)
    } else {
        known_total(es.drop_last())
    }
}

/// The total uncompressed size of the entries whose size is known.
pub fn known_total_size(entries: &[ArchiveEntryInfo]) -> (total: u64)
    ensures
        total == known_total(entries@),
{
    let mut total: u64 = 0;
    let mut i: usize = 0;
    while i < entries.len()
        invariant
            i <= entries.len(),
            total == known_total(entries@.take(i as int)),
        decreases entries.len() - i,
    {
        assert(entries@.take(i + 1).drop_last() =~= entries@.take(i as int));
        if entries[i].size >= 0 {
            total = total.wrapping_add(entries[i].size as u64);
        }
        i = i + 1;
    }
    assert(entries@.take(i as int) =~= entries@);
    total
}

/// The entry `e` has a known size above `limit`.
pub open spec fn oversized(e: ArchiveEntryInfo, limit: u64) -> bool {
    e.size >= 0 && e.size as u64 > limit
}

/// The first entry whose known size exceeds `limit`, if any.
pub fn first_oversized_entry(entries: &[ArchiveEntryInfo], limit: u64) -> (r: Option<usize>)
    ensures
        match r {
            Some(i) => i < entries@.len() && oversized(entries@[i as int], limit) && forall|j: int|
                0 <= j < i ==> !oversized(#[trigger] entries@[j], limit),
            None => forall|j: int| 0 <= j < entries@.len() ==> !oversized(#[trigger] entries@[j], limit),
        },
{
    let mut i: usize = 0;
    while i < entries.len()
        invariant
            i <= entries.len(),
            forall|j: int| 0 <= j < i ==> !oversized(#[trigger] entries@[j], limit),
        decreases entries.len() - i,
    {
        if entries[i].size >= 0 && entries[i].size as u64 > limit {
            return Some(i);
        }
        i = i + 1;
    }
    None
}

/// `s` ends with `suffix`.
pub open spec fn has_suffix(s: Seq<char>, suffix: Seq<char>) -> bool {
    s.len() >= suffix.len() && s.subrange(s.len() - suffix.len(), s.len() as int) == suffix
}

/// The name `n`, lower-cased, ends with the extension of an archive format
/// (zip, 7z, rar, tar, gz, bz2, xz, cab).
pub open spec fn names_archive(n: Seq<char>) -> bool {
    let l = lowercase(n);
    ||| has_suffix(l, ".zip"@)
    ||| has_suffix(l, ".7z"@)
    ||| has_suffix(l, ".rar"@)
    ||| has_suffix(l, ".tar"@)
    ||| has_suffix(l, ".gz"@)
    ||| has_suffix(l, ".bz2"@)
    ||| has_suffix(l, ".xz"@)
    ||| has_suffix(l, ".cab"@)
}

/// Whether `s` ends with the characters of `suffix`.
fn ends_with(s: &Vec<char>, suffix: &str) -> (r: bool)
    ensures
        r == has_suffix(s@, suffix@),
{
    let t = chars_of(suffix);
    if t.len() > s.len() {
        return false;
    }
    let start = s.len() - t.len();
    let mut i: usize = 0;
    while i < t.len()
        invariant
            start == s.len() - t.len(),
            i <= t.len(),
            t@ == suffix@,
            forall|j: int| 0 <= j < i ==> s@[start + j] == t@[j],
        decreases t.len() - i,
    {
        if s[start + i] != t[i] {
            assert(s@.subrange(start as int, s@.len() as int)[i as int] == s@[start + i]);
            return false;
        }
        i = i + 1;
    }
    assert(s@.subrange(start as int, s@.len() as int) =~= t@);
    true
}

/// Whether the entry name names a nested archive.
fn is_archive_name(name: &str) -> (r: bool)
    ensures
        r == names_archive(name@),
{
    let l = to_lowercase(name);
    let cs = chars_of(l.as_str());
    ends_with(&cs, ".zip") || ends_with(&cs, ".7z") || ends_with(&cs, ".rar") || ends_with(
        &cs,
        ".tar",
    ) || ends_with(&cs, ".gz") || ends_with(&cs, ".bz2") || ends_with(&cs, ".xz") || ends_with(
        &cs,
        ".cab",
    )
}

/// The extensions of archive formats that count as nested archives.
pub open spec fn archive_extension_list() -> Seq<Seq<char>> {
    seq![".zip"@, ".7z"@, ".rar"@, ".tar"@, ".gz"@, ".bz2"@, ".xz"@, ".cab"@]
}

/// An entry name that ends, ignoring case, in one of the archive extensions (`.zip`,
/// `.7z`, `.rar`, `.tar`, `.gz`, `.bz2`, `.xz`, `.cab`) names a nested archive.
pub proof fn lemma_archive_extensions_are_nested(name: Seq<char>, ext: Seq<char>)
    requires
        archive_extension_list().contains(ext),
        has_suffix(lowercase(name), ext),
    ensures
        names_archive(name),
{
    let l = archive_extension_list();
    let i = choose|i: int| 0 <= i < l.len() && l[i] == ext;
    assert(l[0] == ".zip"@ && l[1] == ".7z"@ && l[2] == ".rar"@ && l[3] == ".tar"@);
    assert(l[4] == ".gz"@ && l[5] == ".bz2"@ && l[6] == ".xz"@ && l[7] == ".cab"@);
}

/// The refusal for an archive nested `depth` levels deep, past the limit `limit`.
pub open spec fn nesting_message(depth: u32, limit: u32) -> Seq<char> {
    "此壓縮包包含 "@ + decimal(depth as nat) + " 層嵌套壓縮包，超過安全上限（"@ + decimal(limit as nat)
        + " 層），可能是遞迴型壓縮炸彈，已拒絕開啟。"@
}

/// Check for nested archive entries that exceed the nesting depth limit.
/// Only inspects entry name extensions — does not recursively open inner archives.
pub fn check_nesting_depth(entries: &[ArchiveEntryInfo], current_depth: u32, max_nesting_depth: u32) -> (r:
    Result<(), LockError>)
    ensures
        r is Err <==> (exists|i: int|
            0 <= i < entries@.len() && #[trigger] names_archive(entries@[i].name@))
            && current_depth >= max_nesting_depth,
        r matches Err(e) ==> e@ == LockErrorModel::ZipBomb(
            nesting_message(current_depth, max_nesting_depth),
        ),
        (exists|i: int, x: Seq<char>|
            0 <= i < entries@.len() && archive_extension_list().contains(x) && #[trigger] has_suffix(
                lowercase(entries@[i].name@),
                x,
            )) && current_depth >= max_nesting_depth ==> r is Err,
{
    proof {
        if exists|i: int, x: Seq<char>|
            0 <= i < entries@.len() && archive_extension_list().contains(x) && #[trigger] has_suffix(
                lowercase(entries@[i].name@),
                x,
            ) {
            let (i, x) = choose|i: int, x: Seq<char>|
                0 <= i < entries@.len() && archive_extension_list().contains(x) && #[trigger] has_suffix(
                    lowercase(entries@[i].name@),
                    x,
                );
            lemma_archive_extensions_are_nested(entries@[i].name@, x);
        }
    }
    let mut has_nested = false;
    let mut i: usize = 0;
    while i < entries.len()
        invariant
            i <= entries.len(),
            has_nested <==> exists|j: int| 0 <= j < i && #[trigger] names_archive(entries@[j].name@),
        decreases entries.len() - i,
    {
        if is_archive_name(entries[i].name.as_str()) {
            has_nested = true;
        }
        i = i + 1;
    }
    if has_nested && current_depth >= max_nesting_depth {
        let mut m = String::new();
        push_str(&mut m, "此壓縮包包含 ");
        push_decimal(&mut m, current_depth as u64);
        push_str(&mut m, " 層嵌套壓縮包，超過安全上限（");
        push_decimal(&mut m, max_nesting_depth as u64);
        push_str(&mut m, " 層），可能是遞迴型壓縮炸彈，已拒絕開啟。");
        return Err(LockError::ZipBomb(m));
    }
    Ok(())
}

} // verus!
