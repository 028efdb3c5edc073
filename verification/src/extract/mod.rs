//! The decisions of archive extraction that do not touch the disk.

pub mod bomb_detector;
pub mod iso;
pub mod sevenzadll;
pub mod smart;

use crate::errors::{LockError, LockErrorModel};
use crate::paths::{
    components_of, join_path, parts_view, path_components, path_from_parts, path_join,
    path_of_parts, path_starts_with, starts_with_path, PartKind, PathPart, PathPartModel,
};
use crate::search::pattern::has_char;
use crate::batch::text_is;
use crate::paths::{extension_of, file_name_of, path_extension, path_file_name};
use crate::text::{
    chars_of, debug_quoted, debug_text, decimal, lossy_utf8, lowercase, push_char, push_decimal,
    push_str, to_lowercase, utf8_decode, utf8_decode_lossy,
};
use vstd::utf8::{decode_utf8, valid_utf8};
use vstd::prelude::*;

verus! {

broadcast use vstd::string::group_string_axioms;

/// The normal names among `ps`, in order.
pub open spec fn normal_parts(ps: Seq<PathPartModel>) -> Seq<PathPartModel>
    decreases ps.len(),
{
    if ps.len() == 0 {
        Seq::empty()
    } else {
        let rest = normal_parts(ps.drop_last());
        if ps.last().kind == PartKind::Normal {
            rest.push(ps.last())
        } else {
            rest
        }
    }
}

/// One step of lexical resolution: `..` drops the last component when it is a
/// name (a root, a prefix or nothing stays as it is), `.` is skipped, and every
/// other component is appended.
pub open spec fn resolve_step(acc: Seq<PathPartModel>, p: PathPartModel) -> Seq<PathPartModel> {
    if p.kind == PartKind::Parent {
        if acc.len() > 0 && acc.last().kind == PartKind::Normal {
            acc.drop_last()
        } else {
            acc
        }
    } else if p.kind == PartKind::Current {
        acc
    } else {
        acc.push(p)
    }
}

/// The components `ps` with every `.` and `..` resolved, from left to right.
pub open spec fn resolve_parts(ps: Seq<PathPartModel>) -> Seq<PathPartModel>
    decreases ps.len(),
{
    if ps.len() == 0 {
        Seq::empty()
    } else {
        resolve_step(resolve_parts(ps.drop_last()), ps.last())
    }
}

/// Whether no component of `ps` is `.` or `..`.
pub open spec fn no_dot_parts(ps: Seq<PathPartModel>) -> bool {
    forall|i: int|
        0 <= i < ps.len() ==> #[trigger] ps[i].kind != PartKind::Parent && ps[i].kind
            != PartKind::Current
}

/// The entry name kept to its normal names: roots, prefixes, `.` and `..` dropped.
pub open spec fn sanitized_name(entry: Seq<char>) -> Seq<char> {
    path_from_parts(normal_parts(path_components(entry)))
}

/// The components of the sanitized entry joined onto `base`, resolved.
pub open spec fn resolved_join_parts(base: Seq<char>, entry: Seq<char>) -> Seq<PathPartModel> {
    resolve_parts(path_components(path_join(base, sanitized_name(entry))))
}

/// The path that an entry is written to under `base`.
pub open spec fn resolved_join(base: Seq<char>, entry: Seq<char>) -> Seq<char> {
    path_from_parts(resolved_join_parts(base, entry))
}

/// What `safe_join` gives for a base directory, an entry name and the canonical
/// form of the base.
pub open spec fn safe_join_result(base: Seq<char>, entry: Seq<char>, canonical_base: Seq<char>) -> Result<
    Seq<char>,
    LockErrorModel,
> {
    if entry.contains('\0') {
        Err(
            LockErrorModel::ExtractionFailed(
                "Rejected entry with null byte in name: "@ + debug_text(entry),
            ),
        )
    } else if sanitized_name(entry).len() == 0 {
        Err(
            LockErrorModel::ExtractionFailed(
                "Rejected empty or root-only entry name: "@ + debug_text(entry),
            ),
        )
    } else if !path_starts_with(resolved_join(base, entry), canonical_base) {
        Err(
            LockErrorModel::ExtractionFailed(
                "Path traversal detected: entry "@ + debug_text(entry)
                    + " resolves outside output directory"@,
            ),
        )
    } else {
        Ok(resolved_join(base, entry))
    }
}

/// Resolution never leaves a `.` or `..` component in a path.
pub proof fn lemma_resolved_has_no_dots(ps: Seq<PathPartModel>)
    ensures
        no_dot_parts(resolve_parts(ps)),
    decreases ps.len(),
{
    if ps.len() > 0 {
        lemma_resolved_has_no_dots(ps.drop_last());
        let acc = resolve_parts(ps.drop_last());
        assert(resolve_parts(ps) == resolve_step(acc, ps.last()));
        if ps.last().kind == PartKind::Parent && acc.len() > 0 && acc.last().kind
            == PartKind::Normal {
            assert forall|i: int| 0 <= i < acc.drop_last().len() implies #[trigger] acc.drop_last()[i].kind
                != PartKind::Parent && acc.drop_last()[i].kind != PartKind::Current by {
                assert(acc.drop_last()[i] == acc[i]);
            }
        }
    }
}

fn copy_part(p: &PathPart) -> (r: PathPart)
    ensures
        r@ == p@,
{
    PathPart { kind: p.kind, text: p.text.clone() }
}

/// The normal names among `parts`.
fn keep_normal(parts: &Vec<PathPart>) -> (r: Vec<PathPart>)
    ensures
        parts_view(r@) == normal_parts(parts_view(parts@)),
{
    let mut out: Vec<PathPart> = Vec::new();
    let mut i: usize = 0;
    while i < parts.len()
        invariant
            i <= parts.len(),
            parts_view(out@) == normal_parts(parts_view(parts@).take(i as int)),
        decreases parts.len() - i,
    {
        let ghost ps = parts_view(parts@);
        assert(ps.take(i + 1).drop_last() =~= ps.take(i as int));
        assert(ps.take(i + 1).last() == parts@[i as int]@);
        if parts[i].kind == PartKind::Normal {
            let ghost before = out@;
            out.push(copy_part(&parts[i]));
            assert(parts_view(out@) =~= parts_view(before).push(parts@[i as int]@));
        }
        i = i + 1;
    }
    assert(parts_view(parts@).take(i as int) =~= parts_view(parts@));
    out
}

/// `parts` with every `.` and `..` resolved, as `resolve_parts` describes.
fn resolve(parts: &Vec<PathPart>) -> (r: Vec<PathPart>)
    ensures
        parts_view(r@) == resolve_parts(parts_view(parts@)),
{
    let mut out: Vec<PathPart> = Vec::new();
    let mut i: usize = 0;
    while i < parts.len()
        invariant
            i <= parts.len(),
            parts_view(out@) == resolve_parts(parts_view(parts@).take(i as int)),
        decreases parts.len() - i,
    {
        let ghost ps = parts_view(parts@);
        let ghost before = out@;
        assert(ps.take(i + 1).drop_last() =~= ps.take(i as int));
        assert(ps.take(i + 1).last() == parts@[i as int]@);
        let kind = parts[i].kind;
        if kind == PartKind::Parent {
            if out.len() > 0 && out[out.len() - 1].kind == PartKind::Normal {
                let _ = out.pop();
                assert(parts_view(out@) =~= parts_view(before).drop_last());
            }
        } else if kind == PartKind::Current {
        } else {
            out.push(copy_part(&parts[i]));
            assert(parts_view(out@) =~= parts_view(before).push(parts@[i as int]@));
        }
        i = i + 1;
    }
    assert(parts_view(parts@).take(i as int) =~= parts_view(parts@));
    out
}

/// An error of the kind `ExtractionFailed` whose message is `head`, the `Debug`
/// form of `entry`, then `tail`.
fn entry_error(head: &str, entry: &str, tail: &str) -> (e: LockError)
    ensures
        e@ == LockErrorModel::ExtractionFailed(head@ + debug_text(entry@) + tail@),
{
    let mut m = String::from_str(head);
    let d = debug_quoted(entry);
    push_str(&mut m, d.as_str());
    push_str(&mut m, tail);
    LockError::ExtractionFailed(m)
}

/// Join an entry's name onto the output directory `base`, refusing names that
/// could write outside it.
///
/// A name holding a NUL character is refused. Only its normal names are kept, so
/// that a root, a drive prefix, `.` and `..` are dropped (`C:\foo\bar` becomes
/// `foo/bar`); a name with none is refused. The kept names are joined onto `base`,
/// `.` and `..` are resolved by the text alone, and the result must begin with
/// `canonical_base` (the base with its links resolved, or the base itself when it
/// does not exist yet), component by component.
pub fn safe_join(base: &str, entry_name: &str, canonical_base: &str) -> (r: Result<
    String,
    LockError,
>)
    ensures
        r matches Ok(t) ==> safe_join_result(base@, entry_name@, canonical_base@) == Ok::<
            Seq<char>,
            LockErrorModel,
        >(t@),
        r matches Err(e) ==> safe_join_result(base@, entry_name@, canonical_base@) == Err::<
            Seq<char>,
            LockErrorModel,
        >(e@),
        r is Ok ==> !entry_name@.contains('\0'),
        r matches Ok(t) ==> path_starts_with(t@, canonical_base@),
        r matches Ok(t) ==> t@ == path_from_parts(resolved_join_parts(base@, entry_name@))
            && no_dot_parts(resolved_join_parts(base@, entry_name@)),
{
    proof {
        reveal_strlit("");
        assert forall|m: Seq<char>| m + ""@ == m by {
            assert(m + ""@ =~= m);
        }
    }
    let cs = chars_of(entry_name);
    if has_char(&cs, '\0') {
        return Err(entry_error("Rejected entry with null byte in name: ", entry_name, ""));
    }
    let parts = components_of(entry_name);
    let normals = keep_normal(&parts);
    let sanitized = path_of_parts(&normals);
    if sanitized.as_str().is_empty() {
        return Err(entry_error("Rejected empty or root-only entry name: ", entry_name, ""));
    }
    let joined = join_path(base, sanitized.as_str());
    let joined_parts = components_of(joined.as_str());
    let resolved_parts = resolve(&joined_parts);
    let resolved = path_of_parts(&resolved_parts);
    proof {
        lemma_resolved_has_no_dots(parts_view(joined_parts@));
    }
    if !starts_with_path(resolved.as_str(), canonical_base) {
        return Err(
            entry_error(
                "Path traversal detected: entry ",
                entry_name,
                " resolves outside output directory",
            ),
        );
    }
    Ok(resolved)
}

/// Represents a single entry in an archive, including directory entries.
#[derive(Debug, Clone)]
pub struct ArchiveEntryInfo {
    pub name: String,
    pub is_directory: bool,
    /// -1 if unknown
    pub size: i64,
}

/// Extraction of the ZIP family.
pub struct ZipBackend;

// ---- Entry names ----------------------------------------------------------------------------

/// The characters of the bytes `b` read as Latin-1: each byte is the code point
/// of the same value.
pub open spec fn latin1(b: Seq<u8>) -> Seq<char> {
    b.map_values(|x: u8| x as char)
}

/// The name stored in a ZIP entry's raw name bytes: well-formed UTF-8 is decoded;
/// otherwise an entry flagged as UTF-8 is decoded with replacement characters, and
/// any other is read as Latin-1.
pub open spec fn zip_name_text(raw: Seq<u8>, is_utf8: bool) -> Seq<char> {
    if valid_utf8(raw) {
        decode_utf8(raw)
    } else if is_utf8 {
        lossy_utf8(raw)
    } else {
        latin1(raw)
    }
}

/// The name of a ZIP entry from its raw name bytes and its UTF-8 flag (`zip_name_text`).
pub fn decode_zip_filename(raw: &[u8], is_utf8: bool) -> (r: String)
    ensures
        r@ == zip_name_text(raw@, is_utf8),
{
    match utf8_decode(raw) {
        Some(s) => s,
        None => {
            if is_utf8 {
                utf8_decode_lossy(raw)
            } else {
                let mut s = String::new();
                let mut i: usize = 0;
                while i < raw.len()
                    invariant
                        i <= raw.len(),
                        s@ == latin1(raw@.take(i as int)),
                    decreases raw.len() - i,
                {
                    push_char(&mut s, raw[i] as char);
                    i = i + 1;
                    assert(s@ =~= latin1(raw@.take(i as int)));
                }
                assert(raw@.take(i as int) =~= raw@);
                s
            }
        },
    }
}

// ---- Previewing one entry ---------------------------------------------------------------

/// The archive at `path` belongs to the part of the ZIP family whose entries are
/// extracted by index: its extension, lower-cased, is `zip`, `apk`, `jar` or `ipa`.
pub open spec fn indexed_zip_path(path: Seq<char>) -> bool {
    match path_extension(path) {
        Some(e) => {
            let l = lowercase(e);
            l == "zip"@ || l == "apk"@ || l == "jar"@ || l == "ipa"@
        },
        None => false,
    }
}

/// Whether a single entry of the archive at `path` is extracted by its index
/// straight from the ZIP reader.
pub fn is_indexed_zip(path: &str) -> (r: bool)
    ensures
        r == indexed_zip_path(path@),
{
    match extension_of(path) {
        Some(e) => {
            let l = to_lowercase(e.as_str());
            let cs = chars_of(l.as_str());
            text_is(&cs, "zip") || text_is(&cs, "apk") || text_is(&cs, "jar") || text_is(&cs, "ipa")
        },
        None => false,
    }
}

/// The name of the entry at `index` among `entries` that a preview extracts, or why
/// it cannot: an index past the end, or an entry that is a directory.
pub fn preview_target(entries: &[ArchiveEntryInfo], index: u32) -> (r: Result<String, LockError>)
    ensures
        index >= entries@.len() ==> (r matches Err(e) && e@ == LockErrorModel::ExtractionFailed(
            "Entry index "@ + decimal(index as nat) + " out of range (archive has "@ + decimal(
                entries@.len(),
            ) + " entries)"@,
        )),
        index < entries@.len() && entries@[index as int].is_directory ==> (r matches Err(e) && e@
            == LockErrorModel::ExtractionFailed("Cannot preview a directory"@)),
        index < entries@.len() && !entries@[index as int].is_directory ==> (r matches Ok(n) && n@
            == entries@[index as int].name@),
{
    let i = index as usize;
    if i >= entries.len() {
        let mut m = String::from_str("Entry index ");
        push_decimal(&mut m, index as u64);
        push_str(&mut m, " out of range (archive has ");
        push_decimal(&mut m, entries.len() as u64);
        push_str(&mut m, " entries)");
        return Err(LockError::ExtractionFailed(m));
    }
    if entries[i].is_directory {
        return Err(LockError::ExtractionFailed(String::from_str("Cannot preview a directory")));
    }
    Ok(entries[i].name.clone())
}

/// The name a previewed entry is saved under: the last component of its path, or
/// the whole path when it has none.
pub open spec fn preview_file_name(name: Seq<char>) -> Seq<char> {
    match path_file_name(name) {
        Some(f) => f,
        None => name,
    }
}

/// The name a previewed entry is saved under (`preview_file_name`).
pub fn preview_name(name: &str) -> (r: String)
    ensures
        r@ == preview_file_name(name@),
{
    match file_name_of(name) {
        Some(f) => f,
        None => String::from_str(name),
    }
}

/// Extraction of Cabinet archives.
pub struct CabBackend;

/// Extraction of RAR archives.
pub struct RarBackend;

} // verus!
