//! Choosing the extraction backend, and where a smart extraction puts its files.

use vstd::prelude::*;

use crate::batch::{digits_fit_u32_from, digits_fit_u32, is_supported_path, supported_extension, texts, text_is};
use crate::errors::{LockError, LockErrorModel};
use crate::paths::{
    components_of, extension_of, file_stem_of, join_path, parts_view, path_components,
    path_extension, path_file_stem, path_join, PartKind,
};
use crate::text::{chars_of, lowercase, to_lowercase};
use super::sevenzadll::{GUID, clsid_7z_handler, clsid_zip_handler, is_handler_clsid};

verus! {

/// The 7-Zip format handler a split archive is opened with.
#[derive(Debug, Clone, Copy, PartialEq, Eq, Structural)]
pub enum SplitHandler {
    Zip,
    SevenZ,
}

impl SplitHandler {
    /// The class identifier of the handler.
    pub fn clsid(&self) -> (g: GUID)
        ensures
            is_handler_clsid(
                g,
                match self {
                    SplitHandler::Zip => 0x01u8,
                    SplitHandler::SevenZ => 0x07u8,
                },
            ),
    {
        match self {
            SplitHandler::Zip => clsid_zip_handler(),
            SplitHandler::SevenZ => clsid_7z_handler(),
        }
    }
}

/// The backend that extracts an archive.
#[derive(Debug, Clone, Copy, PartialEq, Eq, Structural)]
pub enum BackendKind {
    Zip,
    Tar,
    SevenZ,
    SevenZaDll,
    SevenZaDllClsid(SplitHandler),
    Cab,
    Iso,
    Rar,
}

/// The backend for a `.001` split archive, from the extension inside its stem:
/// `zip` and `rar` have their own, anything else is opened as 7z.
pub open spec fn split_backend(path: Seq<char>) -> BackendKind {
    let stem = match path_file_stem(path) {
        Some(s) => s,
        None => seq![],
    };
    let inner = match path_extension(stem) {
        Some(e) => lowercase(e),
        None => seq![],
    };
    if inner == "zip"@ {
        BackendKind::SevenZaDllClsid(SplitHandler::Zip)
    } else if inner == "rar"@ {
        BackendKind::SevenZaDll
    } else {
        BackendKind::SevenZaDllClsid(SplitHandler::SevenZ)
    }
}

/// The backend for an archive at `path` whose extension, lower-cased, is `e`.
pub open spec fn backend_for_extension(e: Seq<char>, path: Seq<char>) -> Result<
    BackendKind,
    LockErrorModel,
> {
    if e == "zip"@ || e == "apk"@ || e == "ipa"@ || e == "jar"@ || e == "war"@ || e == "ear"@ {
        Ok(BackendKind::Zip)
    } else if e == "tar"@ || e == "gz"@ || e == "bz2"@ || e == "xz"@ || e == "zst"@ {
        Ok(BackendKind::Tar)
    } else if e == "7z"@ {
        Ok(BackendKind::SevenZ)
    } else if e == "rar"@ {
        Ok(BackendKind::Rar)
    } else if e == "cab"@ {
        Ok(BackendKind::Cab)
    } else if e == "iso"@ {
        Ok(BackendKind::Iso)
    } else if e == "001"@ {
        Ok(split_backend(path))
    } else if e.len() > 0 && e[0] == 'z' && digits_fit_u32(e.subrange(1, e.len() as int)) {
        Ok(BackendKind::SevenZaDllClsid(SplitHandler::Zip))
    } else {
        Err(LockErrorModel::UnsupportedFormat(e))
    }
}

/// The backend for the archive at `path`, chosen by its extension.
pub open spec fn backend_for(path: Seq<char>) -> Result<BackendKind, LockErrorModel> {
    match path_extension(path) {
        None => Err(LockErrorModel::UnsupportedFormat("No extension"@)),
        Some(e) => backend_for_extension(lowercase(e), path),
    }
}

/// The value of a backend choice.
pub open spec fn backend_view(r: Result<BackendKind, LockError>) -> Result<BackendKind, LockErrorModel> {
    match r {
        Ok(b) => Ok(b),
        Err(e) => Err(e@),
    }
}

/// The single-format extensions and the backend each one is extracted with.
pub open spec fn extension_backends() -> Seq<(Seq<char>, BackendKind)> {
    seq![
        ("zip"@, BackendKind::Zip),
        ("apk"@, BackendKind::Zip),
        ("ipa"@, BackendKind::Zip),
        ("jar"@, BackendKind::Zip),
        ("war"@, BackendKind::Zip),
        ("ear"@, BackendKind::Zip),
        ("tar"@, BackendKind::Tar),
        ("gz"@, BackendKind::Tar),
        ("bz2"@, BackendKind::Tar),
        ("xz"@, BackendKind::Tar),
        ("zst"@, BackendKind::Tar),
        ("7z"@, BackendKind::SevenZ),
        ("rar"@, BackendKind::Rar),
        ("cab"@, BackendKind::Cab),
        ("iso"@, BackendKind::Iso),
    ]
}

/// An archive whose extension, ignoring case, is in the table gets that entry's
/// backend: the ZIP family (zip, apk, ipa, jar, war, ear) the ZIP backend, the tar
/// family (tar, gz, bz2, xz, zst) the tar backend, and 7z, rar, cab and iso their own.
pub proof fn lemma_extension_picks_backend(path: Seq<char>, e: Seq<char>, k: BackendKind)
    requires
        path_extension(path) == Some(e),
        extension_backends().contains((lowercase(e), k)),
    ensures
        backend_for(path) == Ok::<BackendKind, LockErrorModel>(k),
{
    reveal_strlit("zip");
    reveal_strlit("apk");
    reveal_strlit("ipa");
    reveal_strlit("jar");
    reveal_strlit("war");
    reveal_strlit("ear");
    reveal_strlit("tar");
    reveal_strlit("gz");
    reveal_strlit("bz2");
    reveal_strlit("xz");
    reveal_strlit("zst");
    reveal_strlit("7z");
    reveal_strlit("rar");
    reveal_strlit("cab");
    reveal_strlit("iso");
    reveal_strlit("001");
    let t = extension_backends();
    let i = choose|i: int| 0 <= i < t.len() && t[i] == (lowercase(e), k);
    assert(t[0] == ("zip"@, BackendKind::Zip) && t[1] == ("apk"@, BackendKind::Zip));
    assert(t[2] == ("ipa"@, BackendKind::Zip) && t[3] == ("jar"@, BackendKind::Zip));
    assert(t[4] == ("war"@, BackendKind::Zip) && t[5] == ("ear"@, BackendKind::Zip));
    assert(t[6] == ("tar"@, BackendKind::Tar) && t[7] == ("gz"@, BackendKind::Tar));
    assert(t[8] == ("bz2"@, BackendKind::Tar) && t[9] == ("xz"@, BackendKind::Tar));
    assert(t[10] == ("zst"@, BackendKind::Tar) && t[11] == ("7z"@, BackendKind::SevenZ));
    assert(t[12] == ("rar"@, BackendKind::Rar) && t[13] == ("cab"@, BackendKind::Cab));
    assert(t[14] == ("iso"@, BackendKind::Iso));
    let l = lowercase(e);
    assert(l == t[i].0 && k == t[i].1);
    if i == 0 {
        assert(l == "zip"@ && l.len() == 3);
        assert(l[0] != "apk"@[0]);
        assert(l[0] != "ipa"@[0]);
        assert(l[0] != "jar"@[0]);
        assert(l[0] != "war"@[0]);
        assert(l[0] != "ear"@[0]);
        assert(l[0] != "tar"@[0]);
        assert(l[0] != "bz2"@[0]);
        assert(l[1] != "zst"@[1]);
        assert(l[0] != "rar"@[0]);
        assert(l[0] != "cab"@[0]);
        assert(l[0] != "iso"@[0]);
    } else if i == 1 {
        assert(l == "apk"@ && l.len() == 3);
        assert(l[0] != "zip"@[0]);
        assert(l[0] != "ipa"@[0]);
        assert(l[0] != "jar"@[0]);
        assert(l[0] != "war"@[0]);
        assert(l[0] != "ear"@[0]);
        assert(l[0] != "tar"@[0]);
        assert(l[0] != "bz2"@[0]);
        assert(l[0] != "zst"@[0]);
        assert(l[0] != "rar"@[0]);
        assert(l[0] != "cab"@[0]);
        assert(l[0] != "iso"@[0]);
    } else if i == 2 {
        assert(l == "ipa"@ && l.len() == 3);
        assert(l[0] != "zip"@[0]);
        assert(l[0] != "apk"@[0]);
        assert(l[0] != "jar"@[0]);
        assert(l[0] != "war"@[0]);
        assert(l[0] != "ear"@[0]);
        assert(l[0] != "tar"@[0]);
        assert(l[0] != "bz2"@[0]);
        assert(l[0] != "zst"@[0]);
        assert(l[0] != "rar"@[0]);
        assert(l[0] != "cab"@[0]);
        assert(l[1] != "iso"@[1]);
    } else if i == 3 {
        assert(l == "jar"@ && l.len() == 3);
        assert(l[0] != "zip"@[0]);
        assert(l[0] != "apk"@[0]);
        assert(l[0] != "ipa"@[0]);
        assert(l[0] != "war"@[0]);
        assert(l[0] != "ear"@[0]);
        assert(l[0] != "tar"@[0]);
        assert(l[0] != "bz2"@[0]);
        assert(l[0] != "zst"@[0]);
        assert(l[0] != "rar"@[0]);
        assert(l[0] != "cab"@[0]);
        assert(l[0] != "iso"@[0]);
    } else if i == 4 {
        assert(l == "war"@ && l.len() == 3);
        assert(l[0] != "zip"@[0]);
        assert(l[0] != "apk"@[0]);
        assert(l[0] != "ipa"@[0]);
        assert(l[0] != "jar"@[0]);
        assert(l[0] != "ear"@[0]);
        assert(l[0] != "tar"@[0]);
        assert(l[0] != "bz2"@[0]);
        assert(l[0] != "zst"@[0]);
        assert(l[0] != "rar"@[0]);
        assert(l[0] != "cab"@[0]);
        assert(l[0] != "iso"@[0]);
    } else if i == 5 {
        assert(l == "ear"@ && l.len() == 3);
        assert(l[0] != "zip"@[0]);
        assert(l[0] != "apk"@[0]);
        assert(l[0] != "ipa"@[0]);
        assert(l[0] != "jar"@[0]);
        assert(l[0] != "war"@[0]);
        assert(l[0] != "tar"@[0]);
        assert(l[0] != "bz2"@[0]);
        assert(l[0] != "zst"@[0]);
        assert(l[0] != "rar"@[0]);
        assert(l[0] != "cab"@[0]);
        assert(l[0] != "iso"@[0]);
    } else if i == 6 {
        assert(l == "tar"@ && l.len() == 3);
        assert(l[0] != "zip"@[0]);
        assert(l[0] != "apk"@[0]);
        assert(l[0] != "ipa"@[0]);
        assert(l[0] != "jar"@[0]);
        assert(l[0] != "war"@[0]);
        assert(l[0] != "ear"@[0]);
        assert(l[0] != "bz2"@[0]);
        assert(l[0] != "zst"@[0]);
        assert(l[0] != "rar"@[0]);
        assert(l[0] != "cab"@[0]);
        assert(l[0] != "iso"@[0]);
    } else if i == 7 {
        assert(l == "gz"@ && l.len() == 2);
        assert(l[0] != "xz"@[0]);
        assert(l[0] != "7z"@[0]);
    } else if i == 8 {
        assert(l == "bz2"@ && l.len() == 3);
        assert(l[0] != "zip"@[0]);
        assert(l[0] != "apk"@[0]);
        assert(l[0] != "ipa"@[0]);
        assert(l[0] != "jar"@[0]);
        assert(l[0] != "war"@[0]);
        assert(l[0] != "ear"@[0]);
        assert(l[0] != "tar"@[0]);
        assert(l[0] != "zst"@[0]);
        assert(l[0] != "rar"@[0]);
        assert(l[0] != "cab"@[0]);
        assert(l[0] != "iso"@[0]);
    } else if i == 9 {
        assert(l == "xz"@ && l.len() == 2);
        assert(l[0] != "gz"@[0]);
        assert(l[0] != "7z"@[0]);
    } else if i == 10 {
        assert(l == "zst"@ && l.len() == 3);
        assert(l[1] != "zip"@[1]);
        assert(l[0] != "apk"@[0]);
        assert(l[0] != "ipa"@[0]);
        assert(l[0] != "jar"@[0]);
        assert(l[0] != "war"@[0]);
        assert(l[0] != "ear"@[0]);
        assert(l[0] != "tar"@[0]);
        assert(l[0] != "bz2"@[0]);
        assert(l[0] != "rar"@[0]);
        assert(l[0] != "cab"@[0]);
        assert(l[0] != "iso"@[0]);
    } else if i == 11 {
        assert(l == "7z"@ && l.len() == 2);
        assert(l[0] != "gz"@[0]);
        assert(l[0] != "xz"@[0]);
    } else if i == 12 {
        assert(l == "rar"@ && l.len() == 3);
        assert(l[0] != "zip"@[0]);
        assert(l[0] != "apk"@[0]);
        assert(l[0] != "ipa"@[0]);
        assert(l[0] != "jar"@[0]);
        assert(l[0] != "war"@[0]);
        assert(l[0] != "ear"@[0]);
        assert(l[0] != "tar"@[0]);
        assert(l[0] != "bz2"@[0]);
        assert(l[0] != "zst"@[0]);
        assert(l[0] != "cab"@[0]);
        assert(l[0] != "iso"@[0]);
    } else if i == 13 {
        assert(l == "cab"@ && l.len() == 3);
        assert(l[0] != "zip"@[0]);
        assert(l[0] != "apk"@[0]);
        assert(l[0] != "ipa"@[0]);
        assert(l[0] != "jar"@[0]);
        assert(l[0] != "war"@[0]);
        assert(l[0] != "ear"@[0]);
        assert(l[0] != "tar"@[0]);
        assert(l[0] != "bz2"@[0]);
        assert(l[0] != "zst"@[0]);
        assert(l[0] != "rar"@[0]);
        assert(l[0] != "iso"@[0]);
    } else if i == 14 {
        assert(l == "iso"@ && l.len() == 3);
        assert(l[0] != "zip"@[0]);
        assert(l[0] != "apk"@[0]);
        assert(l[1] != "ipa"@[1]);
        assert(l[0] != "jar"@[0]);
        assert(l[0] != "war"@[0]);
        assert(l[0] != "ear"@[0]);
        assert(l[0] != "tar"@[0]);
        assert(l[0] != "bz2"@[0]);
        assert(l[0] != "zst"@[0]);
        assert(l[0] != "rar"@[0]);
        assert(l[0] != "cab"@[0]);
    }
}

/// Batch extraction takes exactly the archives that a backend is found for: a path
/// counts as a supported archive if and only if choosing its backend succeeds.
pub proof fn lemma_supported_iff_backend_found(path: Seq<char>)
    ensures
        is_supported_path(path) <==> backend_for(path) is Ok,
{
}

/// Detect the archive format from the extension and return the backend for it.
pub fn detect_backend(path: &str) -> (r: Result<BackendKind, LockError>)
    ensures
        backend_view(r) == backend_for(path@),
        forall|e: Seq<char>, k: BackendKind|
            path_extension(path@) == Some(e) && #[trigger] extension_backends().contains(
                (lowercase(e), k),
            ) ==> (r matches Ok(b) && b == k),
{
    proof {
        assert forall|e: Seq<char>, k: BackendKind|
            path_extension(path@) == Some(e) && #[trigger] extension_backends().contains(
                (lowercase(e), k),
            ) implies backend_for(path@) == Ok::<BackendKind, LockErrorModel>(k) by {
            lemma_extension_picks_backend(path@, e, k);
        }
    }
    let ext = match extension_of(path) {
        Some(e) => to_lowercase(e.as_str()),
        None => return Err(LockError::UnsupportedFormat(String::from_str("No extension"))),
    };
    let e = chars_of(ext.as_str());
    if text_is(&e, "zip") || text_is(&e, "apk") || text_is(&e, "ipa") || text_is(&e, "jar")
        || text_is(&e, "war") || text_is(&e, "ear") {
        Ok(BackendKind::Zip)
    } else if text_is(&e, "tar") || text_is(&e, "gz") || text_is(&e, "bz2") || text_is(&e, "xz")
        || text_is(&e, "zst") {
        Ok(BackendKind::Tar)
    } else if text_is(&e, "7z") {
        Ok(BackendKind::SevenZ)
    } else if text_is(&e, "rar") {
        Ok(BackendKind::Rar)
    } else if text_is(&e, "cab") {
        Ok(BackendKind::Cab)
    } else if text_is(&e, "iso") {
        Ok(BackendKind::Iso)
    } else if text_is(&e, "001") {
        Ok(detect_split_backend(path))
    } else if e.len() > 0 && e[0] == 'z' && digits_fit_u32_from(&e, 1) {
        Ok(BackendKind::SevenZaDllClsid(SplitHandler::Zip))
    } else {
        Err(LockError::UnsupportedFormat(ext))
    }
}

/// Detect the backend for `.001` split archives by inspecting the stem extension:
/// `archive.zip.001` opens with the ZIP handler, `archive.rar.001` with the DLL's
/// own RAR support, and anything else (`archive.7z.001`, `archive.001`) as 7z.
pub fn detect_split_backend(path: &str) -> (b: BackendKind)
    ensures
        b == split_backend(path@),
{
    let stem = match file_stem_of(path) {
        Some(s) => s,
        None => String::new(),
    };
    let inner = match extension_of(stem.as_str()) {
        Some(e) => to_lowercase(e.as_str()),
        None => String::new(),
    };
    let cs = chars_of(inner.as_str());
    if text_is(&cs, "zip") {
        BackendKind::SevenZaDllClsid(SplitHandler::Zip)
    } else if text_is(&cs, "rar") {
        BackendKind::SevenZaDll
    } else {
        BackendKind::SevenZaDllClsid(SplitHandler::SevenZ)
    }
}

/// The first component of the path `p` when `Path::components` yields a normal
/// name first (not a prefix, a root, `.` or `..`).
pub open spec fn first_normal_name(p: Seq<char>) -> Option<Seq<char>> {
    let cs = path_components(p);
    if cs.len() > 0 && cs[0].kind == PartKind::Normal {
        Some(cs[0].text)
    } else {
        None
    }
}

/// The distinct top-level names of the entries `es`, in order of first appearance:
/// the first component of each entry path that is a plain name.
pub open spec fn top_level_names(es: Seq<Seq<char>>) -> Seq<Seq<char>>
    decreases es.len(),
{
    if es.len() == 0 {
        seq![]
    } else {
        let prev = top_level_names(es.drop_last());
        match first_normal_name(es.last()) {
            Some(n) => if prev.contains(n) {
                prev
            } else {
                prev.push(n)
            },
            None => prev,
        }
    }
}

/// No top-level name is listed twice.
pub proof fn lemma_top_level_distinct(es: Seq<Seq<char>>)
    ensures
        top_level_names(es).no_duplicates(),
    decreases es.len(),
{
    if es.len() > 0 {
        lemma_top_level_distinct(es.drop_last());
    }
}

/// Whether `names` holds the text `n`.
fn holds_text(names: &Vec<String>, n: &String) -> (r: bool)
    ensures
        r == texts(names@).contains(n@),
{
    let mut i: usize = 0;
    while i < names.len()
        invariant
            i <= names.len(),
            forall|j: int| 0 <= j < i ==> names@[j]@ != n@,
        decreases names.len() - i,
    {
        if names[i] == *n {
            assert(texts(names@)[i as int] == n@);
            return true;
        }
        i = i + 1;
    }
    assert forall|j: int| 0 <= j < texts(names@).len() implies texts(names@)[j] != n@ by {
        assert(texts(names@)[j] == names@[j]@);
    }
    false
}

/// The distinct top-level items of an archive's entries, in order of first appearance.
pub fn get_top_level_items(entries: &[String]) -> (items: Vec<String>)
    ensures
        texts(items@) == top_level_names(texts(entries@)),
        texts(items@).no_duplicates(),
{
    let mut items: Vec<String> = Vec::new();
    let mut i: usize = 0;
    while i < entries.len()
        invariant
            i <= entries.len(),
            texts(items@) == top_level_names(texts(entries@).take(i as int)),
        decreases entries.len() - i,
    {
        let ghost es = texts(entries@);
        assert(es.take(i + 1).drop_last() =~= es.take(i as int));
        assert(es.take(i + 1).last() == entries@[i as int]@);
        let parts = components_of(entries[i].as_str());
        if parts.len() > 0 && parts[0].kind == PartKind::Normal {
            assert(parts_view(parts@)[0] == parts@[0]@);
            let name = parts[0].text.clone();
            if !holds_text(&items, &name) {
                items.push(name);
            }
        } else {
            assert(parts@.len() > 0 ==> parts_view(parts@)[0] == parts@[0]@);
        }
        assert(texts(items@) =~= top_level_names(es.take(i + 1)));
        i = i + 1;
    }
    assert(texts(entries@).take(i as int) =~= texts(entries@));
    proof {
        lemma_top_level_distinct(texts(entries@));
    }
    items
}

/// Where a smart extraction writes: the directory, and whether it must be created.
pub struct SmartTarget {
    pub dir: String,
    pub create: bool,
}

/// The directory a smart extraction of the archive at `archive` with entries `es`
/// writes to, and whether it must first be created: with one top-level item, the
/// output directory itself; otherwise a folder named after the archive inside it.
pub open spec fn smart_target(archive: Seq<char>, output_dir: Seq<char>, es: Seq<Seq<char>>) -> Result<
    (Seq<char>, bool),
    LockErrorModel,
> {
    if es.len() == 0 {
        Err(LockErrorModel::ExtractionFailed("Archive is empty"@))
    } else if top_level_names(es).len() == 1 {
        Ok((output_dir, false))
    } else {
        let name = match path_file_stem(archive) {
            Some(s) => s,
            None => "extracted"@,
        };
        Ok((path_join(output_dir, name), true))
    }
}

/// Implements the "Smart Unpacking" decision, given the archive's entries:
/// 1. If the archive has only one top-level item, it is extracted directly into the
///    output directory.
/// 2. If it has several, a folder named after the archive is created in the output
///    directory and everything is extracted into it.
pub fn plan_smart_extract(archive_path: &str, output_dir: &str, entries: &[String]) -> (r: Result<
    SmartTarget,
    LockError,
>)
    ensures
        match r {
            Ok(t) => smart_target(archive_path@, output_dir@, texts(entries@)) == Ok::<
                (Seq<char>, bool),
                LockErrorModel,
            >((t.dir@, t.create)),
            Err(e) => smart_target(archive_path@, output_dir@, texts(entries@)) == Err::<
                (Seq<char>, bool),
                LockErrorModel,
            >(e@),
        },
{
    if entries.len() == 0 {
        return Err(LockError::ExtractionFailed(String::from_str("Archive is empty")));
    }
    let top_level_items = get_top_level_items(entries);
    if top_level_items.len() == 1 {
        Ok(SmartTarget { dir: String::from_str(output_dir), create: false })
    } else {
        let archive_name = match file_stem_of(archive_path) {
            Some(s) => s,
            None => String::from_str("extracted"),
        };
        Ok(SmartTarget { dir: join_path(output_dir, archive_name.as_str()), create: true })
    }
}

} // verus!
