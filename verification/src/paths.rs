//! The parts of `std::path` that the library's logic reads, over paths given as text.
//!
//! Each name below stands for what `std::path::Path` computes for the target platform
//! the crate is built for: the same text gives the same result in every run of a build.
//! Paths handed in as `&str` are valid Unicode, so taking the pieces back as text
//! (`to_string_lossy`) loses nothing.

use vstd::prelude::*;

verus! {

/// What `Path::file_stem` gives for the path `p`.
pub uninterp spec fn path_file_stem(p: Seq<char>) -> Option<Seq<char>>;

/// What `Path::extension` gives for the path `p`.
pub uninterp spec fn path_extension(p: Seq<char>) -> Option<Seq<char>>;

/// What `Path::parent` gives for the path `p`.
pub uninterp spec fn path_parent(p: Seq<char>) -> Option<Seq<char>>;

/// What `Path::file_name` gives for the path `p`.
pub uninterp spec fn path_file_name(p: Seq<char>) -> Option<Seq<char>>;

/// What `Path::join` gives for the directory `dir` and the name `name`.
pub uninterp spec fn path_join(dir: Seq<char>, name: Seq<char>) -> Seq<char>;

/// Whether `Path::eq` finds the two paths equal, component by component.
pub uninterp spec fn paths_equal(a: Seq<char>, b: Seq<char>) -> bool;

/// The kinds of path component that `Path::components` tells apart.
#[derive(Debug, Clone, Copy, PartialEq, Eq, Structural)]
pub enum PartKind {
    /// A Windows prefix such as `C:`.
    Prefix,
    /// The root directory.
    Root,
    /// A `.` component.
    Current,
    /// A `..` component.
    Parent,
    /// An ordinary name.
    Normal,
}

/// One component of a path: its kind and its text (`Component::as_os_str`).
#[derive(Debug)]
pub struct PathPart {
    pub kind: PartKind,
    pub text: String,
}

/// A path component with its text as a character sequence.
pub struct PathPartModel {
    pub kind: PartKind,
    pub text: Seq<char>,
}

impl View for PathPart {
    type V = PathPartModel;

    open spec fn view(&self) -> PathPartModel {
        PathPartModel { kind: self.kind, text: self.text@ }
    }
}

/// The components of a list, each taken by its view.
pub open spec fn parts_view(ps: Seq<PathPart>) -> Seq<PathPartModel> {
    ps.map_values(|p: PathPart| p@)
}

/// What `Path::components` yields for the path `p`.
pub uninterp spec fn path_components(p: Seq<char>) -> Seq<PathPartModel>;

/// The text of the path that `PathBuf` builds by pushing `parts` in order.
pub uninterp spec fn path_from_parts(parts: Seq<PathPartModel>) -> Seq<char>;

/// Whether `Path::starts_with` finds `base` at the head of `p`, component by component.
pub uninterp spec fn path_starts_with(p: Seq<char>, base: Seq<char>) -> bool;

/// The text of an optional string.
pub open spec fn opt_text(s: Option<String>) -> Option<Seq<char>> {
    match s {
        Some(t) => Some(t@),
        None => None,
    }
}

/// The file name of `p` without its extension (`Path::file_stem`).
#[verifier::external_body]
pub(crate) fn file_stem_of(p: &str) -> (r: Option<String>)
    ensures
        opt_text(r) == path_file_stem(p@),
{
    match std::path::Path::new(p).file_stem() {
        Some(s) => Some(s.to_string_lossy().into_owned()),
        None => None,
    }
}

/// The extension of `p` (`Path::extension`).
#[verifier::external_body]
pub(crate) fn extension_of(p: &str) -> (r: Option<String>)
    ensures
        opt_text(r) == path_extension(p@),
{
    match std::path::Path::new(p).extension() {
        Some(s) => Some(s.to_string_lossy().into_owned()),
        None => None,
    }
}

/// The parent directory of `p` (`Path::parent`).
#[verifier::external_body]
pub(crate) fn parent_of(p: &str) -> (r: Option<String>)
    ensures
        opt_text(r) == path_parent(p@),
{
    match std::path::Path::new(p).parent() {
        Some(s) => Some(s.to_string_lossy().into_owned()),
        None => None,
    }
}

/// The last component of `p` (`Path::file_name`).
#[verifier::external_body]
pub(crate) fn file_name_of(p: &str) -> (r: Option<String>)
    ensures
        opt_text(r) == path_file_name(p@),
{
    match std::path::Path::new(p).file_name() {
        Some(s) => Some(s.to_string_lossy().into_owned()),
        None => None,
    }
}

/// `name` appended to the directory `dir` (`Path::join`).
#[verifier::external_body]
pub(crate) fn join_path(dir: &str, name: &str) -> (r: String)
    ensures
        r@ == path_join(dir@, name@),
{
    std::path::Path::new(dir).join(name).to_string_lossy().into_owned()
}

/// Whether two paths are equal component by component (`Path::eq`); equal text
/// always names equal paths.
#[verifier::external_body]
pub(crate) fn same_path(a: &str, b: &str) -> (r: bool)
    ensures
        r == paths_equal(a@, b@),
        a@ == b@ ==> r,
{
    std::path::Path::new(a) == std::path::Path::new(b)
}

/// The components of `p` (`Path::components`).
#[verifier::external_body]
pub(crate) fn components_of(p: &str) -> (r: Vec<PathPart>)
    ensures
        parts_view(r@) == path_components(p@),
{
    let mut parts = Vec::new();
    for c in std::path::Path::new(p).components() {
        let kind = match c {
            std::path::Component::Prefix(_) => PartKind::Prefix,
            std::path::Component::RootDir => PartKind::Root,
            std::path::Component::CurDir => PartKind::Current,
            std::path::Component::ParentDir => PartKind::Parent,
            std::path::Component::Normal(_) => PartKind::Normal,
        };
        parts.push(PathPart { kind, text: c.as_os_str().to_string_lossy().into_owned() });
    }
    parts
}

/// The path made of `parts` (`PathBuf::from_iter`, which pushes each in turn).
#[verifier::external_body]
pub(crate) fn path_of_parts(parts: &Vec<PathPart>) -> (r: String)
    ensures
        r@ == path_from_parts(parts_view(parts@)),
{
    let buf: std::path::PathBuf = parts.iter().map(|part| part.text.as_str()).collect();
    buf.to_string_lossy().into_owned()
}

/// Whether `base` is a leading run of the components of `p` (`Path::starts_with`).
#[verifier::external_body]
pub(crate) fn starts_with_path(p: &str, base: &str) -> (r: bool)
    ensures
        r == path_starts_with(p@, base@),
{
    std::path::Path::new(p).starts_with(base)
}

} // verus!
