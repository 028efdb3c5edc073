//! Glob and substring matching of archive entry names.

use vstd::prelude::*;

use crate::text::{chars_of, lowercase, push_str, to_lowercase};

verus! {

#[verifier::external_type_specification]
#[verifier::external_body]
pub struct ExGlobSet(globset::GlobSet);

/// Whether `globset` builds a case-insensitive glob from `pattern` and then a
/// `GlobSet` of that one glob (which compiles its regular expression within
/// `globset`'s size and nesting limits).
pub uninterp spec fn glob_compiles(pattern: Seq<char>) -> bool;

/// The message (`Display`) of the error `globset` reports for a pattern it rejects,
/// either as a glob or when compiling it into a set.
pub uninterp spec fn glob_error_text(pattern: Seq<char>) -> Seq<char>;

/// Whether the case-insensitive glob `pattern`, compiled by `globset` into a
/// one-glob `GlobSet`, matches `path`.
pub uninterp spec fn glob_matches(pattern: Seq<char>, path: Seq<char>) -> bool;

/// A compiled case-insensitive glob, together with the pattern it was compiled from.
pub struct CompiledGlob {
    set: globset::GlobSet,
    pattern: String,
}

impl View for CompiledGlob {
    type V = Seq<char>;

    /// The pattern the glob was compiled from.
    closed spec fn view(&self) -> Seq<char> {
        self.pattern@
    }
}

/// Builds a case-insensitive glob: `GlobBuilder::new(pattern).case_insensitive(true).build()`,
/// then a set of it with `GlobSetBuilder::new().add(glob).build()`; either step
/// reports a rejected pattern as an error, whose `Display` text is returned.
/// The set is kept together with the pattern it was built from, which is what
/// `glob_is_match` relies on.
#[verifier::external_body]
fn build_glob(pattern: &str) -> (r: Result<CompiledGlob, String>)
    ensures
        r is Ok <==> glob_compiles(pattern@),
        r matches Ok(g) ==> g@ == pattern@,
        r matches Err(m) ==> m@ == glob_error_text(pattern@),
{
    match globset::GlobBuilder::new(pattern).case_insensitive(true).build() {
        Ok(glob) => match globset::GlobSetBuilder::new().add(glob).build() {
            Ok(set) => Ok(CompiledGlob { set, pattern: pattern.to_string() }),
            Err(e) => Err(e.to_string()),
        },
        Err(e) => Err(e.to_string()),
    }
}

/// Tests a path against a compiled glob (`GlobSet::is_match`).
#[verifier::external_body]
fn glob_is_match(g: &CompiledGlob, path: &str) -> (r: bool)
    ensures
        r == glob_matches(g@, path@),
{
    g.set.is_match(path)
}

impl CompiledGlob {
    /// Whether the glob matches `path`.
    pub fn is_match(&self, path: &str) -> (r: bool)
        ensures
            r == glob_matches(self@, path@),
    {
        glob_is_match(self, path)
    }
}

/// The glob actually compiled for `pattern`: the pattern itself when it holds a path
/// separator (`/` or `\`), otherwise `**/` in front of it, so that it matches file
/// names at any depth.
pub open spec fn glob_effective(pattern: Seq<char>) -> Seq<char> {
    if pattern.contains('/') || pattern.contains('\\') {
        pattern
    } else {
        "**/"@ + pattern
    }
}

/// Whether the characters `cs` include `c`.
pub fn has_char(cs: &Vec<char>, c: char) -> (r: bool)
    ensures
        r == cs@.contains(c),
{
    let mut i: usize = 0;
    while i < cs.len()
        invariant
            i <= cs.len(),
            forall|j: int| 0 <= j < i ==> cs@[j] != c,
        decreases cs.len() - i,
    {
        if cs[i] == c {
            return true;
        }
        i = i + 1;
    }
    false
}

/// Compile a glob pattern for case-insensitive matching.
///
/// If the pattern does not contain a path separator (`/` or `\`), it is automatically
/// prefixed with `**/` so it matches filenames at any directory depth.
pub fn compile_glob(pattern: &str) -> (r: Result<CompiledGlob, String>)
    ensures
        r is Ok <==> glob_compiles(glob_effective(pattern@)),
        r matches Ok(g) ==> g@ == glob_effective(pattern@),
        r matches Err(m) ==> m@ == glob_error_text(glob_effective(pattern@)),
{
    let cs = chars_of(pattern);
    let effective = if has_char(&cs, '/') || has_char(&cs, '\\') {
        String::from_str(pattern)
    } else {
        let mut e = String::new();
        push_str(&mut e, "**/");
        push_str(&mut e, pattern);
        e
    };
    build_glob(effective.as_str())
}

/// `n` occurs in `h` as a contiguous run of characters.
pub open spec fn has_substring(h: Seq<char>, n: Seq<char>) -> bool {
    exists|i: int| 0 <= i <= h.len() - n.len() && #[trigger] h.subrange(i, i + n.len()) == n
}

/// Whether `n` occurs in `h` (`str::contains` with a string pattern).
pub fn contains_text(h: &Vec<char>, n: &Vec<char>) -> (r: bool)
    ensures
        r == has_substring(h@, n@),
{
    if n.len() > h.len() {
        return false;
    }
    if n.len() == 0 {
        assert(h@.subrange(0int, 0int + n@.len()) =~= n@);
        return true;
    }
    let last = h.len() - n.len();
    let mut i: usize = 0;
    while i <= last
        invariant
            last == h.len() - n.len(),
            0 < n.len() <= h.len(),
            i <= last + 1,
            forall|q: int| 0 <= q < i ==> #[trigger] h@.subrange(q, q + n@.len()) != n@,
        decreases last + 1 - i,
    {
        let mut k: usize = 0;
        let mut same = true;
        while k < n.len()
            invariant
                i <= last,
                last == h.len() - n.len(),
                k <= n.len(),
                same <==> forall|j: int| 0 <= j < k ==> h@[i + j] == n@[j],
            decreases n.len() - k,
        {
            if h[i + k] != n[k] {
                same = false;
            }
            k = k + 1;
        }
        if same {
            assert(h@.subrange(i as int, i + n@.len()) =~= n@);
            return true;
        }
        assert(h@.subrange(i as int, i + n@.len()) != n@) by {
            let j = choose|j: int| 0 <= j < n.len() && h@[i + j] != n@[j];
            assert(h@.subrange(i as int, i + n@.len())[j] == h@[i + j]);
        }
        i = i + 1;
    }
    false
}

/// Case-insensitive substring match.
///
/// `needle_lower` must already be lowercased by the caller for efficiency
/// (avoids re-lowering the needle on every entry).
pub fn substring_match(haystack: &str, needle_lower: &str) -> (r: bool)
    ensures
        r == has_substring(lowercase(haystack@), needle_lower@),
{
    let h = to_lowercase(haystack);
    let hs = chars_of(h.as_str());
    let ns = chars_of(needle_lower);
    contains_text(&hs, &ns)
}

} // verus!
