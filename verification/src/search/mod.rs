//! Searching the entry names of an archive by substring or glob.

pub mod pattern;

use vstd::prelude::*;
use std::sync::atomic::AtomicBool;

use crate::batch::texts;
use crate::cancel::cancel_requested;
use crate::text::{chars_of, lowercase, to_lowercase};
use pattern::{
    CompiledGlob, compile_glob, glob_compiles, glob_effective, glob_matches, has_char,
    has_substring, substring_match,
};

verus! {

/// Search mode detected from the pattern string.
#[derive(Debug, Clone, Copy, PartialEq, Eq, Structural)]
pub enum SearchMode {
    /// Plain case-insensitive substring matching (pattern contains no `*` or `?`).
    Substring,
    /// Glob pattern matching (pattern contains `*` or `?`).
    Glob,
}

/// The mode of a pattern: glob when it holds `*` or `?`, substring otherwise.
pub open spec fn mode_of(pattern: Seq<char>) -> SearchMode {
    if pattern.contains('*') || pattern.contains('?') {
        SearchMode::Glob
    } else {
        SearchMode::Substring
    }
}

/// Detect whether a pattern should be interpreted as a glob or a plain substring.
///
/// A pattern is treated as glob if it contains `*` or `?`.
pub fn detect_mode(pattern: &str) -> (m: SearchMode)
    ensures
        m == mode_of(pattern@),
{
    let cs = chars_of(pattern);
    if has_char(&cs, '*') || has_char(&cs, '?') {
        SearchMode::Glob
    } else {
        SearchMode::Substring
    }
}

/// Whether the entry name `entry` matches `pattern`: through the compiled glob when
/// the pattern is a glob that compiles, otherwise as a case-insensitive substring.
pub open spec fn entry_matches(pattern: Seq<char>, entry: Seq<char>) -> bool {
    if mode_of(pattern) == SearchMode::Glob && glob_compiles(glob_effective(pattern)) {
        glob_matches(glob_effective(pattern), entry)
    } else {
        has_substring(lowercase(entry), lowercase(pattern))
    }
}

/// The indices of the entries among `es` that match `pattern`, in order.
pub open spec fn matching_indices(pattern: Seq<char>, es: Seq<Seq<char>>) -> Seq<usize>
    decreases es.len(),
{
    if es.len() == 0 {
        seq![]
    } else if entry_matches(pattern, es.last()) {
        matching_indices(pattern, es.drop_last()).push((es.len() - 1) as usize)
    } else {
        matching_indices(pattern, es.drop_last())
    }
}

/// The search finds indices in ascending order, each of an entry that matches.
pub proof fn lemma_matches_ascending(pattern: Seq<char>, es: Seq<Seq<char>>)
    requires
        es.len() <= usize::MAX,
    ensures
        forall|i: int|
            0 <= i < matching_indices(pattern, es).len() ==> #[trigger] matching_indices(pattern, es)[i]
                < es.len() && entry_matches(pattern, es[matching_indices(pattern, es)[i] as int]),
        forall|i: int, j: int|
            0 <= i < j < matching_indices(pattern, es).len() ==> #[trigger] matching_indices(
                pattern,
                es,
            )[i] < #[trigger] matching_indices(pattern, es)[j],
    decreases es.len(),
{
    if es.len() > 0 {
        let prev = es.drop_last();
        lemma_matches_ascending(pattern, prev);
        assert forall|i: int| 0 <= i < matching_indices(pattern, prev).len() implies es[matching_indices(
            pattern,
            prev,
        )[i] as int] == prev[matching_indices(pattern, prev)[i] as int] by {}
    }
}

/// How the entries are matched once the pattern is prepared.
enum Matcher {
    Glob(CompiledGlob),
    Substring(String),
}

/// The matching loop shared by the searches: the entries that match the non-empty
/// `pattern`, in ascending order, or `None` when `is_cancelled` answers yes at one of
/// its checks. It asks before every 1024th entry (before the first as well when
/// `check_first` is set); it does not ask before the others, nor after the last.
fn scan_matches<C: Fn() -> bool>(
    pattern: &str,
    entries: &[String],
    is_cancelled: &C,
    check_first: bool,
) -> (r: Option<Vec<usize>>)
    requires
        pattern@.len() > 0,
        is_cancelled.requires(()),
    ensures
        r matches Some(v) ==> v@ == matching_indices(pattern@, texts(entries@)),
        r is None ==> is_cancelled.ensures((), true) && entries@.len() > 0,
        (forall|b: bool| is_cancelled.ensures((), b) ==> !b) ==> r is Some,
        check_first && entries@.len() > 0 && (forall|b: bool| is_cancelled.ensures((), b) ==> b)
            ==> r is None,
{
    let ghost p = pattern@;
    let matcher = match detect_mode(pattern) {
        SearchMode::Glob => match compile_glob(pattern) {
            Ok(g) => Matcher::Glob(g),
            Err(_) => Matcher::Substring(to_lowercase(pattern)),
        },
        SearchMode::Substring => Matcher::Substring(to_lowercase(pattern)),
    };
    let mut results: Vec<usize> = Vec::new();
    let mut i: usize = 0;
    while i < entries.len()
        invariant
            i <= entries.len(),
            p == pattern@,
            p.len() > 0,
            is_cancelled.requires(()),
            check_first && i > 0 ==> is_cancelled.ensures((), false),
            match matcher {
                Matcher::Glob(g) => mode_of(p) == SearchMode::Glob && glob_compiles(
                    glob_effective(p),
                ) && g@ == glob_effective(p),
                Matcher::Substring(n) => !(mode_of(p) == SearchMode::Glob && glob_compiles(
                    glob_effective(p),
                )) && n@ == lowercase(p),
            },
            results@ == matching_indices(p, texts(entries@).take(i as int)),
        decreases entries.len() - i,
    {
        if i % 1024 == 0 && (i > 0 || check_first) && is_cancelled() {
            return None;
        }
        let ghost es = texts(entries@);
        assert(es.take(i + 1).drop_last() =~= es.take(i as int));
        assert(es.take(i + 1).last() == entries@[i as int]@);
        let matched = match &matcher {
            Matcher::Glob(g) => g.is_match(entries[i].as_str()),
            Matcher::Substring(needle_lower) => substring_match(
                entries[i].as_str(),
                needle_lower.as_str(),
            ),
        };
        if matched {
            results.push(i);
        }
        assert(results@ =~= matching_indices(p, es.take(i + 1)));
        i = i + 1;
    }
    assert(texts(entries@).take(i as int) =~= texts(entries@));
    Some(results)
}

/// Search through `entries` for `pattern`, asking `is_cancelled` before every 1024th
/// entry, the first included; a cancelled search reports no indices (`None`). An
/// empty pattern finds nothing, without asking.
pub fn search_entries_with<C: Fn() -> bool>(pattern: &str, entries: &[String], is_cancelled: C) -> (r:
    Option<Vec<usize>>)
    requires
        is_cancelled.requires(()),
    ensures
        pattern@.len() == 0 ==> (r matches Some(v) && v@.len() == 0),
        pattern@.len() > 0 ==> (r matches Some(v) ==> v@ == matching_indices(
            pattern@,
            texts(entries@),
        )),
        r is None ==> is_cancelled.ensures((), true) && entries@.len() > 0,
        (forall|b: bool| is_cancelled.ensures((), b) ==> !b) ==> r is Some,
        pattern@.len() > 0 && entries@.len() > 0 && (forall|b: bool|
            is_cancelled.ensures((), b) ==> b) ==> r is None,
{
    let pcs = chars_of(pattern);
    if pcs.len() == 0 {
        return Some(Vec::new());
    }
    scan_matches(pattern, entries, &is_cancelled, true)
}

/// Search through `entries` using the given `pattern`, returning indices of matching entries.
///
/// 1. Returns an empty `Vec` if `pattern` is empty.
/// 2. Detects mode (substring vs glob) via [`detect_mode`].
/// 3. For glob mode: compiles the glob pattern (case-insensitive). On compile failure,
///    falls back to substring matching.
/// 4. For substring mode: uses case-insensitive substring matching.
/// 5. Checks the `cancelled` flag every 1024 entries — if set, returns an empty `Vec`.
/// 6. Returns indices of all matching entries.
///
/// This is `search_entries_with` whose check reads `cancelled`; what that flag holds
/// is up to another thread, so the result is either the matching indices or, for a
/// cancelled search, empty.
pub fn search_entries(pattern: &str, entries: &[String], cancelled: &AtomicBool) -> (r: Vec<usize>)
    ensures
        pattern@.len() == 0 ==> r@.len() == 0,
        pattern@.len() > 0 ==> (r@ == matching_indices(pattern@, texts(entries@)) || (r@.len() == 0
            && entries@.len() > 0)),
{
    match search_entries_with(pattern, entries, || cancel_requested(cancelled)) {
        Some(v) => v,
        None => Vec::new(),
    }
}

/// The outcome of a search that a caller can cancel.
pub enum SearchOutcome {
    /// The indices of the matching entries.
    Found(Vec<usize>),
    /// The search was cancelled.
    Cancelled,
}

/// Search through `entries` for `pattern`, asking `is_cancelled` before starting,
/// every 1024 entries after the first, and once more at the end; a cancelled search
/// reports no indices. An empty pattern finds nothing, without asking.
pub fn search_with_cancel_check<C: Fn() -> bool>(pattern: &str, entries: &[String], is_cancelled: C) -> (r:
    SearchOutcome)
    requires
        is_cancelled.requires(()),
    ensures
        pattern@.len() == 0 ==> (r matches SearchOutcome::Found(v) && v@.len() == 0),
        pattern@.len() > 0 ==> (r matches SearchOutcome::Found(v) ==> v@ == matching_indices(
            pattern@,
            texts(entries@),
        )),
        r is Cancelled ==> is_cancelled.ensures((), true),
        (forall|b: bool| is_cancelled.ensures((), b) ==> !b) ==> r is Found,
        pattern@.len() > 0 && (forall|b: bool| is_cancelled.ensures((), b) ==> b) ==> r is Cancelled,
{
    let pcs = chars_of(pattern);
    if pcs.len() == 0 {
        return SearchOutcome::Found(Vec::new());
    }
    if is_cancelled() {
        return SearchOutcome::Cancelled;
    }
    let results = match scan_matches(pattern, entries, &is_cancelled, false) {
        Some(v) => v,
        None => return SearchOutcome::Cancelled,
    };
    if is_cancelled() {
        return SearchOutcome::Cancelled;
    }
    SearchOutcome::Found(results)
}

} // verus!
