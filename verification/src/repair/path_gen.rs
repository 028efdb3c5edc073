//! Choosing the path of the repaired copy of an archive.

use vstd::prelude::*;

use crate::paths::{
    extension_of, file_stem_of, join_path, parent_of, path_extension, path_file_stem, path_join,
    path_parent, paths_equal, same_path,
};
use crate::text::{decimal, push_decimal, push_str};

verus! {

// ---- Candidate names ----------------------------------------------------------------------

/// The suffix of the `k`-th candidate: `_repaired` for the first, then
/// `_repaired_2`, `_repaired_3`, and so on.
pub open spec fn repair_suffix(k: nat) -> Seq<char> {
    if k <= 1 {
        "_repaired"@
    } else {
        "_repaired_"@ + decimal(k)
    }
}

/// The file name `{stem}{suffix}.{ext}`, or `{stem}{suffix}` without an extension.
pub open spec fn candidate_name(stem: Seq<char>, suffix: Seq<char>, ext: Option<Seq<char>>) -> Seq<
    char,
> {
    match ext {
        Some(e) => stem + suffix + "."@ + e,
        None => stem + suffix,
    }
}

/// The `k`-th candidate path for the original path `original`: the candidate file
/// name next to the original, in its parent directory.
pub open spec fn repair_candidate(original: Seq<char>, k: nat) -> Seq<char> {
    let stem = match path_file_stem(original) {
        Some(s) => s,
        None => seq![],
    };
    let parent = match path_parent(original) {
        Some(p) => p,
        None => seq![],
    };
    path_join(parent, candidate_name(stem, repair_suffix(k), path_extension(original)))
}

/// The `k`-th candidate was passed over: it names the original path, or
/// `is_taken` reported it as taken.
pub open spec fn candidate_refused<F: Fn(&str) -> bool>(is_taken: F, original: Seq<char>, k: nat) -> bool {
    paths_equal(repair_candidate(original, k), original) || exists|s: &str|
        s@ == repair_candidate(original, k) && #[trigger] is_taken.ensures((s,), true)
}

/// The `k`-th candidate is the one that `generate_repair_path` settles on: it does
/// not name the original path, `is_taken` answered `false` for it, and every earlier
/// candidate was passed over.
pub open spec fn chosen_candidate<F: Fn(&str) -> bool>(is_taken: F, original: Seq<char>, k: nat) -> bool {
    &&& 1 <= k <= u32::MAX
    &&& !paths_equal(repair_candidate(original, k), original)
    &&& exists|s: &str| s@ == repair_candidate(original, k) && #[trigger] is_taken.ensures((s,), false)
    &&& forall|j: nat| 1 <= j < k ==> #[trigger] candidate_refused(is_taken, original, j)
}

/// The file name of the `k`-th candidate for an original with file stem `stem`
/// and extension `ext`.
pub fn repair_candidate_name(stem: &str, ext: &Option<String>, k: u32) -> (name: String)
    ensures
        name@ == candidate_name(
            stem@,
            repair_suffix(k as nat),
            match ext {
                Some(e) => Some(e@),
                None => None,
            },
        ),
{
    let mut name = String::new();
    push_str(&mut name, stem);
    if k <= 1 {
        push_str(&mut name, "_repaired");
    } else {
        push_str(&mut name, "_repaired_");
        push_decimal(&mut name, k as u64);
    }
    match ext {
        Some(e) => {
            push_str(&mut name, ".");
            push_str(&mut name, e.as_str());
        },
        None => {},
    }
    name
}

/// Generate the repair output path: `{stem}_repaired.{ext}` next to the original.
/// If that path is taken, increment: `_repaired_2`, `_repaired_3`, etc.
/// A candidate is passed over when it equals the original path or `is_taken`
/// reports it as taken, so the generated path never equals the original path.
/// `None` when every candidate up to `_repaired_4294967295` is passed over.
pub fn generate_repair_path<F: Fn(&str) -> bool>(original: &str, is_taken: F) -> (r: Option<String>)
    requires
        forall|s: &str| is_taken.requires((s,)),
    ensures
        r matches Some(p) ==> exists|k: nat|
            #[trigger] chosen_candidate(is_taken, original@, k) && p@ == repair_candidate(
                original@,
                k,
            ),
        r is None ==> forall|j: nat|
            1 <= j <= u32::MAX ==> #[trigger] candidate_refused(is_taken, original@, j),
        r matches Some(p) ==> p@ != original@,
{
    let stem = match file_stem_of(original) {
        Some(s) => s,
        None => String::new(),
    };
    let ext = extension_of(original);
    let parent = match parent_of(original) {
        Some(p) => p,
        None => String::new(),
    };
    let ghost o = original@;
    let mut counter: u32 = 1;
    loop
        invariant
            forall|s: &str| is_taken.requires((s,)),
            1 <= counter,
            o == original@,
            stem@ == (match path_file_stem(o) {
                Some(s) => s,
                None => seq![],
            }),
            parent@ == (match path_parent(o) {
                Some(p) => p,
                None => seq![],
            }),
            (match ext {
                Some(e) => Some(e@),
                None => None,
            }) == path_extension(o),
            forall|j: nat| 1 <= j < counter ==> #[trigger] candidate_refused(is_taken, o, j),
        decreases u32::MAX - counter,
    {
        let name = repair_candidate_name(stem.as_str(), &ext, counter);
        let candidate = join_path(parent.as_str(), name.as_str());
        assert(candidate@ == repair_candidate(o, counter as nat));
        if !same_path(candidate.as_str(), original) {
            let c = candidate.as_str();
            if !is_taken(c) {
                assert(chosen_candidate(is_taken, o, counter as nat));
                return Some(candidate);
            }
            assert(candidate_refused(is_taken, o, counter as nat));
        }
        assert(candidate_refused(is_taken, o, counter as nat));
        if counter == u32::MAX {
            return None;
        }
        counter = counter + 1;
    }
}

} // verus!
