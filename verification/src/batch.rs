//! Batch extraction: which files count as archives, and the outcome of a batch run.

use vstd::prelude::*;
use std::sync::atomic::AtomicBool;

use crate::cancel::cancel_requested;
use crate::errors::{LockError, LockErrorModel, error_message};
use crate::paths::{extension_of, file_name_of, path_extension};
use crate::text::{chars_of, lowercase, to_lowercase};

verus! {

// ---- Supported archive types ----------------------------------------------------------------

/// `s` is made of decimal digits only.
pub open spec fn all_digits(s: Seq<char>) -> bool {
    forall|i: int| 0 <= i < s.len() ==> '0' <= #[trigger] s[i] <= '9'
}

/// The value of the decimal digits `s`.
pub open spec fn digits_value(s: Seq<char>) -> nat
    decreases s.len(),
{
    if s.len() == 0 {
        0
    } else {
        digits_value(s.drop_last()) * 10 + ((s.last() as int) - ('0' as int)) as nat
    }
}

/// `s` is one or more decimal digits, with no sign, whose value fits in a `u32`.
pub open spec fn digits_fit_u32(s: Seq<char>) -> bool {
    s.len() > 0 && all_digits(s) && digits_value(s) <= u32::MAX
}

/// A lower-case extension of an archive format that batch extraction handles:
/// the ZIP family, the TAR family and its compressors, 7z, RAR, CAB, ISO, the first
/// volume `001` of a split archive, and the WinZip volumes `z01`, `z02`, ...
pub open spec fn supported_extension(e: Seq<char>) -> bool {
    ||| e == "zip"@
    ||| e == "apk"@
    ||| e == "ipa"@
    ||| e == "jar"@
    ||| e == "war"@
    ||| e == "ear"@
    ||| e == "tar"@
    ||| e == "gz"@
    ||| e == "bz2"@
    ||| e == "xz"@
    ||| e == "zst"@
    ||| e == "7z"@
    ||| e == "rar"@
    ||| e == "cab"@
    ||| e == "iso"@
    ||| e == "001"@
    ||| (e.len() > 1 && e[0] == 'z' && digits_fit_u32(e.subrange(1, e.len() as int)))
}

/// The path `p` names a supported archive: its extension, lower-cased, is supported.
pub open spec fn is_supported_path(p: Seq<char>) -> bool {
    match path_extension(p) {
        Some(e) => supported_extension(lowercase(e)),
        None => false,
    }
}

/// The paths among `ps` that name supported archives, in order.
pub open spec fn supported_only(ps: Seq<Seq<char>>) -> Seq<Seq<char>>
    decreases ps.len(),
{
    if ps.len() == 0 {
        seq![]
    } else if is_supported_path(ps.last()) {
        supported_only(ps.drop_last()).push(ps.last())
    } else {
        supported_only(ps.drop_last())
    }
}

/// The extensions that batch extraction documents as supported, besides the WinZip
/// volumes `z01`, `z02`, ...: the ZIP family, the tar family with its compressors,
/// 7z, RAR, CAB, ISO, and the first volume `001` of a split archive.
pub open spec fn documented_archive_extensions() -> Seq<Seq<char>> {
    seq![
        "zip"@, "7z"@, "rar"@, "tar"@, "gz"@, "bz2"@, "xz"@, "zst"@, "cab"@, "iso"@, "apk"@,
        "ipa"@, "jar"@, "war"@, "ear"@, "001"@,
    ]
}

/// `l` names a WinZip volume: `z` followed by one or more decimal digits whose value
/// fits in a `u32`.
pub open spec fn winzip_volume_extension(l: Seq<char>) -> bool {
    &&& l.len() > 1
    &&& l[0] == 'z'
    &&& forall|j: int| 1 <= j < l.len() ==> '0' <= #[trigger] l[j] <= '9'
    &&& digits_value(l.subrange(1, l.len() as int)) <= u32::MAX
}

/// A path whose extension, ignoring case, is one of the documented ones (or names a
/// WinZip volume) is a supported archive.
pub proof fn lemma_documented_extensions_supported(path: Seq<char>, e: Seq<char>)
    requires
        path_extension(path) == Some(e),
        documented_archive_extensions().contains(lowercase(e)) || winzip_volume_extension(
            lowercase(e),
        ),
    ensures
        is_supported_path(path),
{
    let l = lowercase(e);
    if documented_archive_extensions().contains(l) {
        let t = documented_archive_extensions();
        let i = choose|i: int| 0 <= i < t.len() && t[i] == l;
        assert(t[0] == "zip"@ && t[1] == "7z"@ && t[2] == "rar"@ && t[3] == "tar"@);
        assert(t[4] == "gz"@ && t[5] == "bz2"@ && t[6] == "xz"@ && t[7] == "zst"@);
        assert(t[8] == "cab"@ && t[9] == "iso"@ && t[10] == "apk"@ && t[11] == "ipa"@);
        assert(t[12] == "jar"@ && t[13] == "war"@ && t[14] == "ear"@ && t[15] == "001"@);
    } else {
        let d = l.subrange(1, l.len() as int);
        assert forall|j: int| 0 <= j < d.len() implies '0' <= #[trigger] d[j] <= '9' by {
            assert(d[j] == l[j + 1]);
        }
    }
}

/// Every supported path among `ps` is kept by filtering.
pub proof fn lemma_supported_kept(ps: Seq<Seq<char>>, i: int)
    requires
        0 <= i < ps.len(),
        is_supported_path(ps[i]),
    ensures
        supported_only(ps).contains(ps[i]),
    decreases ps.len(),
{
    if i < ps.len() - 1 {
        lemma_supported_kept(ps.drop_last(), i);
        assert(ps.drop_last()[i] == ps[i]);
        let k = choose|k: int|
            0 <= k < supported_only(ps.drop_last()).len() && supported_only(ps.drop_last())[k] == ps[i];
        if is_supported_path(ps.last()) {
            assert(supported_only(ps)[k] == ps[i]);
        }
    } else {
        let n = supported_only(ps).len() - 1;
        assert(supported_only(ps)[n] == ps[i]);
    }
}

/// Filtering keeps only supported paths, each taken from the input.
pub proof fn lemma_supported_only(ps: Seq<Seq<char>>)
    ensures
        forall|i: int|
            0 <= i < supported_only(ps).len() ==> is_supported_path(#[trigger] supported_only(ps)[i])
                && ps.contains(supported_only(ps)[i]),
        supported_only(ps).len() <= ps.len(),
    decreases ps.len(),
{
    if ps.len() > 0 {
        let prev = ps.drop_last();
        lemma_supported_only(prev);
        assert forall|i: int| 0 <= i < supported_only(ps).len() implies is_supported_path(
            #[trigger] supported_only(ps)[i],
        ) && ps.contains(supported_only(ps)[i]) by {
            if i < supported_only(prev).len() {
                let x = supported_only(prev)[i];
                assert(supported_only(ps)[i] == x);
                let k = choose|k: int| 0 <= k < prev.len() && prev[k] == x;
                assert(ps[k] == x);
            } else {
                assert(ps[ps.len() - 1] == ps.last());
            }
        }
    }
}

/// The text of each string in a list.
pub open spec fn texts(v: Seq<String>) -> Seq<Seq<char>> {
    v.map_values(|s: String| s@)
}

/// The value of a digit prefix never exceeds the value of all the digits.
pub proof fn lemma_digits_prefix(s: Seq<char>, i: int)
    requires
        all_digits(s),
        0 <= i <= s.len(),
    ensures
        digits_value(s.take(i)) <= digits_value(s),
    decreases s.len(),
{
    if i < s.len() {
        assert(all_digits(s.drop_last()));
        assert(s.drop_last().take(i) =~= s.take(i));
        lemma_digits_prefix(s.drop_last(), i);
    } else {
        assert(s.take(i) =~= s);
    }
}

/// Whether the characters `a` spell the string `lit`.
pub(crate) fn text_is(a: &Vec<char>, lit: &str) -> (r: bool)
    ensures
        r == (a@ == lit@),
{
    let l = chars_of(lit);
    if a.len() != l.len() {
        return false;
    }
    let mut i: usize = 0;
    while i < a.len()
        invariant
            i <= a.len() == l.len(),
            l@ == lit@,
            forall|j: int| 0 <= j < i ==> a@[j] == l@[j],
        decreases a.len() - i,
    {
        if a[i] != l[i] {
            return false;
        }
        i = i + 1;
    }
    assert(a@ =~= l@);
    true
}

/// Whether `e[start..]` is one or more decimal digits whose value fits in a `u32`.
pub(crate) fn digits_fit_u32_from(e: &Vec<char>, start: usize) -> (r: bool)
    requires
        start <= e@.len(),
    ensures
        r == digits_fit_u32(e@.subrange(start as int, e@.len() as int)),
{
    let from = start;
    let ghost t = e@.subrange(from as int, e@.len() as int);
    if from == e.len() {
        return false;
    }
    let mut value: u64 = 0;
    let mut k: usize = from;
    while k < e.len()
        invariant
            from <= k <= e@.len(),
            t == e@.subrange(from as int, e@.len() as int),
            t.len() > 0,
            digits_fit_u32(e@.subrange(start as int, e@.len() as int)) == (all_digits(t)
                && digits_value(t) <= u32::MAX),
            all_digits(t.take(k - from)),
            value == digits_value(t.take(k - from)),
            value <= u32::MAX,
        decreases e.len() - k,
    {
        let c = e[k];
        if c < '0' || c > '9' {
            assert(t[k - from] == c);
            assert(!all_digits(t));
            return false;
        }
        let d = (c as u32 - '0' as u32) as u64;
        assert(t.take(k + 1 - from).drop_last() =~= t.take(k - from));
        assert(t.take(k + 1 - from).last() == c);
        assert(value * 10 <= 0xFFFF_FFFFu64 * 10) by (nonlinear_arith)
            requires
                value <= 0xFFFF_FFFFu64,
        ;
        value = value * 10 + d;
        assert(all_digits(t.take(k + 1 - from)));
        assert(value == digits_value(t.take(k + 1 - from)));
        if value > 0xFFFF_FFFF {
            proof {
                if all_digits(t) {
                    lemma_digits_prefix(t, k + 1 - from);
                }
            }
            return false;
        }
        k = k + 1;
    }
    assert(t.take(k - from) =~= t);
    true
}

/// Whether the lower-case extension `e` belongs to a supported archive.
fn supported_extension_chars(e: &Vec<char>) -> (r: bool)
    ensures
        r == supported_extension(e@),
{
    if text_is(e, "zip") || text_is(e, "apk") || text_is(e, "ipa") || text_is(e, "jar")
        || text_is(e, "war") || text_is(e, "ear") || text_is(e, "tar") || text_is(e, "gz")
        || text_is(e, "bz2") || text_is(e, "xz") || text_is(e, "zst") || text_is(e, "7z")
        || text_is(e, "rar") || text_is(e, "cab") || text_is(e, "iso") || text_is(e, "001") {
        return true;
    }
    e.len() > 1 && e[0] == 'z' && digits_fit_u32_from(e, 1)
}

/// Whether the path names a supported archive format, judged by its extension
/// (lower-cased): zip, 7z, rar, tar, gz, bz2, xz, zst, cab, iso, apk, ipa, jar,
/// war, ear, the split volume `.001`, and WinZip volumes `.z01`, `.z02`, ...
pub fn is_supported_archive(path: &str) -> (r: bool)
    ensures
        r == is_supported_path(path@),
        forall|e: Seq<char>|
            path_extension(path@) == Some(e) && (documented_archive_extensions().contains(
                #[trigger] lowercase(e),
            ) || winzip_volume_extension(lowercase(e))) ==> r,
{
    proof {
        assert forall|e: Seq<char>|
            path_extension(path@) == Some(e) && (documented_archive_extensions().contains(
                #[trigger] lowercase(e),
            ) || winzip_volume_extension(lowercase(e))) implies is_supported_path(path@) by {
            lemma_documented_extensions_supported(path@, e);
        }
    }
    let ext = match extension_of(path) {
        Some(e) => to_lowercase(e.as_str()),
        None => return false,
    };
    let cs = chars_of(ext.as_str());
    supported_extension_chars(&cs)
}

/// Keeps the paths that name supported archive formats, in order.
pub fn filter_supported_archives(paths: &[String]) -> (r: Vec<String>)
    ensures
        texts(r@) == supported_only(texts(paths@)),
        forall|i: int, e: Seq<char>|
            #![trigger paths@[i], lowercase(e)]
            0 <= i < paths@.len() && path_extension(paths@[i]@) == Some(e) && (
            documented_archive_extensions().contains(lowercase(e))
                || winzip_volume_extension(lowercase(e))) ==> texts(r@).contains(paths@[i]@),
{
    proof {
        assert forall|i: int, e: Seq<char>|
            #![trigger paths@[i], lowercase(e)]
            0 <= i < paths@.len() && path_extension(paths@[i]@) == Some(e) && (
            documented_archive_extensions().contains(lowercase(e))
                || winzip_volume_extension(lowercase(e))) implies supported_only(
            texts(paths@),
        ).contains(paths@[i]@) by {
            lemma_documented_extensions_supported(paths@[i]@, e);
            assert(texts(paths@)[i] == paths@[i]@);
            lemma_supported_kept(texts(paths@), i);
        }
    }
    let mut r: Vec<String> = Vec::new();
    let mut i: usize = 0;
    while i < paths.len()
        invariant
            i <= paths.len(),
            texts(r@) == supported_only(texts(paths@).take(i as int)),
        decreases paths.len() - i,
    {
        let ghost ps = texts(paths@);
        assert(ps.take(i + 1).drop_last() =~= ps.take(i as int));
        assert(ps.take(i + 1).last() == paths@[i as int]@);
        if is_supported_archive(paths[i].as_str()) {
            r.push(paths[i].clone());
        }
        assert(texts(r@) =~= supported_only(ps.take(i + 1)));
        i = i + 1;
    }
    assert(texts(paths@).take(i as int) =~= texts(paths@));
    r
}

// ---- Batch outcome ----------------------------------------------------------------------------

/// The state of one archive in a batch.
#[derive(Debug, Clone, PartialEq)]
pub enum ArchiveStatus {
    /// Not processed yet
    Pending,
    /// Being extracted
    Extracting,
    /// Extracted
    Success,
    /// Extraction failed, with the error message
    Failed(String),
    /// A password is required
    PasswordRequired,
    /// Detected as a zip bomb
    ZipBomb,
    /// Skipped because the batch was cancelled first
    Skipped,
}

/// The value of an `ArchiveStatus`, with the failure message as characters.
pub enum ArchiveStatusModel {
    Pending,
    Extracting,
    Success,
    Failed(Seq<char>),
    PasswordRequired,
    ZipBomb,
    Skipped,
}

impl View for ArchiveStatus {
    type V = ArchiveStatusModel;

    open spec fn view(&self) -> ArchiveStatusModel {
        match self {
            ArchiveStatus::Pending => ArchiveStatusModel::Pending,
            ArchiveStatus::Extracting => ArchiveStatusModel::Extracting,
            ArchiveStatus::Success => ArchiveStatusModel::Success,
            ArchiveStatus::Failed(m) => ArchiveStatusModel::Failed(m@),
            ArchiveStatus::PasswordRequired => ArchiveStatusModel::PasswordRequired,
            ArchiveStatus::ZipBomb => ArchiveStatusModel::ZipBomb,
            ArchiveStatus::Skipped => ArchiveStatusModel::Skipped,
        }
    }
}

/// The complete result of a batch.
#[derive(Debug)]
pub struct BatchResult {
    /// Each archive's path and final state
    pub results: Vec<(String, ArchiveStatus)>,
    /// Whether the user cancelled the batch
    pub cancelled: bool,
    /// How many archives were extracted
    pub total_files_extracted: u32,
}

/// Progress of a batch, reported to the caller.
pub struct BatchProgress {
    /// Index of the current archive (0-based)
    pub archive_index: u32,
    /// Number of archives
    pub archive_count: u32,
    /// Progress within the current archive, 0-100
    pub file_percent: i32,
    /// Name of the file being extracted
    pub current_file_name: String,
}

/// A status that counts as a failure: failed, password required, zip bomb or skipped.
pub open spec fn is_failure(s: ArchiveStatusModel) -> bool {
    s is Failed || s is PasswordRequired || s is ZipBomb || s is Skipped
}

/// How many of the results are successes (or, with `failures`, failures).
pub open spec fn count_status(rs: Seq<(String, ArchiveStatus)>, failures: bool) -> nat
    decreases rs.len(),
{
    if rs.len() == 0 {
        0
    } else {
        let s = rs.last().1@;
        count_status(rs.drop_last(), failures) + if (failures && is_failure(s)) || (!failures
            && s is Success) {
            1nat
        } else {
            0nat
        }
    }
}

/// No result counts both as a success and as a failure: together they never exceed
/// the number of results.
pub proof fn lemma_counts_within_results(rs: Seq<(String, ArchiveStatus)>)
    ensures
        count_status(rs, false) + count_status(rs, true) <= rs.len(),
    decreases rs.len(),
{
    if rs.len() > 0 {
        lemma_counts_within_results(rs.drop_last());
    }
}

/// How many of the results are still pending or being extracted.
pub open spec fn count_unfinished(rs: Seq<(String, ArchiveStatus)>) -> nat
    decreases rs.len(),
{
    if rs.len() == 0 {
        0
    } else {
        let s = rs.last().1@;
        count_unfinished(rs.drop_last()) + if s is Pending || s is Extracting {
            1nat
        } else {
            0nat
        }
    }
}

/// Every result is a success, a failure, or unfinished (pending or being
/// extracted), and only one of these: the three counts add up to the number of
/// results.
pub proof fn lemma_counts_partition(rs: Seq<(String, ArchiveStatus)>)
    ensures
        count_status(rs, false) + count_status(rs, true) + count_unfinished(rs) == rs.len(),
    decreases rs.len(),
{
    if rs.len() > 0 {
        lemma_counts_partition(rs.drop_last());
    }
}

/// Counts the successes (or, with `failures`, the failures) among the results.
fn count_results(rs: &Vec<(String, ArchiveStatus)>, failures: bool) -> (n: usize)
    ensures
        n == count_status(rs@, failures),
{
    let mut n: usize = 0;
    let mut i: usize = 0;
    while i < rs.len()
        invariant
            i <= rs.len(),
            n == count_status(rs@.take(i as int), failures),
            n <= i,
        decreases rs.len() - i,
    {
        assert(rs@.take(i + 1).drop_last() =~= rs@.take(i as int));
        let counted = match &rs[i].1 {
            ArchiveStatus::Success => !failures,
            ArchiveStatus::Failed(_) => failures,
            ArchiveStatus::PasswordRequired => failures,
            ArchiveStatus::ZipBomb => failures,
            ArchiveStatus::Skipped => failures,
            _ => false,
        };
        if counted {
            n = n + 1;
        }
        i = i + 1;
    }
    assert(rs@.take(i as int) =~= rs@);
    n
}

impl BatchResult {
    /// The number of archives that were extracted.
    pub fn success_count(&self) -> (n: u32)
        ensures
            n == count_status(self.results@, false) as u32,
    {
        let n = count_results(&self.results, false);
        #[verifier::truncate] (n as u32)
    }

    /// The number of archives that failed (failed, password required, zip bomb or skipped).
    pub fn failure_count(&self) -> (n: u32)
        ensures
            n == count_status(self.results@, true) as u32,
    {
        let n = count_results(&self.results, true);
        #[verifier::truncate] (n as u32)
    }
}

/// The state an extraction error leaves an archive in.
pub open spec fn status_for_error(e: LockErrorModel) -> ArchiveStatusModel {
    match e {
        LockErrorModel::PasswordRequired(_) => ArchiveStatusModel::PasswordRequired,
        LockErrorModel::ZipBomb(_) => ArchiveStatusModel::ZipBomb,
        _ => ArchiveStatusModel::Failed(error_message(e)),
    }
}

/// The state an extraction outcome leaves an archive in.
pub open spec fn status_for_outcome(r: Result<(), LockError>) -> ArchiveStatusModel {
    match r {
        Ok(()) => ArchiveStatusModel::Success,
        Err(e) => status_for_error(e@),
    }
}

/// `status` is what an extraction of `archive` into `output_dir` by `extract_one`
/// left the archive in, for some outcome that `extract_one` can produce.
pub open spec fn extracted_as<E: Fn(&str, &str, u32, u32) -> Result<(), LockError>>(
    extract_one: E,
    archive: Seq<char>,
    output_dir: Seq<char>,
    status: ArchiveStatusModel,
) -> bool {
    exists|a: &str, o: &str, k: u32, n: u32, out: Result<(), LockError>|
        a@ == archive && o@ == output_dir && #[trigger] extract_one.ensures((a, o, k, n), out)
            && status == status_for_outcome(out)
}

/// Map a `LockError` to the corresponding `ArchiveStatus`.
pub fn map_lock_error_to_status(err: LockError) -> (s: ArchiveStatus)
    ensures
        s@ == status_for_error(err@),
{
    match err {
        LockError::PasswordRequired(_) => ArchiveStatus::PasswordRequired,
        LockError::ZipBomb(_) => ArchiveStatus::ZipBomb,
        other => ArchiveStatus::Failed(other.message()),
    }
}

/// Runs a batch: each archive in turn is extracted by `extract_one` (given the archive,
/// the output directory, the archive's index and the number of archives), and its
/// state recorded. Before each archive `is_cancelled` is asked; once it is set, that
/// archive and all after it are marked `Skipped`. One archive's error does not stop
/// the others. `progress_fn` hears of each archive at 0% before it starts and at 100%
/// when it succeeds.
pub fn batch_extract_with<E, F, C>(
    archives: &[String],
    output_dir: &str,
    is_cancelled: C,
    extract_one: E,
    progress_fn: F,
) -> (r: BatchResult) where
    E: Fn(&str, &str, u32, u32) -> Result<(), LockError>,
    F: Fn(BatchProgress),
    C: Fn() -> bool,

    requires
        forall|a: &str, o: &str, i: u32, n: u32| extract_one.requires((a, o, i, n)),
        forall|p: BatchProgress| progress_fn.requires((p,)),
        is_cancelled.requires(()),
    ensures
        r.results.len() == archives.len(),
        forall|i: int| 0 <= i < archives.len() ==> (#[trigger] r.results@[i]).0@ == archives@[i]@,
        forall|i: int, j: int|
            0 <= i <= j < archives.len() && (#[trigger] r.results@[i]).1 is Skipped ==> (
            #[trigger] r.results@[j]).1 is Skipped,
        forall|i: int|
            0 <= i < archives.len() && !((#[trigger] r.results@[i]).1 is Skipped) ==> extracted_as(
                extract_one,
                archives@[i]@,
                output_dir@,
                r.results@[i].1@,
            ),
        forall|i: int|
            0 <= i < archives.len() ==> !((#[trigger] r.results@[i]).1 is Pending) && !(
            r.results@[i].1 is Extracting),
        r.cancelled <==> (archives.len() > 0 && r.results@[archives.len() - 1].1 is Skipped),
        r.cancelled ==> is_cancelled.ensures((), true),
        (forall|b: bool| is_cancelled.ensures((), b) ==> !b) ==> !r.cancelled && forall|i: int|
            0 <= i < archives.len() ==> !((#[trigger] r.results@[i]).1 is Skipped),
        archives.len() > 0 && (forall|b: bool| is_cancelled.ensures((), b) ==> b) ==> forall|i: int|
            0 <= i < archives.len() ==> (#[trigger] r.results@[i]).1 is Skipped,
        r.total_files_extracted == count_status(r.results@, false) as u32,
{
    let archive_count = #[verifier::truncate] (archives.len() as u32);
    let mut results: Vec<(String, ArchiveStatus)> = Vec::new();
    let mut cancelled = false;
    let mut index: usize = 0;
    while index < archives.len()
        invariant
            index <= archives.len(),
            results.len() == index,
            !cancelled,
            forall|a: &str, o: &str, i: u32, n: u32| extract_one.requires((a, o, i, n)),
            forall|p: BatchProgress| progress_fn.requires((p,)),
            forall|i: int| 0 <= i < index ==> (#[trigger] results@[i]).0@ == archives@[i]@,
            forall|i: int|
                0 <= i < index ==> extracted_as(
                    extract_one,
                    archives@[i]@,
                    output_dir@,
                    (#[trigger] results@[i]).1@,
                ),
            forall|i: int| 0 <= i < index ==> !((#[trigger] results@[i]).1 is Skipped),
            forall|i: int|
                0 <= i < index ==> !((#[trigger] results@[i]).1 is Pending) && !(results@[i].1 is Extracting),
            is_cancelled.requires(()),
            index > 0 ==> is_cancelled.ensures((), false),
        decreases archives.len() - index,
    {
        if is_cancelled() {
            cancelled = true;
            let ghost done = index as int;
            let mut j = index;
            while j < archives.len()
                invariant
                    0 <= done <= j <= archives.len(),
                    results.len() == j,
                    forall|i: int| 0 <= i < j ==> (#[trigger] results@[i]).0@ == archives@[i]@,
                    forall|i: int| done <= i < j ==> (#[trigger] results@[i]).1 is Skipped,
                    forall|i: int|
                        0 <= i < done ==> extracted_as(
                            extract_one,
                            archives@[i]@,
                            output_dir@,
                            (#[trigger] results@[i]).1@,
                        ),
                    forall|i: int| 0 <= i < done ==> !((#[trigger] results@[i]).1 is Skipped),
                    forall|i: int|
                        0 <= i < done ==> !((#[trigger] results@[i]).1 is Pending) && !(
                        results@[i].1 is Extracting),
                    done < archives.len(),
                    is_cancelled.ensures((), true),
                    index == 0 ==> done == 0,
                decreases archives.len() - j,
            {
                results.push((archives[j].clone(), ArchiveStatus::Skipped));
                j = j + 1;
            }
            let total_files_extracted = #[verifier::truncate] (count_results(&results, false) as u32);
            return BatchResult { results, cancelled, total_files_extracted };
        }
        let archive_index = #[verifier::truncate] (index as u32);
        let archive = archives[index].as_str();
        let file_name = match file_name_of(archive) {
            Some(n) => n,
            None => String::from_str("unknown"),
        };
        progress_fn(
            BatchProgress {
                archive_index,
                archive_count,
                file_percent: 0,
                current_file_name: file_name.clone(),
            },
        );
        let outcome = extract_one(archive, output_dir, archive_index, archive_count);
        let ghost seen = outcome;
        let status = match outcome {
            Ok(()) => {
                progress_fn(
                    BatchProgress {
                        archive_index,
                        archive_count,
                        file_percent: 100,
                        current_file_name: file_name,
                    },
                );
                ArchiveStatus::Success
            },
            Err(e) => map_lock_error_to_status(e),
        };
        assert(status@ == status_for_outcome(seen));
        assert(extracted_as(extract_one, archives@[index as int]@, output_dir@, status@));
        results.push((archives[index].clone(), status));
        index = index + 1;
    }
    let total_files_extracted = #[verifier::truncate] (count_results(&results, false) as u32);
    BatchResult { results, cancelled, total_files_extracted }
}

/// Runs a batch as `batch_extract_with` does, asking the flag `cancel_flag` (set by
/// another thread) before each archive whether the batch was cancelled.
pub fn batch_extract<E, F>(
    archives: &[String],
    output_dir: &str,
    cancel_flag: &AtomicBool,
    extract_one: E,
    progress_fn: F,
) -> (r: BatchResult) where
    E: Fn(&str, &str, u32, u32) -> Result<(), LockError>,
    F: Fn(BatchProgress),

    requires
        forall|a: &str, o: &str, i: u32, n: u32| extract_one.requires((a, o, i, n)),
        forall|p: BatchProgress| progress_fn.requires((p,)),
    ensures
        r.results.len() == archives.len(),
        forall|i: int| 0 <= i < archives.len() ==> (#[trigger] r.results@[i]).0@ == archives@[i]@,
        forall|i: int, j: int|
            0 <= i <= j < archives.len() && (#[trigger] r.results@[i]).1 is Skipped ==> (
            #[trigger] r.results@[j]).1 is Skipped,
        forall|i: int|
            0 <= i < archives.len() && !((#[trigger] r.results@[i]).1 is Skipped) ==> extracted_as(
                extract_one,
                archives@[i]@,
                output_dir@,
                r.results@[i].1@,
            ),
        forall|i: int|
            0 <= i < archives.len() ==> !((#[trigger] r.results@[i]).1 is Pending) && !(
            r.results@[i].1 is Extracting),
        r.cancelled <==> (archives.len() > 0 && r.results@[archives.len() - 1].1 is Skipped),
        r.total_files_extracted == count_status(r.results@, false) as u32,
{
    batch_extract_with(archives, output_dir, || cancel_requested(cancel_flag), extract_one, progress_fn)
}

} // verus!
