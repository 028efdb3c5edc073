//! Diagnosis and repair of damaged ZIP and RAR archives.

pub mod models;
pub mod path_gen;
pub mod zip_scanner;
pub mod zip_repairer;
pub mod rar_repairer;
pub mod rar_scanner;

use vstd::prelude::*;

use models::{
    DamageReport, RepairError, RepairErrorModel, RepairedEntry, RepairedEntryModel, ScanResult,
    ScanResultModel, entries_view, outcome_view,
};
use path_gen::{candidate_refused, chosen_candidate, generate_repair_path, repair_candidate};
use rar_repairer::{RarRepairer, headers_view, rar_output, rar_write_result};
use rar_scanner::{RarScanner, detected_version, rar_headers, rar_report, scan_limit};
use zip_repairer::{
    ZipRepairer, capped_u32, cd_rebuilt, covers_stored_bytes, lemma_chosen_size_covers, inferred_size, parseable_offsets, zip_output,
    zip_write_result,
};
use zip_scanner::{ZipScanner, lfh_data_start, lfh_fits, lfh_offsets, zip_report};
use crate::bytes::{le16, le32};

verus! {

// ---- Format detection -------------------------------------------------------------------

/// Detected archive format
#[derive(Debug, Clone, Copy, PartialEq, Eq, Structural)]
pub enum ArchiveFormat {
    Zip,
    Rar,
}

/// The four bytes `Rar!` stand at `i`.
pub open spec fn rar_magic_at(d: Seq<u8>, i: int) -> bool {
    &&& 0 <= i
    &&& i + 4 <= d.len()
    &&& d[i] == 0x52
    &&& d[i + 1] == 0x61
    &&& d[i + 2] == 0x72
    &&& d[i + 3] == 0x21
}

/// The format of an archive with contents `d`: ZIP when it starts with `PK`, RAR
/// when `Rar!` lies anywhere in its first 1024 bytes, none otherwise.
pub open spec fn format_of(d: Seq<u8>) -> Option<ArchiveFormat> {
    if d.len() < 2 {
        None
    } else if d[0] == 0x50 && d[1] == 0x4B {
        Some(ArchiveFormat::Zip)
    } else if exists|i: int| i + 4 <= scan_limit(d) && #[trigger] rar_magic_at(d, i) {
        Some(ArchiveFormat::Rar)
    } else {
        None
    }
}

// ---- What a repair produces ---------------------------------------------------------------

/// The Local File Header offsets found by the signature scan, as 64-bit offsets.
pub open spec fn zip_scan_offsets(d: Seq<u8>) -> Seq<u64> {
    lfh_offsets(d).map_values(|x: int| x as u64)
}

/// The entry written for the Local File Header at `p`: its fields as the rebuilt
/// Central Directory records them, its data found through the header at the 32-bit
/// offset that the directory records.
pub open spec fn planned_entry(d: Seq<u8>, p: u64) -> RepairedEntryModel {
    let o = p as int;
    RepairedEntryModel {
        filename: d.subrange(o + 30, o + 30 + le16(d, o + 26)),
        compression_method: le16(d, o + 8) as u16,
        crc32: le32(d, o + 14) as u32,
        compressed_size: if le32(d, o + 18) == 0 {
            capped_u32(inferred_size(d, lfh_data_start(d, o)))
        } else {
            le32(d, o + 18) as u32
        },
        uncompressed_size: le32(d, o + 22) as u32,
        data_offset: lfh_data_start(d, (p as u32) as int) as u64,
        last_mod_time: le16(d, o + 10) as u16,
        last_mod_date: le16(d, o + 12) as u16,
    }
}

/// The entry planned for repair from the Local File Header at `p` keeps the
/// header's compressed size when it is not 0, and otherwise takes exactly the
/// entry's stored bytes, up to the next record signature or the end of the data
/// (cut at `u32::MAX`): a streamed entry is repaired with its data.
pub proof fn lemma_planned_size_covers_stored_bytes(d: Seq<u8>, p: u64)
    ensures
        covers_stored_bytes(d, p as int, planned_entry(d, p).compressed_size),
{
    lemma_chosen_size_covers(d, p as int);
}

/// The entries written for the headers at `ps`: those whose recorded 32-bit offset
/// still leads to a complete Local File Header.
pub open spec fn planned_entries(d: Seq<u8>, ps: Seq<u64>) -> Seq<RepairedEntryModel>
    decreases ps.len(),
{
    if ps.len() == 0 {
        seq![]
    } else if lfh_fits(d, (ps.last() as u32) as int) {
        planned_entries(d, ps.drop_last()).push(planned_entry(d, ps.last()))
    } else {
        planned_entries(d, ps.drop_last())
    }
}

/// The entries written when repairing the ZIP archive `d`.
pub open spec fn zip_repair_entries(d: Seq<u8>) -> Seq<RepairedEntryModel> {
    planned_entries(d, parseable_offsets(d, zip_scan_offsets(d)))
}

/// A refusal to repair, with its message.
pub open spec fn not_repairable(m: Seq<char>) -> Result<ScanResultModel, RepairErrorModel> {
    Err(RepairErrorModel::NotRepairable(m))
}

/// The outcome of writing a repaired copy of the ZIP archive `d`.
pub open spec fn zip_repair_result(d: Seq<u8>) -> Result<ScanResultModel, RepairErrorModel> {
    if zip_scan_offsets(d).len() == 0 {
        not_repairable("No Local File Headers found in ZIP archive"@)
    } else if parseable_offsets(d, zip_scan_offsets(d)).len() == 0 {
        not_repairable("Could not reconstruct any Central Directory entries"@)
    } else if zip_repair_entries(d).len() == 0 {
        not_repairable("Could not build any repairable entries from ZIP archive"@)
    } else {
        Ok(zip_write_result(d, zip_repair_entries(d)))
    }
}

/// The outcome of writing a repaired copy of the RAR archive `d`.
pub open spec fn rar_repair_result(d: Seq<u8>) -> Result<ScanResultModel, RepairErrorModel> {
    match detected_version(d) {
        None => not_repairable("RAR marker not found in archive data"@),
        Some(v) => if rar_headers(d, v).len() == 0 {
            not_repairable("No headers found in RAR archive"@)
        } else {
            Ok(rar_write_result(d, rar_headers(d, v)))
        },
    }
}

/// The outcome of writing a repaired copy of the archive `d`, before it is judged.
pub open spec fn written_result(d: Seq<u8>) -> Result<ScanResultModel, RepairErrorModel> {
    match format_of(d) {
        None => Err(RepairErrorModel::NotAnArchive),
        Some(ArchiveFormat::Zip) => zip_repair_result(d),
        Some(ArchiveFormat::Rar) => rar_repair_result(d),
    }
}

/// The bytes of the repaired copy of the archive `d`; nothing when no copy is written.
pub open spec fn repaired_bytes(d: Seq<u8>) -> Seq<u8> {
    match format_of(d) {
        Some(ArchiveFormat::Zip) => if zip_repair_result(d) is Ok {
            zip_output(d, zip_repair_entries(d))
        } else {
            seq![]
        },
        Some(ArchiveFormat::Rar) => if rar_repair_result(d) is Ok {
            rar_output(d, rar_headers(d, detected_version(d)->0))
        } else {
            seq![]
        },
        None => seq![],
    }
}

/// What `repair` reports for an archive with contents `d` repaired to `path`.
pub open spec fn repair_outcome(d: Seq<u8>, path: Seq<char>) -> Result<ScanResultModel, RepairErrorModel> {
    classified(written_result(d), path)
}

/// A written result judged: with the output path recorded, a repair that lost some
/// entries but not all is partial, one that recovered nothing is refused, and the
/// rest succeed.
pub open spec fn classified(w: Result<ScanResultModel, RepairErrorModel>, path: Seq<char>) -> Result<
    ScanResultModel,
    RepairErrorModel,
> {
    match w {
        Err(e) => Err(e),
        Ok(s) => {
            let done = ScanResultModel {
                success: s.success,
                recovered_entries: s.recovered_entries,
                failed_entries: s.failed_entries,
                repaired_path: Some(path),
            };
            if s.recovered_entries.len() > 0 && s.failed_entries.len() > 0 {
                Err(RepairErrorModel::PartialRepair(done))
            } else if s.recovered_entries.len() == 0 {
                not_repairable("No entries could be recovered from the archive"@)
            } else {
                Ok(done)
            }
        },
    }
}

/// A repair that succeeds reports success, names the output path, recovered at least
/// one entry and lost none; a partial repair names the output path and lists entries
/// both recovered and lost.
pub proof fn lemma_repair_outcomes(d: Seq<u8>, path: Seq<char>)
    ensures
        classified(written_result(d), path) matches Ok(s) ==> s.success && s.repaired_path == Some(
            path,
        ) && s.failed_entries.len() == 0 && s.recovered_entries.len() > 0,
        classified(written_result(d), path) matches Err(RepairErrorModel::PartialRepair(s)) ==> !s.success
            && s.repaired_path == Some(path) && s.failed_entries.len() > 0
            && s.recovered_entries.len() > 0,
{
}

// ---- The engine -----------------------------------------------------------------------------

/// The main entry point for archive repair operations.
/// Detects archive format and routes to the appropriate scanner/repairer.
pub struct RepairEngine;

impl RepairEngine {
    /// Diagnose an archive with contents `data` — returns a damage report without
    /// modifying anything.
    pub fn diagnose(data: &[u8]) -> (r: Result<DamageReport, RepairError>)
        ensures
            match format_of(data@) {
                Some(ArchiveFormat::Zip) => r matches Ok(rep) && rep@ == zip_report(data@),
                Some(ArchiveFormat::Rar) => r matches Ok(rep) && rep@ == rar_report(data@),
                None => r matches Err(RepairError::NotAnArchive),
            },
    {
        match Self::detect_format(data) {
            Some(ArchiveFormat::Zip) => Ok(ZipScanner::diagnose(data)),
            Some(ArchiveFormat::Rar) => Ok(RarScanner::diagnose(data)),
            None => Err(RepairError::NotAnArchive),
        }
    }

    /// Repair an archive with contents `data`: the repaired copy is appended to
    /// `writer`, and `output_path` is where it is recorded to go.
    /// Calls progress_fn(current_step, total_steps, entry_name) for each entry processed.
    pub fn repair<F: Fn(u32, u32, &str)>(
        data: &[u8],
        output_path: &str,
        writer: &mut Vec<u8>,
        progress_fn: F,
    ) -> (r: Result<ScanResult, RepairError>)
        requires
            forall|a: u32, b: u32, c: &str| progress_fn.requires((a, b, c)),
        ensures
            outcome_view(r) == repair_outcome(data@, output_path@),
            final(writer)@ == old(writer)@ + repaired_bytes(data@),
    {
        let written = match Self::detect_format(data) {
            Some(ArchiveFormat::Zip) => Self::repair_zip(data, writer, progress_fn),
            Some(ArchiveFormat::Rar) => Self::repair_rar(data, writer, progress_fn),
            None => {
                assert(writer@ =~= old(writer)@ + repaired_bytes(data@));
                return Err(RepairError::NotAnArchive);
            },
        };
        let mut result = match written {
            Ok(s) => s,
            Err(e) => return Err(e),
        };
        result.repaired_path = Some(String::from_str(output_path));
        if result.recovered_entries.len() > 0 && result.failed_entries.len() > 0 {
            Err(RepairError::PartialRepair(result))
        } else if result.recovered_entries.len() == 0 {
            Err(
                RepairError::NotRepairable(
                    String::from_str("No entries could be recovered from the archive"),
                ),
            )
        } else {
            Ok(result)
        }
    }

    /// Convenience method: generates the output path next to `archive_path` (the
    /// first candidate that `is_taken` does not report as taken) and repairs.
    /// The outcome and the bytes written are those of `repair` on the path that
    /// `generate_repair_path` settles on; when it finds none, nothing is written.
    pub fn repair_auto<F: Fn(u32, u32, &str), G: Fn(&str) -> bool>(
        data: &[u8],
        archive_path: &str,
        is_taken: G,
        writer: &mut Vec<u8>,
        progress_fn: F,
    ) -> (r: Result<ScanResult, RepairError>)
        requires
            forall|a: u32, b: u32, c: &str| progress_fn.requires((a, b, c)),
            forall|s: &str| is_taken.requires((s,)),
        ensures
            r matches Err(RepairError::IoError(m)) ==> m@ == "No free path for the repaired archive"@
                && final(writer)@ == old(writer)@ && forall|j: nat|
                1 <= j <= u32::MAX ==> #[trigger] candidate_refused(is_taken, archive_path@, j),
            !(r matches Err(RepairError::IoError(_))) ==> final(writer)@ == old(writer)@
                + repaired_bytes(data@) && exists|k: nat|
                #[trigger] chosen_candidate(is_taken, archive_path@, k) && outcome_view(r)
                    == repair_outcome(data@, repair_candidate(archive_path@, k)),
            !(r matches Err(RepairError::IoError(_))) ==> exists|p: Seq<char>|
                p != archive_path@ && outcome_view(r) == repair_outcome(data@, p),
    {
        match generate_repair_path(archive_path, is_taken) {
            Some(output_path) => {
                let r = Self::repair(data, output_path.as_str(), writer, progress_fn);
                assert(outcome_view(r) == repair_outcome(data@, output_path@));
                r
            },
            None => Err(RepairError::IoError(String::from_str("No free path for the repaired archive"))),
        }
    }

    /// Detect archive format by checking magic bytes.
    /// - Starts with `PK` (0x50, 0x4B) → ZIP
    /// - Starts with `Rar!` (0x52, 0x61, 0x72, 0x21) → RAR
    /// - Also checks within first 1024 bytes for RAR marker (garbage prefix case)
    pub fn detect_format(data: &[u8]) -> (f: Option<ArchiveFormat>)
        ensures
            f == format_of(data@),
    {
        let len = data.len();
        if len < 2 {
            return None;
        }
        if data[0] == 0x50 && data[1] == 0x4B {
            return Some(ArchiveFormat::Zip);
        }
        let ghost d = data@;
        if len >= 4 && data[0] == 0x52 && data[1] == 0x61 && data[2] == 0x72 && data[3] == 0x21 {
            assert(rar_magic_at(d, 0));
            return Some(ArchiveFormat::Rar);
        }
        let lim: usize = if len < 1024 {
            len
        } else {
            1024
        };
        let end: usize = if lim >= 3 {
            lim - 3
        } else {
            0
        };
        let mut i: usize = 1;
        while i < end
            invariant
                1 <= i,
                lim == scan_limit(d),
                lim <= len == d.len(),
                end == (if lim >= 3 { lim - 3 } else { 0 }),
                d == data@,
                d.len() >= 2,
                !(d[0] == 0x50 && d[1] == 0x4B),
                forall|q: int| 0 <= q < i ==> !#[trigger] rar_magic_at(d, q),
            decreases end - i,
        {
            if data[i] == 0x52 && data[i + 1] == 0x61 && data[i + 2] == 0x72 && data[i + 3] == 0x21 {
                assert(rar_magic_at(d, i as int) && i + 4 <= scan_limit(d));
                return Some(ArchiveFormat::Rar);
            }
            i = i + 1;
        }
        assert forall|q: int| q + 4 <= scan_limit(d) implies !#[trigger] rar_magic_at(d, q) by {
            if 0 <= q {
                assert(q < i);
            }
        }
        None
    }

    /// Perform ZIP repair: scan LFH signatures, reconstruct CD, write repaired archive.
    fn repair_zip<F: Fn(u32, u32, &str)>(data: &[u8], writer: &mut Vec<u8>, progress_fn: F) -> (r:
        Result<ScanResult, RepairError>)
        requires
            forall|a: u32, b: u32, c: &str| progress_fn.requires((a, b, c)),
        ensures
            outcome_view(r) == zip_repair_result(data@),
            final(writer)@ == old(writer)@ + (if r is Ok {
                zip_output(data@, zip_repair_entries(data@))
            } else {
                seq![]
            }),
    {
        let ghost d = data@;
        let offsets = ZipScanner::scan_lfh_signatures(data);
        assert(offsets@ =~= zip_scan_offsets(d)) by {
            assert forall|j: int| 0 <= j < offsets@.len() implies offsets@[j] == zip_scan_offsets(
                d,
            )[j] by {
                assert(offsets@.map_values(|x: u64| x as int)[j] == offsets@[j] as int);
            }
        }
        if offsets.len() == 0 {
            return Err(
                RepairError::NotRepairable(
                    String::from_str("No Local File Headers found in ZIP archive"),
                ),
            );
        }
        let cd_entries = ZipRepairer::reconstruct_cd(data, offsets.as_slice());
        let ghost ps = parseable_offsets(d, offsets@);
        if cd_entries.len() == 0 {
            return Err(
                RepairError::NotRepairable(
                    String::from_str("Could not reconstruct any Central Directory entries"),
                ),
            );
        }
        let mut entries: Vec<RepairedEntry> = Vec::new();
        let mut i: usize = 0;
        while i < cd_entries.len()
            invariant
                i <= cd_entries.len(),
                d == data@,
                cd_entries.len() == ps.len(),
                forall|j: int|
                    0 <= j < cd_entries.len() ==> cd_rebuilt(#[trigger] cd_entries@[j], d, ps[j]),
                entries_view(entries@) == planned_entries(d, ps.take(i as int)),
            decreases cd_entries.len() - i,
        {
            let cd = &cd_entries[i];
            assert(cd_rebuilt(cd_entries@[i as int], d, ps[i as int]));
            assert(ps.take(i + 1).drop_last() =~= ps.take(i as int));
            assert(ps.take(i + 1).last() == ps[i as int]);
            match ZipScanner::parse_lfh(data, cd.local_header_offset as u64) {
                Some(lfh) => {
                    entries.push(
                        RepairedEntry {
                            filename: cd.filename.clone(),
                            compression_method: cd.compression_method,
                            crc32: cd.crc32,
                            compressed_size: cd.compressed_size,
                            uncompressed_size: cd.uncompressed_size,
                            data_offset: lfh.data_offset,
                            last_mod_time: cd.last_mod_time,
                            last_mod_date: cd.last_mod_date,
                        },
                    );
                    proof {
                        let e = entries@[entries@.len() - 1];
                        assert(e@ == planned_entry(d, ps[i as int]));
                        assert(entries_view(entries@) =~= planned_entries(d, ps.take(i + 1)));
                    }
                },
                None => {
                    assert(entries_view(entries@) =~= planned_entries(d, ps.take(i + 1)));
                },
            }
            i = i + 1;
        }
        assert(ps.take(i as int) =~= ps);
        if entries.len() == 0 {
            return Err(
                RepairError::NotRepairable(
                    String::from_str("Could not build any repairable entries from ZIP archive"),
                ),
            );
        }
        ZipRepairer::write_repaired(data, entries.as_slice(), writer, progress_fn)
    }

    /// Perform RAR repair: detect version, scan headers, write repaired archive.
    fn repair_rar<F: Fn(u32, u32, &str)>(data: &[u8], writer: &mut Vec<u8>, progress_fn: F) -> (r:
        Result<ScanResult, RepairError>)
        requires
            forall|a: u32, b: u32, c: &str| progress_fn.requires((a, b, c)),
        ensures
            outcome_view(r) == rar_repair_result(data@),
            final(writer)@ == old(writer)@ + (if r is Ok {
                rar_output(data@, rar_headers(data@, detected_version(data@)->0))
            } else {
                seq![]
            }),
    {
        let version = match RarScanner::check_marker(data) {
            Some(v) => v,
            None => {
                return Err(
                    RepairError::NotRepairable(
                        String::from_str("RAR marker not found in archive data"),
                    ),
                );
            },
        };
        let headers = RarScanner::scan_headers(data, version);
        if headers.len() == 0 {
            return Err(RepairError::NotRepairable(String::from_str("No headers found in RAR archive")));
        }
        assert(headers_view(headers@) == rar_headers(data@, version));
        RarRepairer::write_repaired(data, headers.as_slice(), writer, progress_fn)
    }
}

} // verus!
