//! Data types shared by the ZIP and RAR scanners and repairers.

use vstd::prelude::*;

verus! {

/// Diagnosis report describing the state of a damaged archive.
#[derive(Debug, Clone, PartialEq)]
pub struct DamageReport {
    /// Archive format: "zip" or "rar"
    pub format: String,
    /// Total entries detected in the archive
    pub total_entries: u32,
    /// Entries with valid, intact headers
    pub valid_entries: u32,
    /// Entries with corrupted but potentially repairable headers
    pub corrupted_entries: u32,
    /// Entries that cannot be recovered
    pub unrecoverable_entries: u32,
    /// Detailed damage descriptions
    pub damages: Vec<DamageEntry>,
    /// Whether the archive is repairable (at least partially)
    pub repairable: bool,
}

/// A single damage finding within an archive.
#[derive(Debug, Clone, PartialEq)]
pub struct DamageEntry {
    /// Type of damage: "missing_eocd", "corrupted_cd", "misaligned_lfh",
    /// "invalid_crc", "corrupted_header", "missing_marker"
    pub damage_type: String,
    /// Byte offset in the archive where damage was detected
    pub offset: u64,
    /// Entry name if recoverable, None otherwise
    pub entry_name: Option<String>,
    /// Human-readable description of the damage
    pub description: String,
}

/// Result of a repair operation.
#[derive(Debug, Clone, PartialEq)]
pub struct ScanResult {
    /// Whether the repair was fully successful
    pub success: bool,
    /// Names of entries that were successfully recovered
    pub recovered_entries: Vec<String>,
    /// Names/descriptions of entries that could not be recovered
    pub failed_entries: Vec<String>,
    /// Path to the repaired archive file (None if repair failed entirely)
    pub repaired_path: Option<String>,
}

/// Errors that can occur during repair operations.
#[derive(Debug)]
pub enum RepairError {
    /// File cannot be read or written
    IoError(String),
    /// File is not a recognized archive format
    NotAnArchive,
    /// Archive is too damaged to repair at all
    NotRepairable(String),
    /// Repair partially succeeded (some entries unrecoverable)
    PartialRepair(ScanResult),
}

/// The status code that the foreign-function interface reports for each error.
pub open spec fn ffi_code_of(e: RepairError) -> int {
    match e {
        RepairError::IoError(_) => -1,
        RepairError::NotAnArchive => 0x2006,
        RepairError::NotRepairable(_) => 0x2006,
        RepairError::PartialRepair(_) => 0x2007,
    }
}

impl RepairError {
    /// The status code returned across the foreign-function interface.
    pub fn to_ffi_code(&self) -> (code: i32)
        ensures
            code == ffi_code_of(*self),
    {
        match self {
            RepairError::IoError(_) => -1,
            RepairError::NotAnArchive => 0x2006,
            RepairError::NotRepairable(_) => 0x2006,
            RepairError::PartialRepair(_) => 0x2007,
        }
    }
}

/// Parsed Local File Header (30 bytes fixed + variable)
#[derive(Debug, Clone)]
pub struct LocalFileHeader {
    pub offset: u64,
    pub version_needed: u16,
    pub flags: u16,
    pub compression_method: u16,
    pub last_mod_time: u16,
    pub last_mod_date: u16,
    pub crc32: u32,
    pub compressed_size: u32,
    pub uncompressed_size: u32,
    pub filename: Vec<u8>,
    pub extra_field: Vec<u8>,
    /// Offset where compressed data begins (after header + filename + extra)
    pub data_offset: u64,
}

/// Parsed Central Directory entry
#[derive(Debug, Clone)]
pub struct CdEntry {
    pub version_made_by: u16,
    pub version_needed: u16,
    pub flags: u16,
    pub compression_method: u16,
    pub last_mod_time: u16,
    pub last_mod_date: u16,
    pub crc32: u32,
    pub compressed_size: u32,
    pub uncompressed_size: u32,
    pub filename: Vec<u8>,
    pub extra_field: Vec<u8>,
    pub comment: Vec<u8>,
    pub disk_number_start: u16,
    pub internal_attrs: u16,
    pub external_attrs: u32,
    pub local_header_offset: u32,
}

/// End of Central Directory record
#[derive(Debug, Clone)]
pub struct EocdRecord {
    pub disk_number: u16,
    pub cd_start_disk: u16,
    pub cd_entries_on_disk: u16,
    pub cd_entries_total: u16,
    pub cd_size: u32,
    pub cd_offset: u32,
    pub comment: Vec<u8>,
}

/// RAR archive version
#[derive(Debug, Clone, Copy, PartialEq, Eq, Structural)]
pub enum RarVersion {
    /// Marker `Rar!\x1A\x07\x00`
    Rar4,
    /// Marker `Rar!\x1A\x07\x01\x00`
    Rar5,
}

/// RAR header information
#[derive(Debug, Clone)]
pub struct RarHeaderInfo {
    pub offset: u64,
    pub header_type: u8,
    pub header_size: u16,
    pub header_crc: u16,
    pub filename: Option<String>,
    pub data_size: u64,
    pub crc_valid: bool,
}

/// Helper struct for the write phase of repair
#[derive(Debug, Clone)]
pub struct RepairedEntry {
    pub filename: Vec<u8>,
    pub compression_method: u16,
    pub crc32: u32,
    pub compressed_size: u32,
    pub uncompressed_size: u32,
    pub data_offset: u64,
    pub last_mod_time: u16,
    pub last_mod_date: u16,
}

// ---- Mathematical views -------------------------------------------------

/// The value of a `DamageEntry` with its strings taken as character sequences.
pub struct DamageEntryModel {
    pub damage_type: Seq<char>,
    pub offset: u64,
    pub entry_name: Option<Seq<char>>,
    pub description: Seq<char>,
}

/// The value of a `DamageReport` with its strings and lists taken as sequences.
pub struct DamageReportModel {
    pub format: Seq<char>,
    pub total_entries: u32,
    pub valid_entries: u32,
    pub corrupted_entries: u32,
    pub unrecoverable_entries: u32,
    pub damages: Seq<DamageEntryModel>,
    pub repairable: bool,
}

/// The value of a `ScanResult` with its strings and lists taken as sequences.
pub struct ScanResultModel {
    pub success: bool,
    pub recovered_entries: Seq<Seq<char>>,
    pub failed_entries: Seq<Seq<char>>,
    pub repaired_path: Option<Seq<char>>,
}

/// The value of a `RepairError` with its strings taken as character sequences.
pub enum RepairErrorModel {
    IoError(Seq<char>),
    NotAnArchive,
    NotRepairable(Seq<char>),
    PartialRepair(ScanResultModel),
}

impl View for RepairError {
    type V = RepairErrorModel;

    open spec fn view(&self) -> RepairErrorModel {
        match self {
            RepairError::IoError(m) => RepairErrorModel::IoError(m@),
            RepairError::NotAnArchive => RepairErrorModel::NotAnArchive,
            RepairError::NotRepairable(m) => RepairErrorModel::NotRepairable(m@),
            RepairError::PartialRepair(s) => RepairErrorModel::PartialRepair(s@),
        }
    }
}

/// The value of the outcome of a repair.
pub open spec fn outcome_view(r: Result<ScanResult, RepairError>) -> Result<ScanResultModel, RepairErrorModel> {
    match r {
        Ok(s) => Ok(s@),
        Err(e) => Err(e@),
    }
}

/// The character sequence of an optional string.
pub open spec fn opt_str_view(s: Option<String>) -> Option<Seq<char>> {
    match s {
        Some(t) => Some(t@),
        None => None,
    }
}

/// The character sequences of a list of strings.
pub open spec fn strings_view(v: Seq<String>) -> Seq<Seq<char>> {
    v.map_values(|s: String| s@)
}

/// The value of a `RepairedEntry` with its file name taken as a byte sequence.
pub struct RepairedEntryModel {
    pub filename: Seq<u8>,
    pub compression_method: u16,
    pub crc32: u32,
    pub compressed_size: u32,
    pub uncompressed_size: u32,
    pub data_offset: u64,
    pub last_mod_time: u16,
    pub last_mod_date: u16,
}

impl View for RepairedEntry {
    type V = RepairedEntryModel;

    open spec fn view(&self) -> RepairedEntryModel {
        RepairedEntryModel {
            filename: self.filename@,
            compression_method: self.compression_method,
            crc32: self.crc32,
            compressed_size: self.compressed_size,
            uncompressed_size: self.uncompressed_size,
            data_offset: self.data_offset,
            last_mod_time: self.last_mod_time,
            last_mod_date: self.last_mod_date,
        }
    }
}

/// The views of a list of repaired entries.
pub open spec fn entries_view(es: Seq<RepairedEntry>) -> Seq<RepairedEntryModel> {
    es.map_values(|e: RepairedEntry| e@)
}

/// The value of a `RarHeaderInfo` with its file name taken as a character sequence.
pub struct RarHeaderModel {
    pub offset: u64,
    pub header_type: u8,
    pub header_size: u16,
    pub header_crc: u16,
    pub filename: Option<Seq<char>>,
    pub data_size: u64,
    pub crc_valid: bool,
}

impl View for RarHeaderInfo {
    type V = RarHeaderModel;

    open spec fn view(&self) -> RarHeaderModel {
        RarHeaderModel {
            offset: self.offset,
            header_type: self.header_type,
            header_size: self.header_size,
            header_crc: self.header_crc,
            filename: opt_str_view(self.filename),
            data_size: self.data_size,
            crc_valid: self.crc_valid,
        }
    }
}

impl View for DamageEntry {
    type V = DamageEntryModel;

    open spec fn view(&self) -> DamageEntryModel {
        DamageEntryModel {
            damage_type: self.damage_type@,
            offset: self.offset,
            entry_name: opt_str_view(self.entry_name),
            description: self.description@,
        }
    }
}

impl View for DamageReport {
    type V = DamageReportModel;

    open spec fn view(&self) -> DamageReportModel {
        DamageReportModel {
            format: self.format@,
            total_entries: self.total_entries,
            valid_entries: self.valid_entries,
            corrupted_entries: self.corrupted_entries,
            unrecoverable_entries: self.unrecoverable_entries,
            damages: self.damages@.map_values(|d: DamageEntry| d@),
            repairable: self.repairable,
        }
    }
}

impl View for ScanResult {
    type V = ScanResultModel;

    open spec fn view(&self) -> ScanResultModel {
        ScanResultModel {
            success: self.success,
            recovered_entries: strings_view(self.recovered_entries@),
            failed_entries: strings_view(self.failed_entries@),
            repaired_path: opt_str_view(self.repaired_path),
        }
    }
}

} // verus!
