//! Archive inspection, repair and search logic for the ZipEase extractor.
//!
//! The modules hold the byte-level parsers for damaged ZIP and RAR archives,
//! the rebuilders that write repaired copies, the entry search used by the
//! archive browser, and the decisions that drive batch and smart extraction.

pub mod batch;
pub mod bytes;
pub mod cancel;
pub mod checksum;
pub mod errors;
pub mod extract;
pub mod lock_detector;
pub mod notify;
pub mod paths;
pub mod repair;
pub mod search;
pub mod text;
pub mod trash;
