//! The error type shared by the extraction paths.

use vstd::prelude::*;

verus! {

/// Why an extraction-side operation failed; each kind carries a message.
#[derive(Debug, Clone)]
pub enum LockError {
    PasswordRequired(String),
    ZipBomb(String),
    ExtractionFailed(String),
    UnsupportedFormat(String),
    PathNotFound(String),
    Unknown(String),
    PluginRequired(String),
}

/// The kinds of `LockError`, with their messages as character sequences.
pub enum LockErrorModel {
    PasswordRequired(Seq<char>),
    ZipBomb(Seq<char>),
    ExtractionFailed(Seq<char>),
    UnsupportedFormat(Seq<char>),
    PathNotFound(Seq<char>),
    Unknown(Seq<char>),
    PluginRequired(Seq<char>),
}

impl View for LockError {
    type V = LockErrorModel;

    open spec fn view(&self) -> LockErrorModel {
        match self {
            LockError::PasswordRequired(m) => LockErrorModel::PasswordRequired(m@),
            LockError::ZipBomb(m) => LockErrorModel::ZipBomb(m@),
            LockError::ExtractionFailed(m) => LockErrorModel::ExtractionFailed(m@),
            LockError::UnsupportedFormat(m) => LockErrorModel::UnsupportedFormat(m@),
            LockError::PathNotFound(m) => LockErrorModel::PathNotFound(m@),
            LockError::Unknown(m) => LockErrorModel::Unknown(m@),
            LockError::PluginRequired(m) => LockErrorModel::PluginRequired(m@),
        }
    }
}

/// The message carried by an error.
pub open spec fn error_message(e: LockErrorModel) -> Seq<char> {
    match e {
        LockErrorModel::PasswordRequired(m) => m,
        LockErrorModel::ZipBomb(m) => m,
        LockErrorModel::ExtractionFailed(m) => m,
        LockErrorModel::UnsupportedFormat(m) => m,
        LockErrorModel::PathNotFound(m) => m,
        LockErrorModel::Unknown(m) => m,
        LockErrorModel::PluginRequired(m) => m,
    }
}

impl LockError {
    /// The message carried by this error.
    pub fn message(&self) -> (m: String)
        ensures
            m@ == error_message(self@),
    {
        match self {
            LockError::PasswordRequired(m) => m.clone(),
            LockError::ZipBomb(m) => m.clone(),
            LockError::ExtractionFailed(m) => m.clone(),
            LockError::UnsupportedFormat(m) => m.clone(),
            LockError::PathNotFound(m) => m.clone(),
            LockError::Unknown(m) => m.clone(),
            LockError::PluginRequired(m) => m.clone(),
        }
    }
}

} // verus!
