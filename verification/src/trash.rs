//! Plain-language messages for failures to move a file to the Recycle Bin.

use vstd::prelude::*;

verus! {

/// The kinds of failure that moving a file to the Recycle Bin reports, as far as
/// the message depends on them.
#[derive(Debug, Clone, Copy, PartialEq, Eq, Structural)]
pub enum TrashErrorKind {
    /// The file could not be accessed.
    CouldNotAccess,
    /// The operating system refused, with this error code.
    Os(i32),
    /// The target is a root folder.
    TargetedRoot,
    /// The path could not be made canonical.
    CanonicalizePath,
    /// The path could not be converted to an operating-system string.
    ConvertOsString,
    /// An unknown failure.
    Unknown,
    /// Any other failure.
    Other,
}

/// The message shown for a failure of kind `e`; no error code or internal name appears.
pub open spec fn trash_message(e: TrashErrorKind) -> Seq<char> {
    match e {
        TrashErrorKind::CouldNotAccess => "The file could not be found. It may have already been moved or deleted."@,
        TrashErrorKind::Os(code) => if code == 5 {
            "ZipEase doesn't have permission to move this file. Try running as administrator."@
        } else if code == 32 || code == 33 {
            "The file is in use by another program. Close it and try again."@
        } else {
            "The file could not be moved to the Recycle Bin. Close any programs using it and try again."@
        },
        TrashErrorKind::TargetedRoot => "ZipEase cannot move a root folder to the Recycle Bin."@,
        TrashErrorKind::CanonicalizePath => "The file path is invalid or the file could not be found."@,
        TrashErrorKind::ConvertOsString => "The file path contains characters that cannot be processed. Rename the file and try again."@,
        _ => "The file could not be moved to the Recycle Bin. Close any programs using it and try again."@,
    }
}

/// The plain-language message for a failure to move a file to the Recycle Bin.
pub fn map_trash_error(e: TrashErrorKind) -> (m: String)
    ensures
        m@ == trash_message(e),
{
    match e {
        TrashErrorKind::CouldNotAccess => String::from_str(
            "The file could not be found. It may have already been moved or deleted.",
        ),
        TrashErrorKind::Os(code) => {
            if code == 5 {
                String::from_str(
                    "ZipEase doesn't have permission to move this file. Try running as administrator.",
                )
            } else if code == 32 || code == 33 {
                String::from_str("The file is in use by another program. Close it and try again.")
            } else {
                String::from_str(
                    "The file could not be moved to the Recycle Bin. Close any programs using it and try again.",
                )
            }
        },
        TrashErrorKind::TargetedRoot => String::from_str(
            "ZipEase cannot move a root folder to the Recycle Bin.",
        ),
        TrashErrorKind::CanonicalizePath => String::from_str(
            "The file path is invalid or the file could not be found.",
        ),
        TrashErrorKind::ConvertOsString => String::from_str(
            "The file path contains characters that cannot be processed. Rename the file and try again.",
        ),
        _ => String::from_str(
            "The file could not be moved to the Recycle Bin. Close any programs using it and try again.",
        ),
    }
}

} // verus!
