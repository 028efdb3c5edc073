use zipease_extract::trash::{map_trash_error, TrashErrorKind};

#[test]
fn messages_follow_the_failure() {
    assert_eq!(
        map_trash_error(TrashErrorKind::Os(5)),
        "ZipEase doesn't have permission to move this file. Try running as administrator."
    );
    assert_eq!(
        map_trash_error(TrashErrorKind::Os(32)),
        "The file is in use by another program. Close it and try again."
    );
    assert_eq!(map_trash_error(TrashErrorKind::Os(33)), map_trash_error(TrashErrorKind::Os(32)));
    assert_eq!(
        map_trash_error(TrashErrorKind::Os(2)),
        "The file could not be moved to the Recycle Bin. Close any programs using it and try again."
    );
    assert_eq!(
        map_trash_error(TrashErrorKind::CouldNotAccess),
        "The file could not be found. It may have already been moved or deleted."
    );
    assert_eq!(
        map_trash_error(TrashErrorKind::TargetedRoot),
        "ZipEase cannot move a root folder to the Recycle Bin."
    );
    assert_eq!(map_trash_error(TrashErrorKind::Unknown), map_trash_error(TrashErrorKind::Os(2)));
}
