//! Messages for the status line.
use vstd::prelude::*;

use crate::errors::{
    failure_reason, save_failure_reason, FsOpError, SaveError, CREATE_FAILED_PREFIX,
    DELETE_INCOMPLETE_PREFIX, DELETE_UNCONFIRMED, MOVE_FAILED_PREFIX, NOT_DELETED_PREFIX,
    OLD_ENTRY_REMAINS, RENAME_FAILED_PREFIX, SAVE_FAILED_KEPT_PREFIX, SAVE_FAILED_PREFIX,
};
use crate::names::{leaf_name, leaf_of};
use crate::text::joined;

verus! {

/// The two ways in which an entry changes its path.
#[derive(Clone, Copy, Debug, PartialEq, Eq, Structural)]
pub enum MoveVerb {
    Rename,
    Move,
}

/// A message for the status line.
#[derive(Debug, PartialEq, Eq)]
pub enum Notice {
    FolderUnreadable,
    NoItemSelected,
    OnlyTextFiles,
    FileTooLarge,
    FileNotText,
    FileNotOpened,
    /// A rename or move landed; the source entry may have survived it.
    Landed { verb: MoveVerb, source_remains: bool },
    /// The destination of a rename or move is taken.
    Taken(MoveVerb),
    MoveFailed { verb: MoveVerb, error: FsOpError },
    FolderDeleted,
    FileDeleted,
    DeleteFailed(FsOpError),
    FolderCreated,
    FileExists,
    NameExists,
    CreateFailed(FsOpError),
    NameProblem(&'static str),
    UseDone,
    AlreadyInFolder,
    DocumentLimit,
    ReinsertCard,
    DifferentCard,
    CardUnavailable,
    Saved,
    SaveFailed(SaveError),
    ReadFailed,
}

/// The message in words. A delete that could not be confirmed may have landed, so
/// its wording does not claim otherwise.
pub open spec fn notice_text(notice: Notice) -> Seq<char> {
    match notice {
        Notice::FolderUnreadable => "Could not read this folder"@,
        Notice::NoItemSelected => "No item selected"@,
        Notice::OnlyTextFiles => "Only .txt files can be edited"@,
        Notice::FileTooLarge => "File exceeds the 32 KiB editor limit"@,
        Notice::FileNotText => "File is not valid UTF-8 text"@,
        Notice::FileNotOpened => "Could not open the file"@,
        Notice::Landed { verb, source_remains } => {
            let done = match verb {
                MoveVerb::Rename => "Renamed"@,
                MoveVerb::Move => "Moved"@,
            };
            if source_remains {
                done + "; "@ + OLD_ENTRY_REMAINS@
            } else {
                done
            }
        },
        Notice::Taken(MoveVerb::Rename) => "That name already exists"@,
        Notice::Taken(MoveVerb::Move) => "That name already exists here"@,
        Notice::MoveFailed { verb, error } => match verb {
            MoveVerb::Rename => RENAME_FAILED_PREFIX@ + failure_reason(error),
            MoveVerb::Move => MOVE_FAILED_PREFIX@ + failure_reason(error),
        },
        Notice::FolderDeleted => "Folder deleted"@,
        Notice::FileDeleted => "File deleted"@,
        Notice::DeleteFailed(error) => match error {
            FsOpError::DeleteIncomplete(_) => DELETE_INCOMPLETE_PREFIX@ + failure_reason(error),
            FsOpError::VerifyFailed => DELETE_UNCONFIRMED@,
            _ => NOT_DELETED_PREFIX@ + failure_reason(error),
        },
        Notice::FolderCreated => "Folder created"@,
        Notice::FileExists => "That file already exists"@,
        Notice::NameExists => "That name already exists"@,
        Notice::CreateFailed(error) => CREATE_FAILED_PREFIX@ + failure_reason(error),
        Notice::NameProblem(message) => message@,
        Notice::UseDone => "Use DONE to finish the name"@,
        Notice::AlreadyInFolder => "Item is already in this folder"@,
        Notice::DocumentLimit => "32 KiB document limit reached"@,
        Notice::ReinsertCard => "Reinsert the original SD card to save"@,
        Notice::DifferentCard => "Different SD card: save is disabled"@,
        Notice::CardUnavailable => "SD card is unavailable"@,
        Notice::Saved => "Saved"@,
        Notice::SaveFailed(failure) => match failure.backup_kept {
            Some(backup) => SAVE_FAILED_KEPT_PREFIX@ + leaf_of(backup@),
            None => SAVE_FAILED_PREFIX@ + failure_reason(failure.error),
        },
        Notice::ReadFailed => "SD read failed; remove and reinsert"@,
    }
}

impl Notice {
    /// The message in words.
    pub fn text(&self) -> (text: String)
        ensures
            text@ == notice_text(*self),
    {
        match self {
            Notice::FolderUnreadable => "Could not read this folder".to_owned(),
            Notice::NoItemSelected => "No item selected".to_owned(),
            Notice::OnlyTextFiles => "Only .txt files can be edited".to_owned(),
            Notice::FileTooLarge => "File exceeds the 32 KiB editor limit".to_owned(),
            Notice::FileNotText => "File is not valid UTF-8 text".to_owned(),
            Notice::FileNotOpened => "Could not open the file".to_owned(),
            Notice::Landed { verb, source_remains } => {
                let done = match verb {
                    MoveVerb::Rename => "Renamed",
                    MoveVerb::Move => "Moved",
                };
                if *source_remains {
                    let front = joined(done, "; ");
                    joined(front.as_str(), OLD_ENTRY_REMAINS)
                } else {
                    done.to_owned()
                }
            },
            Notice::Taken(MoveVerb::Rename) => "That name already exists".to_owned(),
            Notice::Taken(MoveVerb::Move) => "That name already exists here".to_owned(),
            Notice::MoveFailed { verb, error } => match verb {
                MoveVerb::Rename => joined(
                    RENAME_FAILED_PREFIX,
                    save_failure_reason(error).as_str(),
                ),
                MoveVerb::Move => joined(MOVE_FAILED_PREFIX, save_failure_reason(error).as_str()),
            },
            Notice::FolderDeleted => "Folder deleted".to_owned(),
            Notice::FileDeleted => "File deleted".to_owned(),
            Notice::DeleteFailed(error) => match error {
                FsOpError::DeleteIncomplete(_) => joined(
                    DELETE_INCOMPLETE_PREFIX,
                    save_failure_reason(error).as_str(),
                ),
                FsOpError::VerifyFailed => DELETE_UNCONFIRMED.to_owned(),
                _ => joined(NOT_DELETED_PREFIX, save_failure_reason(error).as_str()),
            },
            Notice::FolderCreated => "Folder created".to_owned(),
            Notice::FileExists => "That file already exists".to_owned(),
            Notice::NameExists => "That name already exists".to_owned(),
            Notice::CreateFailed(error) => joined(
                CREATE_FAILED_PREFIX,
                save_failure_reason(error).as_str(),
            ),
            Notice::NameProblem(message) => (*message).to_owned(),
            Notice::UseDone => "Use DONE to finish the name".to_owned(),
            Notice::AlreadyInFolder => "Item is already in this folder".to_owned(),
            Notice::DocumentLimit => "32 KiB document limit reached".to_owned(),
            Notice::ReinsertCard => "Reinsert the original SD card to save".to_owned(),
            Notice::DifferentCard => "Different SD card: save is disabled".to_owned(),
            Notice::CardUnavailable => "SD card is unavailable".to_owned(),
            Notice::Saved => "Saved".to_owned(),
            Notice::SaveFailed(failure) => match &failure.backup_kept {
                Some(backup) => joined(SAVE_FAILED_KEPT_PREFIX, leaf_name(backup.as_str())),
                None => joined(
                    SAVE_FAILED_PREFIX,
                    save_failure_reason(&failure.error).as_str(),
                ),
            },
            Notice::ReadFailed => "SD read failed; remove and reinsert".to_owned(),
        }
    }
}

} // verus!
