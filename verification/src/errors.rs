//! Failures of filesystem operations, and their wording on the status line.
use vstd::prelude::*;

use crate::names::NameFault;
use crate::text::{begins_with, chars_of, joined, same_text, text_of};

verus! {

/// A failure that the filesystem layer reports. A device failure carries the
/// device's own description.
#[derive(Debug, PartialEq, Eq)]
pub enum VolumeError {
    DeviceError(String),
    FormatError(String),
    NoSuchVolume,
    FilenameError(NameFault),
    TooManyOpenVolumes,
    TooManyOpenDirs,
    TooManyOpenFiles,
    BadHandle,
    NotFound,
    FileAlreadyOpen,
    DirAlreadyOpen,
    OpenedDirAsFile,
    OpenedFileAsDir,
    DeleteNonEmptyDir,
    VolumeStillInUse,
    VolumeAlreadyOpen,
    Unsupported,
    EndOfFile,
    BadCluster,
    ConversionError,
    NotEnoughSpace,
    AllocationError,
    UnterminatedFatChain,
    ReadOnly,
    FileAlreadyExists,
    BadBlockSize(u16),
    InvalidOffset,
    DiskFull,
    DirAlreadyExists,
    LockError,
}

/// Why an operation on the card failed.
#[derive(Debug, PartialEq, Eq)]
pub enum FsOpError {
    Fs(VolumeError),
    AlreadyExists,
    IsADirectory,
    NotADirectory,
    MoveIntoSelf,
    VerifyFailed,
    /// The target of a save is larger than the editor could ever have loaded, so
    /// it must have been modified on another machine.
    TooLarge,
    /// A folder tree is nested too deeply.
    TooDeep,
    /// The filesystem layer reported a full disk while the card no longer answers
    /// a probe read: it masks device faults met while extending a file so.
    DeviceUnresponsive,
    /// A delete failed after something was already destroyed: a file's contents,
    /// or some of a folder's children. Wraps the failure.
    DeleteIncomplete(Box<FsOpError>),
    /// A copy failed and so did removing the partial destination, which will stop
    /// a retry until it is deleted. Wraps the copy's failure.
    CleanupIncomplete(Box<FsOpError>),
    /// A move's copy was verified, but the source could not be removed: success
    /// with a caveat. Wraps the delete's failure.
    SourceRemains(Box<FsOpError>),
}

/// A failed save. `backup_kept` is the path of the backup that still holds the
/// old contents where the target may not.
#[derive(Debug, PartialEq, Eq)]
pub struct SaveError {
    pub error: FsOpError,
    pub backup_kept: Option<String>,
}

/// Why a document could not be opened.
#[derive(Debug, PartialEq, Eq)]
pub enum LoadError {
    Filesystem(FsOpError),
    TooLarge,
    InvalidUtf8,
}

/// The failure that a report of the filesystem layer stands for.
pub open spec fn op_error(error: VolumeError) -> FsOpError {
    match error {
        VolumeError::FileAlreadyExists => FsOpError::AlreadyExists,
        VolumeError::DirAlreadyExists => FsOpError::AlreadyExists,
        other => FsOpError::Fs(other),
    }
}

impl From<VolumeError> for FsOpError {
    fn from(error: VolumeError) -> (converted: Self) {
        match error {
            VolumeError::FileAlreadyExists => FsOpError::AlreadyExists,
            VolumeError::DirAlreadyExists => FsOpError::AlreadyExists,
            other => FsOpError::Fs(other),
        }
    }
}

impl vstd::std_specs::convert::FromSpecImpl<VolumeError> for FsOpError {
    open spec fn obeys_from_spec() -> bool {
        true
    }

    open spec fn from_spec(error: VolumeError) -> FsOpError {
        op_error(error)
    }
}

impl From<FsOpError> for SaveError {
    fn from(error: FsOpError) -> (converted: Self) {
        SaveError { error, backup_kept: None }
    }
}

impl vstd::std_specs::convert::FromSpecImpl<FsOpError> for SaveError {
    open spec fn obeys_from_spec() -> bool {
        true
    }

    open spec fn from_spec(error: FsOpError) -> SaveError {
        SaveError { error, backup_kept: None }
    }
}

impl FsOpError {
    /// Whether the device itself failed, after which nothing that the filesystem
    /// layer holds in memory proves what reached the card.
    pub fn is_device_error(&self) -> (yes: bool)
        ensures
            yes == self.says_device_failed(),
    {
        matches!(self, FsOpError::Fs(VolumeError::DeviceError(_)))
    }

    /// The device itself failed.
    pub open spec fn says_device_failed(&self) -> bool {
        self matches FsOpError::Fs(VolumeError::DeviceError(_))
    }

    /// There is no such entry.
    pub open spec fn says_not_found(&self) -> bool {
        self matches FsOpError::Fs(VolumeError::NotFound)
    }

    pub fn is_not_found(&self) -> (yes: bool)
        ensures
            yes == self.says_not_found(),
    {
        matches!(self, FsOpError::Fs(VolumeError::NotFound))
    }
}

/// The status of a move whose source entry survived.
pub const OLD_ENTRY_REMAINS: &'static str = "old entry remains";

pub const SAVE_FAILED_PREFIX: &'static str = "Save failed: ";

pub const SAVE_FAILED_KEPT_PREFIX: &'static str = "Save failed; kept ";

pub const RENAME_FAILED_PREFIX: &'static str = "Rename failed: ";

pub const MOVE_FAILED_PREFIX: &'static str = "Move failed: ";

pub const NOT_DELETED_PREFIX: &'static str = "Not deleted: ";

pub const DELETE_INCOMPLETE_PREFIX: &'static str = "Delete incomplete: ";

pub const CREATE_FAILED_PREFIX: &'static str = "Create failed: ";

/// The status of a delete whose absence could not be confirmed: the removal may
/// have landed, so the wording does not claim otherwise.
pub const DELETE_UNCONFIRMED: &'static str = "Delete unconfirmed; check list";

/// Columns of the status line.
pub const STATUS_COLUMNS: usize = 32;

/// As much of a text as the status line holds.
pub open spec fn cut_to_status(text: Seq<char>) -> Seq<char> {
    if text.len() <= STATUS_COLUMNS {
        text
    } else {
        text.take(STATUS_COLUMNS as int)
    }
}

/// The wording for a device's own description of its failure. A description that is not
/// known is given as it is, as far as the status line goes.
pub open spec fn device_reason(detail: Seq<char>, operation: Seq<char>) -> Seq<char> {
    if detail == "WriteError"@ {
        "card rejected write"@
    } else if detail == "ReadError"@ {
        "card rejected read"@
    } else if detail == "Transport"@ || detail == "GpioError"@ {
        "SD SPI transport error"@
    } else if detail == "TimeoutWaitNotBusy"@ {
        "SD write timed out"@
    } else if detail == "TimeoutReadBuffer"@ {
        "SD read timed out"@
    } else if detail == "CardNotFound"@ {
        "SD card not found"@
    } else if detail == "BadState"@ {
        "SD card bad state"@
    } else if detail == "CantEnableCRC"@ {
        "SD CRC unavailable"@
    } else if detail == "Cmd58Error"@ || detail == "RegisterReadError"@ {
        "SD register error"@
    } else if "CrcError"@.is_prefix_of(detail) {
        "SD CRC mismatch"@
    } else if "TimeoutCommand"@.is_prefix_of(detail) || "TimeoutACommand"@.is_prefix_of(detail) {
        "SD command timed out"@
    } else {
        cut_to_status("SD "@ + operation + ": "@ + detail)
    }
}

/// The wording for a report of the filesystem layer.
pub open spec fn volume_reason(error: VolumeError) -> Seq<char> {
    match error {
        VolumeError::DeviceError(detail) => device_reason(detail@, "io"@),
        VolumeError::NotFound => "file not found"@,
        VolumeError::FileAlreadyExists | VolumeError::DirAlreadyExists => "file already exists"@,
        VolumeError::OpenedFileAsDir => "not a folder"@,
        VolumeError::OpenedDirAsFile => "path is a folder"@,
        VolumeError::DeleteNonEmptyDir => "folder is not empty"@,
        VolumeError::DiskFull | VolumeError::NotEnoughSpace => "storage is full"@,
        VolumeError::AllocationError => "SD card fault"@,
        VolumeError::ReadOnly => "file is read-only"@,
        VolumeError::FilenameError(_) | VolumeError::ConversionError => "invalid file name"@,
        VolumeError::FormatError(_) | VolumeError::BadCluster
        | VolumeError::UnterminatedFatChain | VolumeError::EndOfFile
        | VolumeError::InvalidOffset => "filesystem is corrupt"@,
        VolumeError::Unsupported | VolumeError::NoSuchVolume | VolumeError::BadBlockSize(_) =>
            "unsupported filesystem"@,
        VolumeError::TooManyOpenVolumes | VolumeError::TooManyOpenDirs
        | VolumeError::TooManyOpenFiles | VolumeError::FileAlreadyOpen
        | VolumeError::DirAlreadyOpen | VolumeError::VolumeStillInUse
        | VolumeError::VolumeAlreadyOpen | VolumeError::BadHandle
        | VolumeError::LockError => "filesystem busy"@,
    }
}

/// The wording for a failed operation.
pub open spec fn failure_reason(error: FsOpError) -> Seq<char> {
    match error {
        FsOpError::Fs(report) => volume_reason(report),
        FsOpError::AlreadyExists => "file already exists"@,
        FsOpError::NotADirectory => "not a folder"@,
        FsOpError::IsADirectory => "path is a folder"@,
        FsOpError::MoveIntoSelf => "move into itself"@,
        FsOpError::VerifyFailed => "verify failed"@,
        FsOpError::TooLarge => "file too large"@,
        FsOpError::TooDeep => "folders too deep"@,
        FsOpError::DeviceUnresponsive => "SD not responding"@,
        FsOpError::DeleteIncomplete(_) => "data removed"@,
        FsOpError::CleanupIncomplete(_) => "partial copy left"@,
        FsOpError::SourceRemains(_) => OLD_ENTRY_REMAINS@,
    }
}

fn compact_device_error(detail: &str, operation: &str) -> (reason: String)
    ensures
        reason@ == device_reason(detail@, operation@),
{
    let chars = chars_of(detail);
    if same_text(detail, "WriteError") {
        "card rejected write".to_owned()
    } else if same_text(detail, "ReadError") {
        "card rejected read".to_owned()
    } else if same_text(detail, "Transport") || same_text(detail, "GpioError") {
        "SD SPI transport error".to_owned()
    } else if same_text(detail, "TimeoutWaitNotBusy") {
        "SD write timed out".to_owned()
    } else if same_text(detail, "TimeoutReadBuffer") {
        "SD read timed out".to_owned()
    } else if same_text(detail, "CardNotFound") {
        "SD card not found".to_owned()
    } else if same_text(detail, "BadState") {
        "SD card bad state".to_owned()
    } else if same_text(detail, "CantEnableCRC") {
        "SD CRC unavailable".to_owned()
    } else if same_text(detail, "Cmd58Error") || same_text(detail, "RegisterReadError") {
        "SD register error".to_owned()
    } else if begins_with(&chars, &chars_of("CrcError")) {
        "SD CRC mismatch".to_owned()
    } else if begins_with(&chars, &chars_of("TimeoutCommand")) || begins_with(
        &chars,
        &chars_of("TimeoutACommand"),
    ) {
        "SD command timed out".to_owned()
    } else {
        let front = joined("SD ", operation);
        let front = joined(front.as_str(), ": ");
        let whole = chars_of(joined(front.as_str(), detail).as_str());
        let shown: usize = if whole.len() <= STATUS_COLUMNS {
            whole.len()
        } else {
            STATUS_COLUMNS
        };
        let reason = text_of(&whole, 0, shown);
        assert(reason@ =~= cut_to_status(whole@));
        reason
    }
}

/// Every failure is worded so that it fits the status line.
pub proof fn reasons_fit_the_status_line(error: FsOpError)
    ensures
        failure_reason(error).len() <= STATUS_COLUMNS,
{
    reveal_strlit("card rejected write");
    reveal_strlit("card rejected read");
    reveal_strlit("SD SPI transport error");
    reveal_strlit("SD write timed out");
    reveal_strlit("SD read timed out");
    reveal_strlit("SD card not found");
    reveal_strlit("SD card bad state");
    reveal_strlit("SD CRC unavailable");
    reveal_strlit("SD register error");
    reveal_strlit("SD CRC mismatch");
    reveal_strlit("SD command timed out");
    reveal_strlit("file not found");
    reveal_strlit("file already exists");
    reveal_strlit("not a folder");
    reveal_strlit("path is a folder");
    reveal_strlit("folder is not empty");
    reveal_strlit("storage is full");
    reveal_strlit("SD card fault");
    reveal_strlit("file is read-only");
    reveal_strlit("invalid file name");
    reveal_strlit("filesystem is corrupt");
    reveal_strlit("unsupported filesystem");
    reveal_strlit("filesystem busy");
    reveal_strlit("move into itself");
    reveal_strlit("verify failed");
    reveal_strlit("file too large");
    reveal_strlit("folders too deep");
    reveal_strlit("SD not responding");
    reveal_strlit("data removed");
    reveal_strlit("partial copy left");
    reveal_strlit("old entry remains");
}

/// A failure in a few words, for the status line.
pub fn save_failure_reason(error: &FsOpError) -> (reason: String)
    ensures
        reason@ == failure_reason(*error),
        reason@.len() <= STATUS_COLUMNS,
{
    proof {
        reasons_fit_the_status_line(*error);
    }
    match error {
        FsOpError::Fs(report) => match report {
            VolumeError::DeviceError(detail) => compact_device_error(detail.as_str(), "io"),
            VolumeError::NotFound => "file not found".to_owned(),
            VolumeError::FileAlreadyExists | VolumeError::DirAlreadyExists =>
                "file already exists".to_owned(),
            VolumeError::OpenedFileAsDir => "not a folder".to_owned(),
            VolumeError::OpenedDirAsFile => "path is a folder".to_owned(),
            VolumeError::DeleteNonEmptyDir => "folder is not empty".to_owned(),
            VolumeError::DiskFull | VolumeError::NotEnoughSpace => "storage is full".to_owned(),
            VolumeError::AllocationError => "SD card fault".to_owned(),
            VolumeError::ReadOnly => "file is read-only".to_owned(),
            VolumeError::FilenameError(_) | VolumeError::ConversionError =>
                "invalid file name".to_owned(),
            VolumeError::FormatError(_) | VolumeError::BadCluster
            | VolumeError::UnterminatedFatChain | VolumeError::EndOfFile
            | VolumeError::InvalidOffset => "filesystem is corrupt".to_owned(),
            VolumeError::Unsupported | VolumeError::NoSuchVolume
            | VolumeError::BadBlockSize(_) => "unsupported filesystem".to_owned(),
            VolumeError::TooManyOpenVolumes | VolumeError::TooManyOpenDirs
            | VolumeError::TooManyOpenFiles | VolumeError::FileAlreadyOpen
            | VolumeError::DirAlreadyOpen | VolumeError::VolumeStillInUse
            | VolumeError::VolumeAlreadyOpen | VolumeError::BadHandle
            | VolumeError::LockError => "filesystem busy".to_owned(),
        },
        FsOpError::AlreadyExists => "file already exists".to_owned(),
        FsOpError::NotADirectory => "not a folder".to_owned(),
        FsOpError::IsADirectory => "path is a folder".to_owned(),
        FsOpError::MoveIntoSelf => "move into itself".to_owned(),
        FsOpError::VerifyFailed => "verify failed".to_owned(),
        FsOpError::TooLarge => "file too large".to_owned(),
        FsOpError::TooDeep => "folders too deep".to_owned(),
        FsOpError::DeviceUnresponsive => "SD not responding".to_owned(),
        FsOpError::DeleteIncomplete(_) => "data removed".to_owned(),
        FsOpError::CleanupIncomplete(_) => "partial copy left".to_owned(),
        FsOpError::SourceRemains(_) => OLD_ENTRY_REMAINS.to_owned(),
    }
}

} // verus!
