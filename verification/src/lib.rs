//! Verified core of the Wio Terminal SD card explorer and text editor.
//!
//! Everything that the device decides stands here: how a card is probed, formatted
//! and mounted, how files are saved, moved and deleted without losing data, how text
//! is edited, what each button does and what each screen shows. The card, the bus
//! and the display are reached through traits whose replies are never trusted.
pub mod blocks;
pub mod boot;
pub mod bus;
pub mod browsing_laws;
pub mod buttons;
pub mod bytes;
pub mod card;
pub mod card_laws;
pub mod carrying_laws;
pub mod caution_laws;
pub mod choosing_laws;
pub mod console;
pub mod contents;
pub mod contents_laws;
pub mod contents_runs;
pub mod controller;
pub mod creation;
pub mod device;
pub mod device_laws;
pub mod document_laws;
pub mod driver;
pub mod editing;
pub mod editor;
pub mod errors;
pub mod explorer;
pub mod fat_tail;
pub mod file_laws;
pub mod files;
pub mod format;
pub mod format_laws;
pub mod gauge;
pub mod gauge_laws;
pub mod geometry;
pub mod handle_laws;
pub mod handlers;
pub mod input;
pub mod keyboard;
pub mod layout_laws;
pub mod listing_laws;
pub mod medium;
pub mod mounting;
pub mod moving;
pub mod moving_laws;
pub mod names;
pub mod naming;
pub mod notice;
pub mod operations;
pub mod path_laws;
pub mod picker;
pub mod picture_laws;
pub mod port;
pub mod reliable;
pub mod reliable_deletes;
pub mod reliable_laws;
pub mod reliable_moves;
pub mod removal;
pub mod removal_laws;
pub mod retry;
pub mod saving;
pub mod screens;
pub mod serial;
pub mod session;
pub mod space;
pub mod storage;
pub mod stream;
pub mod text;
pub mod text_laws;
pub mod transfer_laws;
pub mod tree;
pub mod typing_laws;
pub mod view;
pub mod view_laws;
pub mod volume;
pub mod volume_laws;
pub mod walk;
pub mod wires;

pub use boot::{probe_fat, MediaLayout, ProbeError};
pub use card::{CardFs, DirectoryItem, FixedTimeSource};
pub use editor::{EditError, NewlineStyle, TextBuffer, MAX_DOCUMENT_BYTES};
pub use errors::{
    save_failure_reason, FsOpError, LoadError, SaveError, VolumeError, CREATE_FAILED_PREFIX,
    DELETE_INCOMPLETE_PREFIX, DELETE_UNCONFIRMED, MOVE_FAILED_PREFIX, NOT_DELETED_PREFIX,
    OLD_ENTRY_REMAINS, RENAME_FAILED_PREFIX, SAVE_FAILED_KEPT_PREFIX, SAVE_FAILED_PREFIX,
};
pub use explorer::EXPLORER_PAGE_ROWS;
pub use format::format_fat32;
pub use geometry::{fat32_geometry, FormatError, FormatGeometry};
pub use input::{Button, InputEngine, RawButtons};
pub use keyboard::{Key, Keyboard, KeyboardPage};
pub use names::{
    is_txt_file, join_path, leaf_name, parent_path, validate_entry_name, validate_file_stem,
    MAX_ENTRY_NAME_CHARS, MAX_FILE_STEM_CHARS,
};
pub use retry::{sd_retry, SD_RETRY_ATTEMPTS};
pub use stream::{SdStream, SdStreamError};
