use std::cell::Cell;

use wio_terminal_sd_editor::{
    fat32_geometry, is_txt_file, leaf_name, save_failure_reason, sd_retry, validate_entry_name,
    validate_file_stem, Button, EditError, FormatError, FsOpError, InputEngine, RawButtons,
    TextBuffer, VolumeError, CREATE_FAILED_PREFIX, DELETE_INCOMPLETE_PREFIX, DELETE_UNCONFIRMED,
    MAX_DOCUMENT_BYTES, MOVE_FAILED_PREFIX, NOT_DELETED_PREFIX, RENAME_FAILED_PREFIX,
    SAVE_FAILED_KEPT_PREFIX, SAVE_FAILED_PREFIX, SD_RETRY_ATTEMPTS,
};

#[test]
fn input_is_debounced_and_directions_repeat() {
    let mut input = InputEngine::new();
    let down = RawButtons::default().with(Button::Down, true);
    assert_eq!(input.update(down, 0), None);
    assert_eq!(input.update(down, 20), None);
    assert_eq!(input.update(down, 21), Some(Button::Down));
    assert_eq!(input.update(down, 430), None);
    assert_eq!(input.update(down, 431), Some(Button::Down));
}

#[test]
fn repeat_stops_when_release_is_observed() {
    let mut input = InputEngine::new();
    let down = RawButtons::default().with(Button::Down, true);
    let up = RawButtons::default();
    assert_eq!(input.update(down, 0), None);
    assert_eq!(input.update(down, 21), Some(Button::Down));
    assert_eq!(input.update(down, 431), Some(Button::Down));
    // The raw release lands exactly on the next repeat deadline (533);
    // the repeat must not fire while the button is observably up, even
    // though the release is still inside the debounce window.
    assert_eq!(input.update(up, 533), None);
    assert_eq!(input.update(up, 554), None);
}

#[test]
fn editor_preserves_crlf_and_utf8_boundaries() {
    let mut editor = TextBuffer::from_bytes("aé\r\nb".as_bytes().to_vec()).unwrap();
    editor.move_right();
    editor.move_right();
    assert_eq!(editor.cursor(), 3);
    editor.insert_newline().unwrap();
    assert_eq!(editor.bytes(), "aé\r\n\r\nb".as_bytes());
    editor.backspace();
    assert_eq!(editor.bytes(), "aé\r\nb".as_bytes());
}

#[test]
fn editor_moves_between_logical_lines() {
    let mut editor = TextBuffer::from_bytes(b"abc\nxy\n12345".to_vec()).unwrap();
    for _ in 0..3 {
        editor.move_right();
    }
    editor.move_down();
    assert_eq!(editor.line_col(), (1, 2));
    editor.move_down();
    assert_eq!(editor.line_col(), (2, 2));
    editor.move_up();
    assert_eq!(editor.line_col(), (1, 2));
}

#[test]
fn editor_reports_tab_expanded_display_column() {
    let mut editor = TextBuffer::from_bytes(b"a\tb".to_vec()).unwrap();
    editor.move_right();
    editor.move_right();
    assert_eq!(editor.line_col(), (0, 2));
    assert_eq!(editor.display_position(), (0, 4));
    assert_eq!(editor.display_line(0, 0, 8), "a   b");
}

#[test]
fn vertical_moves_ignore_lone_carriage_returns() {
    let mut editor = TextBuffer::from_bytes(b"ab\rcd\nxyzw".to_vec()).unwrap();
    for _ in 0..9 {
        editor.move_right();
    }
    assert_eq!(editor.line_col(), (1, 3));
    editor.move_up();
    assert_eq!(editor.line_col(), (0, 3));
}

#[test]
fn editor_enforces_the_byte_limit() {
    let mut editor = TextBuffer::from_bytes(vec![b'a'; MAX_DOCUMENT_BYTES]).unwrap();
    assert_eq!(editor.insert_char('b'), Err(EditError::TooLarge));
    assert_eq!(
        TextBuffer::from_bytes(vec![b'a'; MAX_DOCUMENT_BYTES + 1]).err(),
        Some(EditError::TooLarge)
    );
}

#[test]
fn validates_names_and_extensions() {
    assert!(validate_file_stem("NOTES").is_ok());
    assert!(validate_file_stem("notes").is_ok());
    // 8.3 names reject spaces.
    assert!(validate_file_stem("Trip notes (2)").is_err());
    assert!(validate_file_stem("bad:name").is_err());
    assert!(validate_file_stem("trailing.").is_err());
    assert!(validate_file_stem("TOOLONGNAME").is_err());
    assert!(validate_entry_name("Projects").is_ok());
    assert!(validate_entry_name("NOTES.TXT").is_ok());
    assert!(validate_entry_name("").is_err());
    assert!(validate_entry_name(".").is_err());
    assert!(validate_entry_name("..").is_err());
    assert!(validate_entry_name("bad/name").is_err());
    assert!(validate_entry_name("TOOLONGNAME.TXT").is_err());
    assert!(validate_entry_name("NOTES.TEXT").is_err());
    // ShortFileName would silently strip a bare trailing dot, storing a
    // different name than the one validated.
    assert_eq!(
        validate_entry_name("NOTES."),
        Err("Name cannot end with a dot")
    );
    assert_eq!(
        validate_entry_name("Dir."),
        Err("Name cannot end with a dot")
    );
    // ShortFileName also collapses repeated interior dots ("A..TXT"
    // parses to "A.TXT"); the round-trip guard refuses anything whose
    // stored form would differ from the typed name.
    assert_eq!(
        validate_entry_name("A..TXT"),
        Err("Name would be stored differently")
    );
    assert!(validate_entry_name(".TXT").is_err());
    assert!(validate_entry_name("A.B.TXT").is_err());
    // Case-only differences survive the round-trip: 8.3 names store
    // uppercase, and the keyboard types lowercase.
    assert!(validate_entry_name("notes.txt").is_ok());
    assert!(is_txt_file("NOTES.TxT"));
    assert!(!is_txt_file("notes.md"));
    assert_eq!(leaf_name("/A/B.TXT"), "B.TXT");
    assert_eq!(leaf_name("/A/"), "A");
    assert_eq!(leaf_name("/"), "");
}

#[test]
fn geometry_reports_too_small_up_to_the_exact_minimum() {
    assert_eq!(fat32_geometry(68_628, 0), Err(FormatError::TooSmall));
    let geometry = fat32_geometry(68_629, 0).unwrap();
    assert_eq!(geometry.cluster_count, 65_525);
    assert_eq!(geometry.sectors_per_cluster, 1);
}

#[test]
fn computes_valid_fat32_geometry() {
    let geometry = fat32_geometry(131_072, 0).unwrap();
    assert!(geometry.cluster_count >= 65_525);
    assert!(geometry.sectors_per_cluster.is_power_of_two());
    assert!(geometry.partition_start + geometry.partition_sectors <= 131_072);

    let reseeded = fat32_geometry(131_072, 7).unwrap();
    assert_ne!(geometry.volume_serial, reseeded.volume_serial);
    assert_eq!(
        fat32_geometry(131_072, 7).unwrap().volume_serial,
        reseeded.volume_serial
    );
}

#[test]
fn save_errors_are_compact_enough_for_the_status_line() {
    // Each status is built from the shared prefix constant the firmware
    // itself uses and pinned against the full literal, so both the
    // wording and the 32-column budget are guarded in one place.
    let error: FsOpError =
        FsOpError::Fs(VolumeError::DeviceError(String::from("WriteError")));
    let status = format!("{SAVE_FAILED_PREFIX}{}", save_failure_reason(&error));
    assert_eq!(status, "Save failed: card rejected write");
    assert!(status.chars().count() <= 32);
    assert_eq!(
        save_failure_reason(&FsOpError::AlreadyExists),
        "file already exists"
    );
    assert_eq!(
        save_failure_reason(&FsOpError::Fs(VolumeError::DiskFull)),
        "storage is full"
    );
    assert_eq!(
        save_failure_reason(&FsOpError::VerifyFailed),
        "verify failed"
    );
    let too_large = format!(
        "{SAVE_FAILED_PREFIX}{}",
        save_failure_reason(&FsOpError::TooLarge)
    );
    assert_eq!(too_large, "Save failed: file too large");
    assert!(too_large.chars().count() <= 32);
    assert_eq!(
        save_failure_reason(&FsOpError::Fs(
            VolumeError::AllocationError
        )),
        "SD card fault"
    );
    let unresponsive = format!(
        "{RENAME_FAILED_PREFIX}{}",
        save_failure_reason(&FsOpError::DeviceUnresponsive)
    );
    assert_eq!(unresponsive, "Rename failed: SD not responding");
    assert!(unresponsive.chars().count() <= 32);
    let emptied = format!(
        "{DELETE_INCOMPLETE_PREFIX}{}",
        save_failure_reason(&FsOpError::DeleteIncomplete(Box::new(
            FsOpError::Fs(VolumeError::DeviceError(String::from("WriteError")))
        )))
    );
    assert_eq!(emptied, "Delete incomplete: data removed");
    assert!(emptied.chars().count() <= 32);
    let ghost = format!(
        "{RENAME_FAILED_PREFIX}{}",
        save_failure_reason(&FsOpError::CleanupIncomplete(Box::new(
            FsOpError::VerifyFailed
        )))
    );
    assert_eq!(ghost, "Rename failed: partial copy left");
    assert!(ghost.chars().count() <= 32);
    // SourceRemains lands on the success-with-caveat path in the UI;
    // this guards the wording if a failure banner ever shows it.
    let source_remains = format!(
        "{MOVE_FAILED_PREFIX}{}",
        save_failure_reason(&FsOpError::SourceRemains(Box::new(
            FsOpError::VerifyFailed
        )))
    );
    assert_eq!(source_remains, "Move failed: old entry remains");
    assert!(source_remains.chars().count() <= 32);
    // The delete prompt's non-DeleteIncomplete prefix with its longest
    // common reason is exactly the 32-column budget.
    let not_deleted = format!(
        "{NOT_DELETED_PREFIX}{}",
        save_failure_reason(&FsOpError::Fs(
            VolumeError::DeleteNonEmptyDir
        ))
    );
    assert_eq!(not_deleted, "Not deleted: folder is not empty");
    assert!(not_deleted.chars().count() <= 32);
    let read_only = format!(
        "{NOT_DELETED_PREFIX}{}",
        save_failure_reason(&FsOpError::Fs(VolumeError::ReadOnly))
    );
    assert_eq!(read_only, "Not deleted: file is read-only");
    assert!(read_only.chars().count() <= 32);
    // The create prompt's prefix with its longest reason is exactly the
    // 32-column budget.
    let create_failed = format!(
        "{CREATE_FAILED_PREFIX}{}",
        save_failure_reason(&FsOpError::DeviceUnresponsive)
    );
    assert_eq!(create_failed, "Create failed: SD not responding");
    assert!(create_failed.chars().count() <= 32);
    // The unconfirmable-delete status is a whole string, not a prefix.
    assert_eq!(DELETE_UNCONFIRMED, "Delete unconfirmed; check list");
    assert!(DELETE_UNCONFIRMED.chars().count() <= 32);
    // The exit dialog repeats the editor status in a 30-column box, and
    // "kept" messages must survive it unclipped.
    let kept = format!("{SAVE_FAILED_KEPT_PREFIX}~WIO0000.BAK");
    assert_eq!(kept, "Save failed; kept ~WIO0000.BAK");
    assert!(kept.chars().count() <= 30);
}

#[test]
fn sd_retry_returns_first_success_and_last_failure() {
    let calls = Cell::new(0u32);
    let result: Result<u32, ()> = sd_retry(|| {
        calls.set(calls.get() + 1);
        if calls.get() < 3 {
            Err(())
        } else {
            Ok(calls.get())
        }
    });
    assert_eq!(result, Ok(3));
    assert_eq!(calls.get(), 3);

    calls.set(0);
    let result: Result<(), u32> = sd_retry(|| {
        calls.set(calls.get() + 1);
        Err(calls.get())
    });
    assert_eq!(result, Err(SD_RETRY_ATTEMPTS as u32));
    assert_eq!(calls.get(), SD_RETRY_ATTEMPTS as u32);

    calls.set(0);
    let result: Result<(), ()> = sd_retry(|| {
        calls.set(calls.get() + 1);
        Ok(())
    });
    assert_eq!(result, Ok(()));
    assert_eq!(calls.get(), 1);
}
