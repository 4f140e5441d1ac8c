use wio_terminal_sd_editor::boot::{parse_fat_boot_sector, BootSector};
use wio_terminal_sd_editor::bytes::{le_u16, le_u32, put_u16, put_u32};
use wio_terminal_sd_editor::card::open_document;
use wio_terminal_sd_editor::fat_tail::{mark_phantom_tail, FAT16_BAD_CLUSTER, FAT32_BAD_CLUSTER};
use wio_terminal_sd_editor::format::{make_boot_sector, make_fsinfo};
use wio_terminal_sd_editor::names::{
    components, judge_entry_name, judge_file_stem, path_is_inside, NameFault,
};
use wio_terminal_sd_editor::screens::{ActionChoice, ExitChoice, NewChoice};
use wio_terminal_sd_editor::{
    fat32_geometry, is_txt_file, join_path, leaf_name, parent_path, save_failure_reason,
    validate_entry_name, validate_file_stem, Button, EditError, FixedTimeSource, FormatError,
    FsOpError, InputEngine, Key, Keyboard, KeyboardPage, LoadError, NewlineStyle, RawButtons,
    SaveError, TextBuffer, VolumeError, MAX_DOCUMENT_BYTES, MAX_ENTRY_NAME_CHARS,
    MAX_FILE_STEM_CHARS,
};

fn buffer(text: &str) -> TextBuffer {
    TextBuffer::from_bytes(text.as_bytes().to_vec()).ok().unwrap()
}

#[test]
fn typed_text_is_undone_by_backspace() {
    for ch in ['a', '\u{e9}', '\u{20ac}', '\u{1f600}'] {
        let mut editor = buffer("one\r\ntwo");
        editor.set_cursor_end();
        let before = editor.cursor();
        editor.insert_char(ch).unwrap();
        assert_eq!(editor.cursor(), before + ch.len_utf8());
        editor.backspace();
        assert_eq!(editor.bytes(), b"one\r\ntwo");
        assert_eq!(editor.cursor(), before);
    }
}

#[test]
fn newlines_follow_the_document() {
    let mut unix = buffer("a\nb");
    unix.set_cursor_end();
    unix.insert_newline().unwrap();
    assert_eq!(unix.bytes(), b"a\nb\n");
    let mut dos = buffer("a\r\nb");
    dos.set_cursor_end();
    dos.insert_newline().unwrap();
    assert_eq!(dos.bytes(), b"a\r\nb\r\n");
    dos.backspace();
    assert_eq!(dos.bytes(), b"a\r\nb");
    assert_ne!(NewlineStyle::Lf, NewlineStyle::CrLf);
}

#[test]
fn steps_undo_each_other() {
    let mut editor = buffer("a\u{e9}\r\nb");
    let mut stops = vec![editor.cursor()];
    for _ in 0..4 {
        editor.move_right();
        stops.push(editor.cursor());
    }
    assert_eq!(stops, [0, 1, 3, 5, 6]);
    for stop in stops.iter().rev().skip(1) {
        editor.move_left();
        assert_eq!(editor.cursor(), *stop);
    }
    editor.move_left();
    assert_eq!(editor.cursor(), 0);
}

#[test]
fn a_pair_of_carriage_return_and_newline_is_one_step() {
    let mut editor = buffer("a\r\nb");
    editor.move_right();
    editor.delete();
    assert_eq!(editor.bytes(), b"ab");
    assert_eq!(editor.cursor(), 1);
    assert!(editor.is_dirty());
    editor.mark_clean();
    assert!(!editor.is_dirty());
}

#[test]
fn lines_are_counted_and_shown() {
    let editor = buffer("one\n\ttwo\r\nthree\n");
    assert_eq!(editor.line_count(), 4);
    assert_eq!(editor.display_line(0, 0, 30), "one");
    assert_eq!(editor.display_line(1, 0, 30), "    two");
    assert_eq!(editor.display_line(1, 2, 3), "  t");
    assert_eq!(editor.display_line(2, 1, 30), "hree");
    assert_eq!(editor.display_line(3, 0, 30), "");
}

#[test]
fn documents_are_refused_for_their_size_or_their_bytes() {
    assert_eq!(
        TextBuffer::from_bytes(vec![0xc3]).err(),
        Some(EditError::InvalidUtf8)
    );
    assert_eq!(
        open_document(vec![b'a'; MAX_DOCUMENT_BYTES + 1]).err(),
        Some(LoadError::TooLarge)
    );
    assert_eq!(open_document(vec![0xff]).err(), Some(LoadError::InvalidUtf8));
    assert_eq!(open_document(b"ok".to_vec()).ok().unwrap().bytes(), b"ok");
    let mut editor = TextBuffer::from_bytes(vec![b'a'; MAX_DOCUMENT_BYTES]).ok().unwrap();
    assert_eq!(editor.insert_newline(), Err(EditError::TooLarge));
    assert_eq!(editor.bytes().len(), MAX_DOCUMENT_BYTES);
}

#[test]
fn paths_join_and_part_again() {
    for parent in ["/", "/A", "/A/B C"] {
        let path = join_path(parent, "LEAF.TXT");
        assert_eq!(leaf_name(&path), "LEAF.TXT");
        assert_eq!(parent_path(&path), parent);
    }
    assert_eq!(join_path("/", "A"), "/A");
    assert_eq!(join_path("/A", "B"), "/A/B");
    assert_eq!(parent_path("/"), "/");
    assert!(path_is_inside("/A", "/a/B"));
    assert!(!path_is_inside("/A", "/AB"));
    assert!(!path_is_inside("/A", "/A"));
    assert_eq!(components("/A//B/"), ["A", "B"]);
    assert!(components("/").is_empty());
}

#[test]
fn a_name_is_judged_by_its_short_form() {
    // The filesystem layer stores upper case.
    assert_eq!(validate_entry_name("notes.txt"), Ok(()));
    assert_eq!(
        judge_entry_name("notes.txt", &Ok(String::from("NOTES.TXT"))),
        Ok(())
    );
    assert!(judge_entry_name("notes.txt", &Ok(String::from("NOTES~1.TXT"))).is_err());
    assert_eq!(judge_file_stem("notes", &Ok(String::from("NOTES"))), Ok(()));
    for fault in [
        NameFault::InvalidCharacter,
        NameFault::Empty,
        NameFault::TooLong,
        NameFault::MisplacedPeriod,
        NameFault::NotText,
    ] {
        assert!(judge_entry_name("AB", &Err(fault)).is_err());
    }
    assert!(validate_entry_name("A+B").is_err());
    assert!(validate_entry_name("A.B.C").is_err());
    assert!(validate_file_stem("A.B").is_err());
    assert_eq!(MAX_FILE_STEM_CHARS, 8);
    assert_eq!(MAX_ENTRY_NAME_CHARS, 12);
    assert!(is_txt_file("a.TXT"));
    assert!(!is_txt_file("txt"));
}

#[test]
fn numbers_read_back_from_a_sector() {
    let mut sector = [0x11u8; 512];
    put_u16(&mut sector, 3, 0xbeef);
    put_u32(&mut sector, 508, 0xdead_beef);
    assert_eq!(le_u16(&sector, 3), 0xbeef);
    assert_eq!(le_u32(&sector, 508), 0xdead_beef);
    assert_eq!(sector[2], 0x11);
    assert_eq!(sector[5], 0x11);
    assert_eq!(&sector[508..], [0xef, 0xbe, 0xad, 0xde]);
}

#[test]
fn marking_a_tail_twice_changes_nothing_more() {
    for (from, marker) in [(8, &FAT32_BAD_CLUSTER[..]), (6, &FAT16_BAD_CLUSTER[..])] {
        let mut sector = [0u8; 512];
        sector[from - 1] = 1;
        assert!(mark_phantom_tail(&mut sector, from, marker));
        assert!(sector[..from - 1].iter().all(|byte| *byte == 0));
        assert!(sector[from..].chunks_exact(marker.len()).all(|entry| entry == marker));
        let marked = sector;
        assert!(!mark_phantom_tail(&mut sector, from, marker));
        assert_eq!(sector, marked);
    }
}

#[test]
fn only_free_entries_of_a_tail_are_marked() {
    let mut sector = [0u8; 512];
    sector[100..104].copy_from_slice(&[1, 2, 3, 4]);
    assert!(mark_phantom_tail(&mut sector, 96, &FAT32_BAD_CLUSTER));
    assert_eq!(sector[96..100], FAT32_BAD_CLUSTER);
    assert_eq!(sector[100..104], [1, 2, 3, 4]);
    assert_eq!(sector[104..108], FAT32_BAD_CLUSTER);
}

#[test]
fn a_boot_sector_parses_back() {
    let geometry = fat32_geometry(131_072, 5).unwrap();
    let boot = make_boot_sector(&geometry);
    let BootSector::Fat(found) = parse_fat_boot_sector(&boot) else {
        panic!("a boot sector of our own must parse");
    };
    assert_eq!(found.serial, geometry.volume_serial);
    assert_eq!(found.total_sectors, geometry.partition_sectors);
    assert_eq!(found.fat_sectors, geometry.fat_sectors);
    assert_eq!(found.cluster_count, geometry.cluster_count);
    assert_eq!(found.sectors_per_cluster, geometry.sectors_per_cluster);
    assert_eq!(found.fat_copies, 2);
    assert_eq!(found.fsinfo_sector, 1);
    assert!(found.fat32);
    let info = make_fsinfo(&geometry);
    assert_eq!(le_u32(&info, 488), geometry.cluster_count - 1);
    assert_eq!(le_u32(&info, 0), 0x4161_5252);
}

#[test]
fn geometries_depend_on_the_medium_and_the_seed_alone() {
    assert_eq!(fat32_geometry(200_000, 1), fat32_geometry(200_000, 1));
    assert_eq!(fat32_geometry(0, 0), Err(FormatError::TooSmall));
    assert_eq!(fat32_geometry(68_639, 0), Err(FormatError::InvalidGeometry));
    let large = fat32_geometry(u32::MAX, 0).unwrap();
    assert_eq!(large.sectors_per_cluster, 64);
    assert_eq!(large.partition_start, 2_048);
    assert_eq!(large.partition_sectors, u32::MAX - 2_048);
}

#[test]
fn choices_come_round_again() {
    assert_eq!(ActionChoice::Rename.next().previous(), ActionChoice::Rename);
    assert_eq!(
        ActionChoice::Rename.next().next().next().next(),
        ActionChoice::Rename
    );
    assert_eq!(ExitChoice::Save.left().right(), ExitChoice::Save);
    assert_eq!(NewChoice::Folder.next().next(), NewChoice::Folder);
}

#[test]
fn moves_on_the_keyboard_undo_each_other() {
    let mut keyboard = Keyboard::new();
    for _ in 0..4 {
        for _ in 0..keyboard.row_len(keyboard.row) {
            keyboard.move_right();
            keyboard.move_left();
            keyboard.move_right();
        }
        assert_eq!(keyboard.column, 0);
        keyboard.move_down();
    }
    assert_eq!((keyboard.row, keyboard.column), (0, 0));
    keyboard.move_up();
    assert_eq!(keyboard.row, 3);
    assert_eq!(keyboard.selected(), Key::Case);
    assert_eq!(keyboard.label(3, 2), "SP");
    assert_eq!(keyboard.label(1, 9), ";");
    keyboard.activate_meta(Key::Case);
    assert_eq!(keyboard.page, KeyboardPage::Upper);
    assert_eq!(keyboard.key_at(2, 9), Key::Character('"'));
    keyboard.activate_meta(Key::Case);
    assert_eq!(keyboard.page, KeyboardPage::Lower);
}

#[test]
fn a_press_is_reported_once_without_repeats() {
    let mut input = InputEngine::new();
    let click = RawButtons::default().with(Button::Click, true);
    assert!(click.pressed(Button::Click));
    assert!(!click.pressed(Button::Up));
    assert_eq!(input.update(click, 0), None);
    // A bounce starts the wait anew.
    assert_eq!(input.update(RawButtons::default(), 10), None);
    assert_eq!(input.update(click, 15), None);
    assert_eq!(input.update(click, 35), None);
    assert_eq!(input.update(click, 36), Some(Button::Click));
    for now in 37..2_000 {
        assert_eq!(input.update(click, now), None);
    }
    assert!(input.is_pressed(Button::Click));
    assert_eq!(input.held_ticks(Button::Up, 2_000), 0);
    assert!(input.held_ticks(Button::Click, 2_000) > 1_900);
}

#[test]
fn every_failure_has_its_words() {
    let device = |detail: &str| {
        save_failure_reason(&FsOpError::Fs(VolumeError::DeviceError(String::from(detail))))
    };
    assert_eq!(device("ReadError"), "card rejected read");
    assert_eq!(device("Transport"), "SD SPI transport error");
    assert_eq!(device("GpioError"), "SD SPI transport error");
    assert_eq!(device("TimeoutWaitNotBusy"), "SD write timed out");
    assert_eq!(device("TimeoutReadBuffer"), "SD read timed out");
    assert_eq!(device("CardNotFound"), "SD card not found");
    assert_eq!(device("BadState"), "SD card bad state");
    assert_eq!(device("CantEnableCRC"), "SD CRC unavailable");
    assert_eq!(device("Cmd58Error"), "SD register error");
    assert_eq!(device("CrcError(1, 2)"), "SD CRC mismatch");
    assert_eq!(device("TimeoutCommand(17)"), "SD command timed out");
    assert_eq!(device("TimeoutACommand(41)"), "SD command timed out");
    for (error, words) in [
        (FsOpError::NotADirectory, "not a folder"),
        (FsOpError::IsADirectory, "path is a folder"),
        (FsOpError::MoveIntoSelf, "move into itself"),
        (FsOpError::TooDeep, "folders too deep"),
    ] {
        assert_eq!(save_failure_reason(&error), words);
    }
}

#[test]
fn reports_become_failures() {
    assert_eq!(
        FsOpError::from(VolumeError::FileAlreadyExists),
        FsOpError::AlreadyExists
    );
    assert_eq!(
        FsOpError::from(VolumeError::DirAlreadyExists),
        FsOpError::AlreadyExists
    );
    let missing = FsOpError::from(VolumeError::NotFound);
    assert!(missing.is_not_found());
    assert!(!missing.is_device_error());
    assert!(FsOpError::Fs(VolumeError::DeviceError(String::new())).is_device_error());
    assert_eq!(
        SaveError::from(FsOpError::TooLarge),
        SaveError {
            error: FsOpError::TooLarge,
            backup_kept: None
        }
    );
}

#[test]
fn the_clock_stands_still() {
    let time = FixedTimeSource.timestamp();
    assert_eq!(time.year_since_1970, 50);
    assert_eq!(time.zero_indexed_month, 0);
    assert_eq!(time.zero_indexed_day, 0);
    assert_eq!((time.hours, time.minutes, time.seconds), (0, 0, 0));
}

#[test]
fn everything_lies_inside_the_root() {
    assert!(path_is_inside("/", "/A"));
    assert!(path_is_inside("/", "/A/B"));
    assert!(!path_is_inside("/", "/"));
    for parent in ["/", "/A", "/A/B"] {
        assert!(path_is_inside(parent, &join_path(parent, "LEAF.TXT")));
        assert!(!path_is_inside(parent, parent));
    }
}

#[test]
fn a_reason_fits_the_status_line() {
    let device = |detail: &str| {
        save_failure_reason(&FsOpError::Fs(VolumeError::DeviceError(String::from(detail))))
    };
    assert_eq!(device("Odd"), "SD io: Odd");
    assert_eq!(device(&"x".repeat(25)), format!("SD io: {}", "x".repeat(25)));
    assert_eq!(device(&"x".repeat(26)), format!("SD io: {}", "x".repeat(25)));
    assert_eq!(device(&"x".repeat(40)).chars().count(), 32);
}

#[test]
fn no_page_of_the_keyboard_holds_a_key_twice() {
    let mut keyboard = Keyboard::new();
    for page in [KeyboardPage::Lower, KeyboardPage::Upper, KeyboardPage::Symbols] {
        keyboard.page = page;
        let mut keys = Vec::new();
        for row in 0..4 {
            for column in 0..keyboard.row_len(row) {
                let key = keyboard.key_at(row, column);
                assert!(!keys.contains(&key));
                keys.push(key);
            }
        }
        assert_eq!(
            keys[keys.len() - 6..],
            [
                Key::Case,
                Key::Page,
                Key::Space,
                Key::Backspace,
                Key::Delete,
                Key::Enter
            ]
        );
    }
}

#[test]
fn a_tail_of_any_length_is_marked() {
    let mut tail = [7, 0, 0, 0, 0, 0, 1, 0, 0, 0];
    assert!(mark_phantom_tail(&mut tail, 1, &[0xf7, 0xff]));
    assert_eq!(tail, [7, 0xf7, 0xff, 0xf7, 0xff, 0, 1, 0xf7, 0xff, 0]);
    assert!(!mark_phantom_tail(&mut tail, 1, &[0xf7, 0xff]));
    assert_eq!(tail[9], 0);
    let mut short = [0, 0, 0];
    assert!(!mark_phantom_tail(&mut short, 0, &FAT32_BAD_CLUSTER));
    assert_eq!(short, [0, 0, 0]);
}
