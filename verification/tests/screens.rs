use std::cell::RefCell;
use std::rc::Rc;

use wio_terminal_sd_editor::buttons::handle_button;
use wio_terminal_sd_editor::device::BatteryStatus;
use wio_terminal_sd_editor::explorer::Explorer;
use wio_terminal_sd_editor::naming::press_in_name_entry;
use wio_terminal_sd_editor::notice::{MoveVerb, Notice};
use wio_terminal_sd_editor::operations::run_fs_op;
use wio_terminal_sd_editor::picker::MovePicker;
use wio_terminal_sd_editor::screens::{
    ActionChoice, DeleteChoice, Editor, EditorMedia, ExitChoice, HandleResult, MediaIdentity,
    NameEntry, NameMode, NewChoice, PendingFsOp, Screen,
};
use wio_terminal_sd_editor::view::{
    compact_size, draw, draw_busy, truncate, Align, Area, Style, Tone, Widget, CARD_BUSY_WARNING,
};
use wio_terminal_sd_editor::volume::{
    EntryFacts, EntryRecord, EntryScan, OpenMode, VolumeAccess,
};
use wio_terminal_sd_editor::{
    Button, CardFs, DirectoryItem, FsOpError, Keyboard, KeyboardPage, MediaLayout, SaveError,
    TextBuffer, VolumeError, MAX_DOCUMENT_BYTES,
};

/// A volume held in memory: paths in upper case, with the contents of files.
#[derive(Default)]
struct Contents {
    entries: Vec<(String, Option<Vec<u8>>)>,
    read_only: Vec<String>,
    dirs: Vec<String>,
    files: Vec<(String, usize)>,
    open_handles: usize,
    fail_writes: bool,
    fail_listing: bool,
}

#[derive(Clone, Default)]
struct Shelf(Rc<RefCell<Contents>>);

impl Shelf {
    fn put(&self, path: &str, contents: Option<&[u8]>) {
        self.0
            .borrow_mut()
            .entries
            .push((String::from(path), contents.map(|bytes| bytes.to_vec())));
    }

    fn get(&self, path: &str) -> Option<Vec<u8>> {
        let state = self.0.borrow();
        let found = state.entries.iter().find(|entry| entry.0 == path)?;
        found.1.clone()
    }

    fn has(&self, path: &str) -> bool {
        self.0.borrow().entries.iter().any(|entry| entry.0 == path)
    }
}

impl Contents {
    fn child(&self, dir: usize, name: &str) -> String {
        format!("{}/{}", self.dirs[dir], name.to_ascii_uppercase())
    }

    fn position(&self, path: &str) -> Option<usize> {
        self.entries.iter().position(|entry| entry.0 == path)
    }
}

impl VolumeAccess for Shelf {
    type Dir = usize;
    type File = usize;

    fn read_sector(&mut self, _lba: u32) -> Option<[u8; 512]> {
        Some([0; 512])
    }

    fn write_sector(&mut self, _lba: u32, _contents: &[u8; 512]) -> bool {
        true
    }

    fn drop_cache(&mut self) {}

    fn open_volume(&mut self, _partition: u8) -> Result<(), VolumeError> {
        Ok(())
    }

    fn close_volume(&mut self) -> Result<(), VolumeError> {
        Ok(())
    }

    fn open_root_dir(&mut self) -> Result<usize, VolumeError> {
        let mut state = self.0.borrow_mut();
        state.dirs.push(String::new());
        state.open_handles += 1;
        Ok(state.dirs.len() - 1)
    }

    fn open_dir(&mut self, parent: usize, name: &str) -> Result<usize, VolumeError> {
        let mut state = self.0.borrow_mut();
        let path = state.child(parent, name);
        match state.position(&path) {
            Some(at) if state.entries[at].1.is_none() => {
                state.dirs.push(path);
                state.open_handles += 1;
                Ok(state.dirs.len() - 1)
            }
            Some(_) => Err(VolumeError::OpenedFileAsDir),
            None => Err(VolumeError::NotFound),
        }
    }

    fn close_dir(&mut self, _dir: usize) {
        self.0.borrow_mut().open_handles -= 1;
    }

    fn find_entry(&mut self, dir: usize, name: &str) -> Result<EntryFacts, VolumeError> {
        let state = self.0.borrow();
        let path = state.child(dir, name);
        let at = state.position(&path).ok_or(VolumeError::NotFound)?;
        let contents = &state.entries[at].1;
        Ok(EntryFacts {
            directory: contents.is_none(),
            read_only: state.read_only.contains(&path),
            size: contents.as_ref().map_or(0, |bytes| bytes.len() as u32),
        })
    }

    fn iterate_dir(&mut self, dir: usize, scan: EntryScan) -> Result<EntryScan, VolumeError> {
        let state = self.0.borrow();
        if state.fail_listing {
            return Err(VolumeError::DeviceError(String::from("ReadError")));
        }
        let prefix = format!("{}/", state.dirs[dir]);
        let mut scan = scan;
        for (path, contents) in &state.entries {
            let Some(name) = path.strip_prefix(&prefix) else {
                continue;
            };
            if name.contains('/') {
                continue;
            }
            scan = scan.visit(EntryRecord {
                name: String::from(name),
                long_name: None,
                dot: false,
                volume_label: false,
                long_name_part: false,
                directory: contents.is_none(),
                read_only: state.read_only.contains(path),
                hidden: false,
                system: false,
                size: contents.as_ref().map_or(0, |bytes| bytes.len() as u32),
            });
            if scan.is_over() {
                break;
            }
        }
        Ok(scan)
    }

    fn make_dir(&mut self, dir: usize, name: &str) -> Result<(), VolumeError> {
        let mut state = self.0.borrow_mut();
        let path = state.child(dir, name);
        if state.position(&path).is_some() {
            return Err(VolumeError::DirAlreadyExists);
        }
        if state.fail_writes {
            return Err(VolumeError::DeviceError(String::from("WriteError")));
        }
        state.entries.push((path, None));
        Ok(())
    }

    fn delete_entry(&mut self, dir: usize, name: &str) -> Result<(), VolumeError> {
        let mut state = self.0.borrow_mut();
        let path = state.child(dir, name);
        let at = state.position(&path).ok_or(VolumeError::NotFound)?;
        let inside = format!("{path}/");
        if state.entries.iter().any(|entry| entry.0.starts_with(&inside)) {
            return Err(VolumeError::DeleteNonEmptyDir);
        }
        if state.fail_writes {
            return Err(VolumeError::DeviceError(String::from("WriteError")));
        }
        state.entries.remove(at);
        Ok(())
    }

    fn open_file(&mut self, dir: usize, name: &str, mode: OpenMode) -> Result<usize, VolumeError> {
        let mut state = self.0.borrow_mut();
        let path = state.child(dir, name);
        match state.position(&path) {
            Some(at) => {
                if state.entries[at].1.is_none() {
                    return Err(VolumeError::OpenedDirAsFile);
                }
                if mode == OpenMode::ReadWriteCreate {
                    return Err(VolumeError::FileAlreadyExists);
                }
                if mode != OpenMode::ReadOnly {
                    if state.read_only.contains(&path) {
                        return Err(VolumeError::ReadOnly);
                    }
                    if state.fail_writes {
                        return Err(VolumeError::DeviceError(String::from("WriteError")));
                    }
                    state.entries[at].1 = Some(Vec::new());
                }
            }
            None => {
                if mode == OpenMode::ReadOnly || mode == OpenMode::ReadWriteTruncate {
                    return Err(VolumeError::NotFound);
                }
                if state.fail_writes {
                    return Err(VolumeError::DeviceError(String::from("WriteError")));
                }
                state.entries.push((path.clone(), Some(Vec::new())));
            }
        }
        state.files.push((path, 0));
        state.open_handles += 1;
        Ok(state.files.len() - 1)
    }

    fn read(&mut self, file: usize, limit: usize) -> Result<Vec<u8>, VolumeError> {
        let mut state = self.0.borrow_mut();
        let (path, from) = state.files[file].clone();
        let at = state.position(&path).ok_or(VolumeError::BadHandle)?;
        let bytes = state.entries[at].1.clone().unwrap_or_default();
        let to = bytes.len().min(from + limit);
        state.files[file].1 = to;
        Ok(bytes[from..to].to_vec())
    }

    fn write(&mut self, file: usize, bytes: &[u8]) -> Result<(), VolumeError> {
        let mut state = self.0.borrow_mut();
        if state.fail_writes {
            return Err(VolumeError::DeviceError(String::from("WriteError")));
        }
        let path = state.files[file].0.clone();
        let at = state.position(&path).ok_or(VolumeError::BadHandle)?;
        match &mut state.entries[at].1 {
            Some(contents) => contents.extend_from_slice(bytes),
            None => return Err(VolumeError::BadHandle),
        }
        Ok(())
    }

    fn close_file(&mut self, _file: usize) -> Result<(), VolumeError> {
        self.0.borrow_mut().open_handles -= 1;
        Ok(())
    }
}

const IDENTITY: MediaIdentity = MediaIdentity {
    sectors: 4_096,
    partition_start: 1,
    volume_serial: 0x1234_5678,
};

/// The device with a mounted card.
struct Device {
    shelf: Shelf,
    card: Option<CardFs<Shelf>>,
    screen: Screen,
}

impl Device {
    fn new(entries: &[(&str, Option<&[u8]>)]) -> Device {
        let shelf = Shelf::default();
        for (path, contents) in entries {
            shelf.put(path, *contents);
        }
        let layout = MediaLayout {
            start_lba: 1,
            sector_count: 4_095,
            volume_serial: IDENTITY.volume_serial,
            partition_index: 0,
            fat32: false,
        };
        let mut card = CardFs::mount(shelf.clone(), layout).unwrap();
        let mut explorer = Explorer::root();
        explorer.refresh(&mut card);
        Device {
            shelf,
            card: Some(card),
            screen: Screen::Explorer(explorer),
        }
    }

    /// Press buttons in turn; an operation is run as soon as it is due.
    fn press(&mut self, buttons: &[Button]) {
        for button in buttons {
            let screen = std::mem::replace(&mut self.screen, Screen::Mounting);
            let identity = self.card.as_ref().map(|_| IDENTITY);
            self.screen = match handle_button(screen, *button, &mut self.card, identity) {
                HandleResult::Screen(next) => next,
                HandleResult::Op(op) => run_fs_op(op, &mut self.card),
            };
            assert_eq!(self.shelf.0.borrow().open_handles, 0);
        }
    }

    fn explorer(&self) -> &Explorer {
        match &self.screen {
            Screen::Explorer(explorer) => explorer,
            _ => panic!("not the explorer"),
        }
    }

    fn naming(&self) -> &NameEntry {
        match &self.screen {
            Screen::Naming(entry) => entry,
            _ => panic!("not the name entry"),
        }
    }

    fn picker(&self) -> &MovePicker {
        match &self.screen {
            Screen::MovePicker(picker) => picker,
            _ => panic!("not the move picker"),
        }
    }

    fn editor(&self) -> &Editor {
        match &self.screen {
            Screen::Editor(editor) => editor,
            Screen::ExitPrompt { editor, .. } => editor,
            _ => panic!("not the editor"),
        }
    }

    fn texts(&self) -> Vec<String> {
        texts(&draw(&self.screen, None))
    }
}

fn texts(widgets: &[Widget]) -> Vec<String> {
    let mut all = Vec::new();
    for widget in widgets {
        match widget {
            Widget::Text { text, .. } => all.push(text.clone()),
            Widget::Spans { spans, .. } => {
                for span in spans {
                    all.push(span.text.clone());
                }
            }
            _ => {}
        }
    }
    all
}

fn names(explorer: &Explorer) -> Vec<String> {
    explorer.entries.iter().map(|item| item.name.clone()).collect()
}

#[test]
fn the_explorer_lists_the_root() {
    let device = Device::new(&[("/A.TXT", Some(b"one")), ("/DIR", None)]);
    assert_eq!(names(device.explorer()), ["A.TXT", "DIR"]);
    assert_eq!(device.explorer().total, 2);
    assert_eq!(device.explorer().free_bytes, None);
    assert_eq!(device.explorer().status, None);
}

#[test]
fn a_text_file_opens_in_the_editor() {
    let mut device = Device::new(&[("/A.TXT", Some(b"one"))]);
    device.press(&[Button::Click]);
    let editor = device.editor();
    assert_eq!(editor.path, "/A.TXT");
    assert_eq!(editor.name, "A.TXT");
    assert_eq!(editor.buffer.bytes(), b"one");
    assert_eq!(editor.identity, IDENTITY);
    assert!(editor.keyboard_visible);
}

#[test]
fn files_that_cannot_be_edited_say_why() {
    let large = vec![b'a'; MAX_DOCUMENT_BYTES + 1];
    let mut device = Device::new(&[
        ("/A.BIN", Some(b"one")),
        ("/B.TXT", Some(large.as_slice())),
        ("/C.TXT", Some(&[0xff, 0xfe])),
        ("/D.TXT", Some(b"fine")),
    ]);
    device.press(&[Button::Click]);
    assert_eq!(device.explorer().status, Some(Notice::OnlyTextFiles));
    device.press(&[Button::Down, Button::Click]);
    assert_eq!(device.explorer().status, Some(Notice::FileTooLarge));
    device.press(&[Button::Down, Button::Click]);
    assert_eq!(device.explorer().status, Some(Notice::FileNotText));
    device.shelf.0.borrow_mut().entries.pop();
    device.press(&[Button::Down, Button::Click]);
    assert_eq!(device.explorer().status, Some(Notice::FileNotOpened));
}

#[test]
fn the_explorer_scrolls_enters_folders_and_goes_back() {
    let mut entries: Vec<(String, Option<&[u8]>)> = Vec::new();
    for index in 0..10 {
        entries.push((format!("/F{index}.TXT"), Some(b"")));
    }
    entries.push((String::from("/SUB"), None));
    entries.push((String::from("/SUB/IN.TXT"), Some(b"x")));
    let borrowed: Vec<(&str, Option<&[u8]>)> =
        entries.iter().map(|entry| (entry.0.as_str(), entry.1)).collect();
    let mut device = Device::new(&borrowed);
    assert_eq!(device.explorer().entries.len(), 8);
    device.press(&[Button::Down; 10]);
    assert_eq!(device.explorer().offset, 3);
    assert_eq!(device.explorer().selected, 7);
    assert_eq!(device.explorer().entries[7].name, "SUB");
    device.press(&[Button::Right]);
    assert_eq!(device.explorer().path, "/SUB");
    assert_eq!(names(device.explorer()), ["IN.TXT"]);
    device.press(&[Button::Left]);
    assert_eq!(device.explorer().path, "/");
    device.press(&[Button::Up; 12]);
    assert_eq!(device.explorer().offset, 0);
    assert_eq!(device.explorer().selected, 0);
}

#[test]
fn an_unreadable_folder_is_reported() {
    let mut device = Device::new(&[("/DIR", None)]);
    device.shelf.0.borrow_mut().fail_listing = true;
    device.press(&[Button::Click]);
    assert_eq!(device.explorer().status, Some(Notice::FolderUnreadable));
    assert!(device.explorer().entries.is_empty());
    assert_eq!(device.explorer().total, 0);
}

#[test]
fn without_a_card_every_screen_leads_to_the_missing_card() {
    let mut device = Device::new(&[("/A.TXT", Some(b"one"))]);
    device.card = None;
    device.press(&[Button::Click]);
    assert!(matches!(device.screen, Screen::Missing));
}

#[test]
fn a_new_text_file_is_named_created_and_opened() {
    let mut device = Device::new(&[]);
    device.press(&[Button::TopMiddle]);
    assert!(matches!(&device.screen, Screen::NewMenu(menu) if menu.choice == NewChoice::TextFile));
    // The keyboard starts on its first key.
    device.press(&[Button::Click, Button::Click, Button::Right, Button::Click]);
    assert_eq!(device.naming().mode, NameMode::NewText);
    assert_eq!(device.naming().typed(), "qw");
    device.press(&[Button::TopRight]);
    assert_eq!(device.editor().path, "/qw.txt");
    assert_eq!(device.editor().buffer.bytes(), b"");
    assert_eq!(device.shelf.get("/QW.TXT"), Some(Vec::new()));
}

#[test]
fn a_taken_name_is_refused() {
    let mut device = Device::new(&[("/Q.TXT", Some(b"old")), ("/W", None)]);
    device.press(&[Button::TopMiddle, Button::Click, Button::Click, Button::TopRight]);
    assert_eq!(device.naming().status, Some(Notice::FileExists));
    assert_eq!(device.shelf.get("/Q.TXT"), Some(b"old".to_vec()));
    device.press(&[Button::TopLeft, Button::TopMiddle, Button::Down, Button::Click]);
    assert_eq!(device.naming().mode, NameMode::NewFolder);
    device.press(&[Button::Right, Button::Click, Button::TopRight]);
    assert_eq!(device.naming().status, Some(Notice::NameExists));
}

#[test]
fn a_new_folder_is_created_and_selected() {
    let mut device = Device::new(&[("/A.TXT", Some(b"one"))]);
    device.press(&[Button::TopMiddle, Button::Down, Button::Click]);
    device.press(&[Button::Click, Button::TopRight]);
    assert_eq!(device.explorer().status, Some(Notice::FolderCreated));
    assert_eq!(names(device.explorer()), ["A.TXT", "Q"]);
    assert_eq!(device.explorer().selected, 1);
    assert!(device.shelf.has("/Q"));
}

#[test]
fn a_card_that_refuses_writes_refuses_creation() {
    let mut device = Device::new(&[]);
    device.shelf.0.borrow_mut().fail_writes = true;
    device.press(&[Button::TopMiddle, Button::Click, Button::Click, Button::TopRight]);
    assert_eq!(
        device.naming().status,
        Some(Notice::CreateFailed(FsOpError::Fs(VolumeError::DeviceError(
            String::from("WriteError")
        ))))
    );
    assert_eq!(
        device.naming().status.as_ref().unwrap().text(),
        "Create failed: card rejected write"
    );
}

#[test]
fn a_bad_name_is_refused_before_the_card_is_asked() {
    let mut device = Device::new(&[]);
    device.press(&[Button::TopMiddle, Button::Click, Button::TopRight]);
    assert!(matches!(device.naming().status, Some(Notice::NameProblem(_))));
    assert_eq!(device.shelf.0.borrow().entries.len(), 0);
}

#[test]
fn a_verdict_on_the_name_decides() {
    let device = Device::new(&[]);
    let mut card = device.card;
    let entry = NameEntry {
        explorer: Explorer::root(),
        mode: NameMode::NewFolder,
        source: None,
        name: vec!['A', 'B'],
        cursor: 2,
        keyboard: Keyboard::new(),
        keyboard_visible: true,
        status: None,
    };
    let refused = press_in_name_entry(
        entry,
        Button::TopRight,
        Err("no such names here"),
        &mut card,
        Some(IDENTITY),
    );
    let HandleResult::Screen(Screen::Naming(entry)) = refused else {
        panic!("a refused name stays on the screen");
    };
    assert_eq!(entry.status, Some(Notice::NameProblem("no such names here")));
    assert!(!device.shelf.has("/AB"));
    let accepted =
        press_in_name_entry(entry, Button::TopRight, Ok(()), &mut card, Some(IDENTITY));
    assert!(matches!(accepted, HandleResult::Screen(Screen::Explorer(_))));
    assert!(device.shelf.has("/AB"));
}

#[test]
fn names_are_limited_and_edited_at_the_cursor() {
    let mut device = Device::new(&[]);
    device.press(&[Button::TopMiddle, Button::Click]);
    device.press(&[Button::Click; 9]);
    assert_eq!(device.naming().typed(), "qqqqqqqq");
    // Without the keyboard the cursor moves through the name.
    device.press(&[Button::TopMiddle, Button::Left, Button::Left, Button::Click]);
    assert_eq!(device.naming().cursor, 6);
    // The bottom row holds the editing keys: backspace is the fourth.
    device.press(&[Button::Up]);
    assert_eq!(device.naming().keyboard.row, 3);
    device.press(&[Button::Right, Button::Right, Button::Right, Button::Click]);
    assert_eq!(device.naming().typed(), "qqqqqqq");
    assert_eq!(device.naming().cursor, 5);
    device.press(&[Button::Right, Button::Click]);
    assert_eq!(device.naming().typed(), "qqqqqq");
    assert_eq!(device.naming().cursor, 5);
    device.press(&[Button::Right, Button::Click]);
    assert_eq!(device.naming().status, Some(Notice::UseDone));
}

#[test]
fn a_file_is_renamed() {
    let mut device = Device::new(&[("/A.TXT", Some(b"one")), ("/B.TXT", Some(b"two"))]);
    device.press(&[Button::TopRight]);
    assert!(matches!(&device.screen, Screen::ActionMenu(menu) if menu.choice == ActionChoice::Rename));
    device.press(&[Button::Click]);
    assert_eq!(device.naming().typed(), "A.TXT");
    assert_eq!(device.naming().cursor, 5);
    device.press(&[Button::TopMiddle, Button::Left, Button::Left, Button::Left, Button::Left]);
    device.press(&[Button::Click, Button::Click, Button::TopRight]);
    assert_eq!(
        device.explorer().status,
        Some(Notice::Landed {
            verb: MoveVerb::Rename,
            source_remains: false
        })
    );
    assert_eq!(device.shelf.get("/AQ.TXT"), Some(b"one".to_vec()));
    assert!(!device.shelf.has("/A.TXT"));
    assert_eq!(device.explorer().entries[device.explorer().selected].name, "AQ.TXT");
}

#[test]
fn a_rename_onto_a_taken_name_changes_nothing() {
    let mut device = Device::new(&[("/A.TXT", Some(b"one")), ("/AQ.TXT", Some(b"two"))]);
    device.press(&[Button::TopRight, Button::Click]);
    device.press(&[Button::TopMiddle, Button::Left, Button::Left, Button::Left, Button::Left]);
    device.press(&[Button::Click, Button::Click, Button::TopRight]);
    assert_eq!(device.naming().status, Some(Notice::Taken(MoveVerb::Rename)));
    assert_eq!(device.shelf.get("/A.TXT"), Some(b"one".to_vec()));
    assert_eq!(device.shelf.get("/AQ.TXT"), Some(b"two".to_vec()));
}

#[test]
fn an_entry_is_moved_into_a_folder() {
    let mut device = Device::new(&[("/A.TXT", Some(b"one")), ("/DIR", None)]);
    device.press(&[Button::TopRight, Button::Down, Button::Click]);
    assert_eq!(device.picker().entries.len(), 1);
    device.press(&[Button::TopMiddle]);
    assert_eq!(device.picker().status, Some(Notice::AlreadyInFolder));
    device.press(&[Button::Click, Button::TopMiddle]);
    assert_eq!(device.shelf.get("/DIR/A.TXT"), Some(b"one".to_vec()));
    assert!(!device.shelf.has("/A.TXT"));
    assert_eq!(
        device.explorer().status.as_ref().map(|notice| notice.text()),
        Some(String::from("Moved"))
    );
}

#[test]
fn a_folder_being_moved_is_no_destination() {
    let mut device = Device::new(&[("/DIR", None), ("/OTHER", None)]);
    device.press(&[Button::TopRight, Button::Down, Button::Click]);
    let shown: Vec<String> =
        device.picker().entries.iter().map(|item| item.name.clone()).collect();
    assert_eq!(shown, ["OTHER"]);
}

#[test]
fn deleting_takes_a_choice_on_the_prompt() {
    let mut device = Device::new(&[("/A.TXT", Some(b"one")), ("/DIR", None)]);
    device.press(&[Button::TopRight, Button::Up, Button::Up, Button::Click]);
    assert!(matches!(
        &device.screen,
        Screen::DeletePrompt { choice: DeleteChoice::Cancel, .. }
    ));
    // The prompt stands on "cancel".
    device.press(&[Button::Click]);
    assert!(device.shelf.has("/A.TXT"));
    device.press(&[Button::TopRight, Button::Up, Button::Up, Button::Click]);
    device.press(&[Button::Right, Button::Click]);
    assert!(!device.shelf.has("/A.TXT"));
    assert_eq!(device.explorer().status, Some(Notice::FileDeleted));
    device.press(&[Button::TopRight, Button::Up, Button::Up, Button::Click]);
    device.press(&[Button::Right, Button::Click]);
    assert!(!device.shelf.has("/DIR"));
    assert_eq!(device.explorer().status, Some(Notice::FolderDeleted));
}

#[test]
fn a_read_only_file_is_not_deleted() {
    let mut device = Device::new(&[("/A.TXT", Some(b"one"))]);
    device.shelf.0.borrow_mut().read_only.push(String::from("/A.TXT"));
    device.press(&[Button::TopRight, Button::Up, Button::Up, Button::Click]);
    device.press(&[Button::Right, Button::Click]);
    assert!(device.shelf.has("/A.TXT"));
    assert_eq!(
        device.explorer().status.as_ref().map(|notice| notice.text()),
        Some(String::from("Not deleted: file is read-only"))
    );
}

#[test]
fn actions_without_an_item_say_so() {
    let mut device = Device::new(&[]);
    device.press(&[Button::TopRight, Button::Click]);
    assert_eq!(device.explorer().status, Some(Notice::NoItemSelected));
}

#[test]
fn an_operation_without_a_card_is_dropped() {
    let mut none: Option<CardFs<Shelf>> = None;
    let op = PendingFsOp::Delete {
        explorer: Explorer::root(),
        item: DirectoryItem {
            name: String::from("A.TXT"),
            path: String::from("/A.TXT"),
            is_dir: false,
            size: 3,
            hidden: false,
            system: false,
        },
    };
    assert_eq!(op.title(), "DELETING");
    assert!(matches!(run_fs_op(op, &mut none), Screen::Missing));
}

#[test]
fn typing_and_saving_reach_the_card() {
    let mut device = Device::new(&[("/A.TXT", Some(b"one"))]);
    device.press(&[Button::Click, Button::Click]);
    assert_eq!(device.editor().buffer.bytes(), b"qone");
    assert!(device.editor().buffer.is_dirty());
    device.press(&[Button::TopRight]);
    assert_eq!(device.editor().status, Some(Notice::Saved));
    assert!(!device.editor().buffer.is_dirty());
    assert_eq!(device.shelf.get("/A.TXT"), Some(b"qone".to_vec()));
    assert_eq!(device.shelf.0.borrow().entries.len(), 1);
}

#[test]
fn leaving_the_editor_takes_a_choice() {
    let mut device = Device::new(&[("/A.TXT", Some(b"one"))]);
    device.press(&[Button::Click, Button::Click, Button::TopLeft]);
    assert!(matches!(&device.screen, Screen::ExitPrompt { choice: ExitChoice::Cancel, .. }));
    device.press(&[Button::Click]);
    assert!(matches!(&device.screen, Screen::Editor(_)));
    device.press(&[Button::TopLeft, Button::Left, Button::Click]);
    assert_eq!(device.shelf.get("/A.TXT"), Some(b"one".to_vec()));
    assert_eq!(device.explorer().path, "/");
    device.press(&[Button::Click, Button::Click, Button::TopLeft]);
    device.press(&[Button::Right, Button::Click]);
    assert_eq!(device.shelf.get("/A.TXT"), Some(b"qone".to_vec()));
    assert_eq!(device.explorer().path, "/");
}

#[test]
fn a_failed_save_keeps_the_editor_open() {
    let mut device = Device::new(&[("/A.TXT", Some(b"one"))]);
    device.press(&[Button::Click, Button::Click]);
    device.shelf.0.borrow_mut().fail_writes = true;
    device.press(&[Button::TopLeft, Button::Right, Button::Click]);
    assert!(matches!(&device.screen, Screen::ExitPrompt { choice: ExitChoice::Save, .. }));
    assert_eq!(
        device.editor().status,
        Some(Notice::SaveFailed(SaveError {
            error: FsOpError::Fs(VolumeError::DeviceError(String::from("WriteError"))),
            backup_kept: None,
        }))
    );
    assert!(device.editor().buffer.is_dirty());
    assert_eq!(device.shelf.get("/A.TXT"), Some(b"one".to_vec()));
}

#[test]
fn saving_waits_for_the_right_card() {
    let mut device = Device::new(&[("/A.TXT", Some(b"one"))]);
    device.press(&[Button::Click, Button::Click]);
    for (media, notice) in [
        (EditorMedia::Removed, Notice::ReinsertCard),
        (EditorMedia::Different, Notice::DifferentCard),
    ] {
        match &mut device.screen {
            Screen::Editor(editor) => editor.media = media,
            _ => panic!("not the editor"),
        }
        device.press(&[Button::TopRight]);
        assert_eq!(device.editor().status, Some(notice));
        assert_eq!(device.shelf.get("/A.TXT"), Some(b"one".to_vec()));
    }
    match &mut device.screen {
        Screen::Editor(editor) => editor.media = EditorMedia::Ready,
        _ => panic!("not the editor"),
    }
    device.card = None;
    device.press(&[Button::TopRight]);
    assert_eq!(device.editor().status, Some(Notice::CardUnavailable));
}

#[test]
fn a_full_document_takes_no_more() {
    let full = vec![b'a'; MAX_DOCUMENT_BYTES];
    let mut device = Device::new(&[("/A.TXT", Some(full.as_slice()))]);
    device.press(&[Button::Click, Button::Click]);
    assert_eq!(device.editor().status, Some(Notice::DocumentLimit));
    assert_eq!(device.editor().buffer.bytes(), full);
}

#[test]
fn the_editor_follows_its_cursor() {
    let text = vec![b'\n'; 40];
    let mut device = Device::new(&[("/A.TXT", Some(text.as_slice()))]);
    device.press(&[Button::Click, Button::TopMiddle]);
    device.press(&[Button::Down; 30]);
    let editor = device.editor();
    let (line, _) = editor.buffer.display_position();
    assert_eq!(line, 30);
    assert!(editor.scroll_line <= line && line < editor.scroll_line + 10);
}

#[test]
fn the_keyboard_changes_its_page() {
    let mut device = Device::new(&[("/A.TXT", Some(b""))]);
    device.press(&[Button::Click, Button::Up, Button::Click]);
    assert_eq!(device.editor().keyboard.page, KeyboardPage::Upper);
    device.press(&[Button::Right, Button::Click]);
    assert_eq!(device.editor().keyboard.page, KeyboardPage::Symbols);
}

#[test]
fn dismissed_failures_and_prompts_lead_on() {
    let mut device = Device::new(&[]);
    device.screen = Screen::FormatPrompt {
        reason: "Unsupported filesystem",
        cancelled: false,
        opened_at: 7,
    };
    device.press(&[Button::TopLeft]);
    assert!(matches!(device.screen, Screen::FormatPrompt { cancelled: true, .. }));
    device.press(&[Button::TopRight]);
    assert!(matches!(device.screen, Screen::FormatPrompt { cancelled: false, .. }));
}

#[test]
fn sizes_are_written_in_a_few_characters() {
    assert_eq!(compact_size(0), "0B");
    assert_eq!(compact_size(999), "999B");
    assert_eq!(compact_size(1_000), "1K");
    assert_eq!(compact_size(999_999), "999K");
    assert_eq!(compact_size(1_000_000), "1M");
    assert_eq!(compact_size(999_999_999), "999M");
    assert_eq!(compact_size(1_000_000_000), "1.0G");
    assert_eq!(compact_size(31_950_000_000), "31.9G");
}

#[test]
fn long_texts_are_cut_short() {
    assert_eq!(truncate("short", 5), "short");
    assert_eq!(truncate("a longer text", 8).chars().count(), 8);
    assert!(truncate("\u{e9}\u{e9}\u{e9}\u{e9}", 3).chars().count() <= 3);
}

#[test]
fn the_explorer_is_drawn_with_its_entries_and_status() {
    let mut device = Device::new(&[("/A.TXT", Some(b"one")), ("/DIR", None)]);
    let all = device.texts();
    assert!(all.iter().any(|text| text.contains("A.TXT")));
    assert!(all.iter().any(|text| text.contains("DIR")));
    device.press(&[Button::Down, Button::Up]);
    match &mut device.screen {
        Screen::Explorer(explorer) => explorer.status = Some(Notice::FileDeleted),
        _ => panic!("not the explorer"),
    }
    assert!(device.texts().iter().any(|text| text.contains("File deleted")));
}

#[test]
fn the_battery_is_drawn_over_everything_else() {
    let battery = BatteryStatus {
        percent: 87,
        charging: true,
    };
    let widgets = draw(&Screen::Missing, Some(battery));
    assert_eq!(
        widgets.last(),
        Some(&Widget::Text {
            area: Area {
                x: 24,
                y: 0,
                width: 8,
                height: 1
            },
            text: String::from("87% CHG"),
            style: Style {
                fg: Some(Tone::DarkGray),
                bg: None,
                bold: true
            },
            align: Align::Right,
            wrap: false,
        })
    );
    assert!(!texts(&draw(&Screen::Missing, None)).iter().any(|text| text.contains('%')));
}

#[test]
fn a_busy_card_is_announced() {
    let all = texts(&draw_busy("MOVING", None));
    assert!(all.iter().any(|text| text == "MOVING"));
    assert!(all.iter().any(|text| text == CARD_BUSY_WARNING));
}

#[test]
fn every_screen_can_be_drawn() {
    let mut device = Device::new(&[("/A.TXT", Some(b"one\ttwo\nthree")), ("/DIR", None)]);
    assert!(!device.texts().is_empty());
    device.press(&[Button::TopMiddle]);
    assert!(device.texts().iter().any(|text| text.contains("folder") || text.contains("Folder")));
    device.press(&[Button::TopLeft, Button::TopRight]);
    assert!(device.texts().iter().any(|text| text.contains("Rename")));
    device.press(&[Button::Click]);
    assert!(device.texts().iter().any(|text| text.contains("A.TXT")));
    device.press(&[Button::TopLeft, Button::TopRight, Button::Down, Button::Click]);
    assert!(device.texts().iter().any(|text| text.contains("DIR")));
    device.press(&[Button::TopLeft, Button::TopRight, Button::Up, Button::Up, Button::Click]);
    assert!(device.texts().iter().any(|text| text.contains("A.TXT")));
    device.press(&[Button::TopLeft, Button::Click]);
    assert!(device.texts().iter().any(|text| text.contains("three")));
    device.press(&[Button::TopLeft]);
    assert!(!device.texts().is_empty());
    for screen in [Screen::Missing, Screen::Mounting, Screen::Formatting] {
        assert!(!texts(&draw(&screen, None)).is_empty());
    }
    assert!(texts(&draw(&Screen::Fatal("Card too small for FAT32"), None))
        .iter()
        .any(|text| text.contains("Card too small for FAT32")));
}

#[test]
fn notices_have_their_words() {
    assert_eq!(Notice::ReadFailed.text(), "SD read failed; remove and reinsert");
    assert_eq!(
        Notice::Landed {
            verb: MoveVerb::Move,
            source_remains: true
        }
        .text(),
        "Moved; old entry remains"
    );
    assert_eq!(
        Notice::SaveFailed(SaveError {
            error: FsOpError::VerifyFailed,
            backup_kept: Some(String::from("/DIR/~WIO0000.BAK")),
        })
        .text(),
        "Save failed; kept ~WIO0000.BAK"
    );
    assert_eq!(
        Notice::DeleteFailed(FsOpError::VerifyFailed).text(),
        "Delete unconfirmed; check list"
    );
    assert_eq!(
        Notice::DeleteFailed(FsOpError::DeleteIncomplete(Box::new(FsOpError::VerifyFailed)))
            .text(),
        "Delete incomplete: data removed"
    );
    assert_eq!(
        Notice::MoveFailed {
            verb: MoveVerb::Rename,
            error: FsOpError::TooDeep
        }
        .text(),
        "Rename failed: folders too deep"
    );
}

#[test]
fn an_empty_document_is_clean() {
    let buffer = TextBuffer::empty();
    assert_eq!(buffer.bytes(), b"");
    assert!(!buffer.is_dirty());
}
