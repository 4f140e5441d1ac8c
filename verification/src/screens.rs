//! The screens of the device and what they hold.
use vstd::prelude::*;

use crate::card::DirectoryItem;
use crate::editor::{cells, last_line, newlines, TextBuffer};
use crate::explorer::Explorer;
use crate::keyboard::{on_keyboard, Keyboard};
use crate::names::{MAX_ENTRY_NAME_CHARS, MAX_FILE_STEM_CHARS};
use crate::notice::Notice;
use crate::picker::MovePicker;
use crate::text::text_of;

verus! {

/// What tells one card from another.
#[derive(Clone, Copy, Debug, PartialEq, Eq, Structural)]
pub struct MediaIdentity {
    pub sectors: u32,
    pub partition_start: u32,
    pub volume_serial: u32,
}

/// Why a card was not mounted.
#[derive(Clone, Copy, Debug, PartialEq, Eq, Structural)]
pub enum MountFailure {
    Io,
    Unsupported,
    Invalid,
}

/// The card in the slot, as an open document sees it.
#[derive(Clone, Copy, Debug, PartialEq, Eq, Structural)]
pub enum EditorMedia {
    /// The card that the document came from.
    Ready,
    Removed,
    Different,
}

/// What a name is being entered for.
#[derive(Clone, Copy, Debug, PartialEq, Eq, Structural)]
pub enum NameMode {
    NewText,
    NewFolder,
    Rename,
}

/// Entering a name. The cursor counts characters.
pub struct NameEntry {
    pub explorer: Explorer,
    pub mode: NameMode,
    /// The entry to be renamed.
    pub source: Option<DirectoryItem>,
    pub name: Vec<char>,
    pub cursor: usize,
    pub keyboard: Keyboard,
    pub keyboard_visible: bool,
    pub status: Option<Notice>,
}

/// Most characters that a name may have.
pub open spec fn name_limit(mode: NameMode) -> int {
    match mode {
        NameMode::NewText => MAX_FILE_STEM_CHARS as int,
        _ => MAX_ENTRY_NAME_CHARS as int,
    }
}

impl NameEntry {
    /// The cursor stands in the name, a key is selected, and a rename knows its
    /// source.
    pub open spec fn wf(&self) -> bool {
        &&& self.explorer.wf()
        &&& self.cursor <= self.name@.len()
        &&& on_keyboard(self.keyboard.row as int, self.keyboard.column as int)
        &&& self.mode == NameMode::Rename ==> self.source is Some
    }

    /// Whether another character fits.
    pub fn can_insert(&self) -> (yes: bool)
        ensures
            yes == (self.name@.len() < name_limit(self.mode)),
    {
        match self.mode {
            NameMode::NewText => self.name.len() < MAX_FILE_STEM_CHARS,
            _ => self.name.len() < MAX_ENTRY_NAME_CHARS,
        }
    }

    /// The name as text.
    pub fn typed(&self) -> (text: String)
        ensures
            text@ == self.name@,
    {
        let text = text_of(&self.name, 0, self.name.len());
        assert(self.name@.subrange(0, self.name@.len() as int) =~= self.name@);
        text
    }
}

#[derive(Clone, Copy, Debug, PartialEq, Eq, Structural)]
pub enum NewChoice {
    TextFile,
    Folder,
}

impl NewChoice {
    pub open spec fn other(self) -> NewChoice {
        match self {
            NewChoice::TextFile => NewChoice::Folder,
            NewChoice::Folder => NewChoice::TextFile,
        }
    }

    pub fn next(self) -> (choice: Self)
        ensures
            choice == self.other(),
    {
        match self {
            NewChoice::TextFile => NewChoice::Folder,
            NewChoice::Folder => NewChoice::TextFile,
        }
    }
}

pub struct NewMenu {
    pub explorer: Explorer,
    pub choice: NewChoice,
}

#[derive(Clone, Copy, Debug, PartialEq, Eq, Structural)]
pub enum ActionChoice {
    Rename,
    Move,
    Delete,
    Refresh,
}

impl ActionChoice {
    /// The choice above, around the top.
    pub open spec fn above(self) -> ActionChoice {
        match self {
            ActionChoice::Rename => ActionChoice::Refresh,
            ActionChoice::Move => ActionChoice::Rename,
            ActionChoice::Delete => ActionChoice::Move,
            ActionChoice::Refresh => ActionChoice::Delete,
        }
    }

    /// The choice below, around the bottom.
    pub open spec fn below(self) -> ActionChoice {
        match self {
            ActionChoice::Rename => ActionChoice::Move,
            ActionChoice::Move => ActionChoice::Delete,
            ActionChoice::Delete => ActionChoice::Refresh,
            ActionChoice::Refresh => ActionChoice::Rename,
        }
    }

    pub fn previous(self) -> (choice: Self)
        ensures
            choice == self.above(),
    {
        match self {
            ActionChoice::Rename => ActionChoice::Refresh,
            ActionChoice::Move => ActionChoice::Rename,
            ActionChoice::Delete => ActionChoice::Move,
            ActionChoice::Refresh => ActionChoice::Delete,
        }
    }

    pub fn next(self) -> (choice: Self)
        ensures
            choice == self.below(),
    {
        match self {
            ActionChoice::Rename => ActionChoice::Move,
            ActionChoice::Move => ActionChoice::Delete,
            ActionChoice::Delete => ActionChoice::Refresh,
            ActionChoice::Refresh => ActionChoice::Rename,
        }
    }
}

pub struct ActionMenu {
    pub explorer: Explorer,
    pub item: Option<DirectoryItem>,
    pub choice: ActionChoice,
}

#[derive(Clone, Copy, Debug, PartialEq, Eq, Structural)]
pub enum DeleteChoice {
    Cancel,
    Delete,
}

/// An operation slow enough that a notice is shown before it runs.
pub enum PendingFsOp {
    Rename { entry: NameEntry, destination: String },
    Move { picker: MovePicker, destination: String },
    Delete { explorer: Explorer, item: DirectoryItem },
}

impl PendingFsOp {
    pub open spec fn wf(&self) -> bool {
        match self {
            PendingFsOp::Rename { entry, .. } => entry.wf() && entry.source is Some,
            PendingFsOp::Move { picker, .. } => picker.wf(),
            PendingFsOp::Delete { explorer, .. } => explorer.wf(),
        }
    }

    pub open spec fn title_text(&self) -> Seq<char> {
        match self {
            PendingFsOp::Rename { .. } => "RENAMING"@,
            PendingFsOp::Move { .. } => "MOVING"@,
            PendingFsOp::Delete { .. } => "DELETING"@,
        }
    }

    /// The title of the notice.
    pub fn title(&self) -> (title: &'static str)
        ensures
            title@ == self.title_text(),
    {
        match self {
            PendingFsOp::Rename { .. } => "RENAMING",
            PendingFsOp::Move { .. } => "MOVING",
            PendingFsOp::Delete { .. } => "DELETING",
        }
    }
}

/// Columns of text on the editor screen.
pub const EDITOR_COLUMNS: usize = 30;

/// An open document.
pub struct Editor {
    pub explorer: Explorer,
    pub path: String,
    pub name: String,
    pub buffer: TextBuffer,
    pub keyboard: Keyboard,
    pub keyboard_visible: bool,
    pub scroll_line: usize,
    pub horizontal: usize,
    pub status: Option<Notice>,
    pub media: EditorMedia,
    pub identity: MediaIdentity,
}

/// The first of `size` shown positions, moved from `first` as little as is needed
/// to show `at`.
pub open spec fn scrolled(first: int, size: int, at: int) -> int {
    if at < first {
        at
    } else if at >= first + size {
        at + 1 - size
    } else {
        first
    }
}

/// Lines of text on the editor screen.
pub open spec fn visible_lines(keyboard_visible: bool) -> int {
    if keyboard_visible { 5 } else { 9 }
}

fn scroll(first: usize, size: usize, at: usize) -> (moved: usize)
    requires
        1 <= size <= 30,
        at < usize::MAX,
    ensures
        moved == scrolled(first as int, size as int, at as int),
{
    if at < first {
        at
    } else if at - first >= size {
        at + 1 - size
    } else {
        first
    }
}

impl Editor {
    /// The document is sound and a key is selected.
    pub open spec fn wf(&self) -> bool {
        &&& self.explorer.wf()
        &&& self.buffer.wf()
        &&& on_keyboard(self.keyboard.row as int, self.keyboard.column as int)
    }

    /// The same editor, scrolled so that the cursor is visible.
    pub open spec fn showing_cursor(self) -> Editor {
        Editor {
            scroll_line: scrolled(
                self.scroll_line as int,
                visible_lines(self.keyboard_visible),
                newlines(self.buffer.before()) as int,
            ) as usize,
            horizontal: scrolled(
                self.horizontal as int,
                EDITOR_COLUMNS as int,
                cells(last_line(self.buffer.before())),
            ) as usize,
            ..self
        }
    }

    /// Scroll so that the cursor is visible.
    pub fn ensure_cursor_visible(&mut self)
        requires
            old(self).wf(),
        ensures
            *final(self) == old(self).showing_cursor(),
            final(self).wf(),
    {
        let lines: usize = if self.keyboard_visible { 5 } else { 9 };
        let (line, column) = self.buffer.display_position();
        self.scroll_line = scroll(self.scroll_line, lines, line);
        self.horizontal = scroll(self.horizontal, EDITOR_COLUMNS, column);
    }
}

/// After scrolling, the cursor's line and cell lie in the window.
pub proof fn scrolling_shows_the_position(first: int, size: int, at: int)
    requires
        0 <= first,
        1 <= size,
        0 <= at,
    ensures
        0 <= scrolled(first, size, at) <= at < scrolled(first, size, at) + size,
{
}

#[derive(Clone, Copy, Debug, PartialEq, Eq, Structural)]
pub enum ExitChoice {
    Save,
    Discard,
    Cancel,
}

impl ExitChoice {
    pub open spec fn to_left(self) -> ExitChoice {
        match self {
            ExitChoice::Save => ExitChoice::Cancel,
            ExitChoice::Discard => ExitChoice::Save,
            ExitChoice::Cancel => ExitChoice::Discard,
        }
    }

    pub open spec fn to_right(self) -> ExitChoice {
        match self {
            ExitChoice::Save => ExitChoice::Discard,
            ExitChoice::Discard => ExitChoice::Cancel,
            ExitChoice::Cancel => ExitChoice::Save,
        }
    }

    pub fn left(self) -> (choice: Self)
        ensures
            choice == self.to_left(),
    {
        match self {
            ExitChoice::Save => ExitChoice::Cancel,
            ExitChoice::Discard => ExitChoice::Save,
            ExitChoice::Cancel => ExitChoice::Discard,
        }
    }

    pub fn right(self) -> (choice: Self)
        ensures
            choice == self.to_right(),
    {
        match self {
            ExitChoice::Save => ExitChoice::Discard,
            ExitChoice::Discard => ExitChoice::Cancel,
            ExitChoice::Cancel => ExitChoice::Save,
        }
    }
}

/// Left and right, and above and below, undo each other.
pub proof fn choices_go_round(action: ActionChoice, exit: ExitChoice, new: NewChoice)
    ensures
        action.above().below() == action,
        action.below().above() == action,
        exit.to_left().to_right() == exit,
        exit.to_right().to_left() == exit,
        new.other().other() == new,
{
}

/// What the device shows.
#[allow(inconsistent_fields)]
pub enum Screen {
    Missing,
    Mounting,
    FormatPrompt {
        reason: &'static str,
        /// Set by the top left button; the confirmation is disarmed until the top
        /// right button arms it again.
        cancelled: bool,
        /// When the prompt appeared. Only a press that began later confirms.
        opened_at: u32,
    },
    Formatting,
    Explorer(Explorer),
    NewMenu(NewMenu),
    ActionMenu(ActionMenu),
    Naming(NameEntry),
    MovePicker(MovePicker),
    DeletePrompt { explorer: Explorer, item: DirectoryItem, choice: DeleteChoice },
    Editor(Editor),
    ExitPrompt { editor: Editor, choice: ExitChoice },
    Fatal(&'static str),
}

impl Screen {
    pub open spec fn wf(&self) -> bool {
        match self {
            Screen::Explorer(explorer) => explorer.wf(),
            Screen::NewMenu(menu) => menu.explorer.wf(),
            Screen::ActionMenu(menu) => menu.explorer.wf(),
            Screen::Naming(entry) => entry.wf(),
            Screen::MovePicker(picker) => picker.wf(),
            Screen::DeletePrompt { explorer, .. } => explorer.wf(),
            Screen::Editor(editor) => editor.wf(),
            Screen::ExitPrompt { editor, .. } => editor.wf(),
            _ => true,
        }
    }
}

/// What a button press leads to: the next screen, or an operation for which a
/// notice is shown first.
pub enum HandleResult {
    Screen(Screen),
    Op(PendingFsOp),
}

impl HandleResult {
    pub open spec fn wf(&self) -> bool {
        match self {
            HandleResult::Screen(screen) => screen.wf(),
            HandleResult::Op(op) => op.wf(),
        }
    }
}

} // verus!
