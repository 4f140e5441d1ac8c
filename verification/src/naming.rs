//! Entering names.
use vstd::prelude::*;

use crate::card::CardFs;
use crate::editor::{NewlineStyle, TextBuffer};
use crate::errors::FsOpError;
use crate::explorer::{mark_listing, refreshed, refreshed_at, Explorer, ExplorerView};
use crate::handlers::{card_sound, is_explorer, is_fresh_editor, open_editor};
use crate::input::Button;
use crate::keyboard::{
    column_in, column_left, column_right, key_on, moves_stay_on_the_keyboard, on_keyboard,
    page_after, row_down, row_up, Key, Keyboard,
};
use crate::names::{
    entry_name_problem, file_stem_problem, join_path, joined_path, says, short_form,
    validate_entry_name, validate_file_stem, NameFault,
};
use crate::notice::Notice;
use crate::screens::{
    name_limit, HandleResult, MediaIdentity, NameEntry, NameMode, PendingFsOp, Screen,
};
use crate::session::Step;
use crate::text::joined;
use crate::volume::VolumeAccess;

verus! {

/// The four directions of the joystick.
pub open spec fn is_direction(button: Button) -> bool {
    button == Button::Up || button == Button::Down || button == Button::Left || button
        == Button::Right
}

/// The keyboard after a direction was pressed.
pub open spec fn keyboard_after(k: Keyboard, button: Button) -> Keyboard {
    let row = k.row as int;
    let column = k.column as int;
    match button {
        Button::Up => Keyboard {
            row: row_up(row) as usize,
            column: column_in(row_up(row), column) as usize,
            ..k
        },
        Button::Down => Keyboard {
            row: row_down(row) as usize,
            column: column_in(row_down(row), column) as usize,
            ..k
        },
        Button::Left => Keyboard { column: column_left(row, column) as usize, ..k },
        Button::Right => Keyboard { column: column_right(row, column) as usize, ..k },
        _ => k,
    }
}

/// Move the selected key; says whether the button was a direction.
pub fn move_keyboard(keyboard: &mut Keyboard, button: Button) -> (moved: bool)
    requires
        on_keyboard(old(keyboard).row as int, old(keyboard).column as int),
    ensures
        *final(keyboard) == keyboard_after(*old(keyboard), button),
        on_keyboard(final(keyboard).row as int, final(keyboard).column as int),
        moved == is_direction(button),
{
    proof {
        moves_stay_on_the_keyboard(keyboard.row as int, keyboard.column as int);
    }
    match button {
        Button::Up => keyboard.move_up(),
        Button::Down => keyboard.move_down(),
        Button::Left => keyboard.move_left(),
        Button::Right => keyboard.move_right(),
        _ => return false,
    }
    true
}

/// What is edited of a [`NameEntry`], over plain characters. The explorer and the entry that
/// it came from stay as they are, and stand apart.
pub struct NameView {
    pub mode: NameMode,
    pub name: Seq<char>,
    pub cursor: int,
    pub keyboard: Keyboard,
    pub keyboard_visible: bool,
    pub status: Option<Notice>,
}

impl NameEntry {
    pub open spec fn view(&self) -> NameView {
        NameView {
            mode: self.mode,
            name: self.name@,
            cursor: self.cursor as int,
            keyboard: self.keyboard,
            keyboard_visible: self.keyboard_visible,
            status: self.status,
        }
    }

    /// The same question, whatever was typed since.
    pub open spec fn same_question(&self, other: &NameEntry) -> bool {
        self.explorer == other.explorer && self.source == other.source && self.mode == other.mode
    }
}

/// The name with `ch` typed at the cursor, if it fits.
pub open spec fn typed_char(n: NameView, ch: char) -> NameView {
    if n.name.len() < name_limit(n.mode) {
        NameView {
            name: n.name.insert(n.cursor, ch),
            cursor: n.cursor + 1,
            status: None,
            ..n
        }
    } else {
        n
    }
}

/// The name after `key` was activated.
pub open spec fn name_after_key(n: NameView, key: Key) -> NameView {
    match key {
        Key::Character(ch) => typed_char(n, ch),
        Key::Space => typed_char(n, ' '),
        Key::Backspace => if n.cursor > 0 {
            NameView {
                name: n.name.remove(n.cursor - 1),
                cursor: n.cursor - 1,
                status: None,
                ..n
            }
        } else {
            n
        },
        Key::Delete => if n.cursor < n.name.len() {
            NameView { name: n.name.remove(n.cursor), status: None, ..n }
        } else {
            n
        },
        Key::Enter => NameView { status: Some(Notice::UseDone), ..n },
        Key::Case | Key::Page => NameView {
            keyboard: Keyboard { page: page_after(n.keyboard.page, key), ..n.keyboard },
            ..n
        },
    }
}

/// The name after a button other than the three on top. Without the keyboard the
/// joystick moves the cursor.
pub open spec fn name_edited(n: NameView, button: Button) -> NameView {
    if !n.keyboard_visible {
        match button {
            Button::Left => NameView {
                cursor: if n.cursor > 0 { n.cursor - 1 } else { 0 },
                ..n
            },
            Button::Right => NameView {
                cursor: if n.cursor < n.name.len() { n.cursor + 1 } else { n.cursor },
                ..n
            },
            Button::Click => NameView { keyboard_visible: true, ..n },
            _ => n,
        }
    } else if is_direction(button) {
        NameView { keyboard: keyboard_after(n.keyboard, button), ..n }
    } else if button == Button::Click {
        name_after_key(
            n,
            key_on(n.keyboard.page, n.keyboard.row as int, n.keyboard.column as int),
        )
    } else {
        n
    }
}

/// What is wrong with the name as it stands.
pub open spec fn name_problem(n: NameView, form: Result<Seq<char>, NameFault>) -> Option<Seq<char>> {
    match n.mode {
        NameMode::NewText => file_stem_problem(n.name, form),
        _ => entry_name_problem(n.name, form),
    }
}

/// The result is the same question with another status.
pub open spec fn asks_again(result: HandleResult, entry: NameEntry, status: Notice) -> bool {
    result matches HandleResult::Screen(screen) && screen matches Screen::Naming(shown) && {
        &&& shown.same_question(&entry)
        &&& shown@ == NameView { status: Some(status), ..entry@ }
    }
}

/// Creating the file that was named.
pub open spec fn file_created<M: VolumeAccess>(
    before: CardFs<M>,
    after: CardFs<M>,
    entry: NameEntry,
    identity: Option<MediaIdentity>,
    result: HandleResult,
) -> bool {
    let name = entry.name@ + ".txt"@;
    let path = joined_path(entry.explorer.path@, name);
    &&& after.changed(&before)
    &&& after.steps_since(&before).len() == 1
    &&& after.steps_since(&before)[0] matches Step::CreateFile { path: p, reply } && p == path
        && match reply {
        Ok(_) => result matches HandleResult::Screen(screen) && {
            &&& is_fresh_editor(screen, entry.explorer, path, name, identity->0)
            &&& screen matches Screen::Editor(editor) && editor.buffer.text() == Seq::<char>::empty()
                && !editor.buffer.dirty() && editor.buffer.newline_style() == NewlineStyle::Lf
        },
        Err(FsOpError::AlreadyExists) => asks_again(result, entry, Notice::FileExists),
        Err(error) => asks_again(result, entry, Notice::CreateFailed(error)),
    }
}

/// One step that creates a folder.
pub open spec fn folder_step<M: VolumeAccess>(
    before: CardFs<M>,
    after: CardFs<M>,
    path: Seq<char>,
    reply: Result<(), FsOpError>,
) -> bool {
    &&& after.changed(&before)
    &&& after.steps_since(&before) == seq![Step::CreateFolder { path, reply }]
}

/// Creating the folder that was named, and showing it.
pub open spec fn folder_created<M: VolumeAccess>(
    before: CardFs<M>,
    after: CardFs<M>,
    entry: NameEntry,
    result: HandleResult,
) -> bool {
    let path = joined_path(entry.explorer.path@, entry.name@);
    exists|made: CardFs<M>, reply: Result<(), FsOpError>|
        {
            &&& #[trigger] folder_step(before, made, path, reply)
            &&& match reply {
                Ok(_) => exists|read: ExplorerView| #[trigger]
                    mark_listing(read) && refreshed_at(made, after, entry.explorer@, path, read) && (
                    result matches HandleResult::Screen(screen) && is_explorer(
                        screen,
                        ExplorerView { status: Some(Notice::FolderCreated), ..read },
                    )),
                Err(FsOpError::AlreadyExists) => after == made && asks_again(
                    result,
                    entry,
                    Notice::NameExists,
                ),
                Err(error) => after == made && asks_again(
                    result,
                    entry,
                    Notice::CreateFailed(error),
                ),
            }
        }
}

/// Finishing a name with the given verdict on it; renaming is left to be done
/// behind a notice.
pub open spec fn name_done<M: VolumeAccess>(
    before: Option<CardFs<M>>,
    after: Option<CardFs<M>>,
    entry: NameEntry,
    verdict: Result<(), &'static str>,
    identity: Option<MediaIdentity>,
    result: HandleResult,
) -> bool {
    match verdict {
        Err(message) => after == before && asks_again(
            result,
            entry,
            Notice::NameProblem(message),
        ),
        Ok(_) => match before {
            None => after is None && result == HandleResult::Screen(Screen::Missing),
            Some(b) => after matches Some(a) && match entry.mode {
                NameMode::NewText => file_created(b, a, entry, identity, result),
                NameMode::NewFolder => folder_created(b, a, entry, result),
                NameMode::Rename => a == b && (result matches HandleResult::Op(op) && (
                op matches PendingFsOp::Rename { entry: asked, destination } && asked == entry
                    && destination@ == joined_path(entry.explorer.path@, entry.name@))),
            },
        },
    }
}

/// A button while a name is entered. Leaving lists the folder anew, since a failed
/// rename may have changed it.
pub open spec fn name_entry_pressed<M: VolumeAccess>(
    before: Option<CardFs<M>>,
    after: Option<CardFs<M>>,
    entry: NameEntry,
    button: Button,
    verdict: Result<(), &'static str>,
    identity: Option<MediaIdentity>,
    result: HandleResult,
) -> bool {
    match button {
        Button::TopLeft => match before {
            None => after is None && result == HandleResult::Screen(Screen::Missing),
            Some(b) => after matches Some(a) && (result matches HandleResult::Screen(screen) && (
            screen matches Screen::Explorer(shown) && refreshed(
                b,
                a,
                entry.explorer@,
                shown@,
            ))),
        },
        Button::TopMiddle => after == before && result == HandleResult::Screen(
            Screen::Naming(NameEntry { keyboard_visible: !entry.keyboard_visible, ..entry }),
        ),
        Button::TopRight => name_done(before, after, entry, verdict, identity, result),
        _ => after == before && (result matches HandleResult::Screen(screen) && (
        screen matches Screen::Naming(shown) && shown.same_question(&entry) && shown@
            == name_edited(entry@, button))),
    }
}

fn type_char(entry: &mut NameEntry, ch: char)
    requires
        old(entry).wf(),
    ensures
        final(entry).wf(),
        final(entry).same_question(old(entry)),
        final(entry)@ == typed_char(old(entry)@, ch),
{
    if entry.can_insert() {
        entry.name.insert(entry.cursor, ch);
        entry.cursor = entry.cursor + 1;
        entry.status = None;
    }
}

fn activate_key(entry: &mut NameEntry, key: Key)
    requires
        old(entry).wf(),
    ensures
        final(entry).wf(),
        final(entry).same_question(old(entry)),
        final(entry)@ == name_after_key(old(entry)@, key),
{
    match key {
        Key::Character(ch) => type_char(entry, ch),
        Key::Space => type_char(entry, ' '),
        Key::Backspace => {
            if entry.cursor > 0 {
                entry.cursor = entry.cursor - 1;
                entry.name.remove(entry.cursor);
                entry.status = None;
            }
        },
        Key::Delete => {
            if entry.cursor < entry.name.len() {
                entry.name.remove(entry.cursor);
                entry.status = None;
            }
        },
        Key::Enter => {
            entry.status = Some(Notice::UseDone);
        },
        Key::Case | Key::Page => entry.keyboard.activate_meta(key),
    }
}

fn edit_name(entry: &mut NameEntry, button: Button)
    requires
        old(entry).wf(),
    ensures
        final(entry).wf(),
        final(entry).same_question(old(entry)),
        final(entry)@ == name_edited(old(entry)@, button),
{
    if !entry.keyboard_visible {
        match button {
            Button::Left => {
                if entry.cursor > 0 {
                    entry.cursor = entry.cursor - 1;
                }
            },
            Button::Right => {
                if entry.cursor < entry.name.len() {
                    entry.cursor = entry.cursor + 1;
                }
            },
            Button::Click => {
                entry.keyboard_visible = true;
            },
            _ => {},
        }
        return;
    }
    if move_keyboard(&mut entry.keyboard, button) {
        return;
    }
    if button == Button::Click {
        let key = entry.keyboard.selected();
        activate_key(entry, key);
    }
}

fn create_file<M: VolumeAccess>(
    entry: NameEntry,
    card: &mut CardFs<M>,
    identity: Option<MediaIdentity>,
) -> (result: HandleResult)
    requires
        old(card).wf(),
        entry.wf(),
        identity is Some,
    ensures
        final(card).wf(),
        result.wf(),
        file_created(*old(card), *final(card), entry, identity, result),
{
    let mut entry = entry;
    let typed = entry.typed();
    let name = joined(typed.as_str(), ".txt");
    let path = join_path(entry.explorer.path.as_str(), name.as_str());
    match card.create_empty(path.as_str()) {
        Ok(()) => HandleResult::Screen(
            open_editor(entry.explorer, path, name, TextBuffer::empty(), identity.unwrap()),
        ),
        Err(FsOpError::AlreadyExists) => {
            entry.status = Some(Notice::FileExists);
            HandleResult::Screen(Screen::Naming(entry))
        },
        Err(error) => {
            entry.status = Some(Notice::CreateFailed(error));
            HandleResult::Screen(Screen::Naming(entry))
        },
    }
}

fn create_folder<M: VolumeAccess>(entry: NameEntry, card: &mut CardFs<M>) -> (result: HandleResult)
    requires
        old(card).wf(),
        entry.wf(),
    ensures
        final(card).wf(),
        result.wf(),
        folder_created(*old(card), *final(card), entry, result),
{
    let ghost before = *card;
    let mut entry = entry;
    let typed = entry.typed();
    let path = join_path(entry.explorer.path.as_str(), typed.as_str());
    let reply = card.create_directory_verified(path.as_str());
    let ghost made = *card;
    assert(folder_step(before, made, path@, reply));
    match reply {
        Ok(()) => {
            let mut explorer = entry.explorer;
            explorer.refresh_select_path(card, path.as_str());
            let ghost read = explorer@;
            explorer.status = Some(Notice::FolderCreated);
            assert(mark_listing(read));
            HandleResult::Screen(Screen::Explorer(explorer))
        },
        Err(FsOpError::AlreadyExists) => {
            entry.status = Some(Notice::NameExists);
            HandleResult::Screen(Screen::Naming(entry))
        },
        Err(error) => {
            entry.status = Some(Notice::CreateFailed(error));
            HandleResult::Screen(Screen::Naming(entry))
        },
    }
}

fn finish_name<M: VolumeAccess>(
    entry: NameEntry,
    verdict: Result<(), &'static str>,
    card: &mut Option<CardFs<M>>,
    identity: Option<MediaIdentity>,
) -> (result: HandleResult)
    requires
        card_sound(*old(card)),
        entry.wf(),
        *old(card) is Some ==> identity is Some,
    ensures
        card_sound(*final(card)),
        result.wf(),
        name_done(*old(card), *final(card), entry, verdict, identity, result),
{
    let mut entry = entry;
    if let Err(message) = verdict {
        entry.status = Some(Notice::NameProblem(message));
        return HandleResult::Screen(Screen::Naming(entry));
    }
    let typed = entry.typed();
    match card {
        None => HandleResult::Screen(Screen::Missing),
        Some(fs) => match entry.mode {
            NameMode::NewText => create_file(entry, fs, identity),
            NameMode::NewFolder => create_folder(entry, fs),
            NameMode::Rename => {
                let destination = join_path(entry.explorer.path.as_str(), typed.as_str());
                HandleResult::Op(PendingFsOp::Rename { entry, destination })
            },
        },
    }
}

/// A button while a name is entered, with the given verdict on the name.
pub fn press_in_name_entry<M: VolumeAccess>(
    entry: NameEntry,
    button: Button,
    verdict: Result<(), &'static str>,
    card: &mut Option<CardFs<M>>,
    identity: Option<MediaIdentity>,
) -> (result: HandleResult)
    requires
        card_sound(*old(card)),
        entry.wf(),
        *old(card) is Some ==> identity is Some,
    ensures
        card_sound(*final(card)),
        result.wf(),
        name_entry_pressed(*old(card), *final(card), entry, button, verdict, identity, result),
{
    let mut entry = entry;
    match button {
        Button::TopLeft => match card {
            None => HandleResult::Screen(Screen::Missing),
            Some(fs) => {
                let mut explorer = entry.explorer;
                explorer.refresh(fs);
                HandleResult::Screen(Screen::Explorer(explorer))
            },
        },
        Button::TopMiddle => {
            entry.keyboard_visible = !entry.keyboard_visible;
            HandleResult::Screen(Screen::Naming(entry))
        },
        Button::TopRight => finish_name(entry, verdict, card, identity),
        _ => {
            edit_name(&mut entry, button);
            HandleResult::Screen(Screen::Naming(entry))
        },
    }
}

/// A button while a name is entered.
pub fn handle_name_entry<M: VolumeAccess>(
    entry: NameEntry,
    button: Button,
    card: &mut Option<CardFs<M>>,
    identity: Option<MediaIdentity>,
) -> (result: HandleResult)
    requires
        card_sound(*old(card)),
        entry.wf(),
        *old(card) is Some ==> identity is Some,
    ensures
        card_sound(*final(card)),
        result.wf(),
        exists|verdict: Result<(), &'static str>|
            says(verdict, name_problem(entry@, short_form(entry.name@)))
                && #[trigger] name_entry_pressed(
                *old(card),
                *final(card),
                entry,
                button,
                verdict,
                identity,
                result,
            ),
{
    let typed = entry.typed();
    let verdict = match entry.mode {
        NameMode::NewText => validate_file_stem(typed.as_str()),
        _ => validate_entry_name(typed.as_str()),
    };
    press_in_name_entry(entry, button, verdict, card, identity)
}

/// A name never grows beyond its limit by typing, and the cursor stays inside it.
pub proof fn typing_respects_the_limit(n: NameView, ch: char)
    requires
        0 <= n.cursor <= n.name.len() <= name_limit(n.mode),
    ensures
        typed_char(n, ch).name.len() <= name_limit(n.mode),
        0 <= typed_char(n, ch).cursor <= typed_char(n, ch).name.len(),
{
}

/// Backspace takes back what was just typed.
pub proof fn backspace_undoes_typing_in_names(n: NameView, ch: char)
    requires
        0 <= n.cursor <= n.name.len() < name_limit(n.mode),
    ensures
        name_after_key(typed_char(n, ch), Key::Backspace).name == n.name,
        name_after_key(typed_char(n, ch), Key::Backspace).cursor == n.cursor,
{
    assert(n.name.insert(n.cursor, ch).remove(n.cursor) =~= n.name);
}

} // verus!
