//! Editing and saving a document, and leaving it.
use vstd::prelude::*;
use vstd::utf8::encode_utf8;

use crate::card::CardFs;
use crate::editor::{
    cells, columns, last_line, newline_chars, newlines, step_ahead, step_back, vertical_target,
    vertical_target_is_within,    EditError, NewlineStyle, TextBuffer, MAX_DOCUMENT_BYTES,
};
use crate::errors::SaveError;
use crate::explorer::{refreshed, Explorer};
use crate::handlers::card_sound;
use crate::input::Button;
use crate::keyboard::{key_on, page_after, Key, Keyboard};
use crate::naming::{is_direction, keyboard_after, move_keyboard};
use crate::notice::Notice;
use crate::saving::{document_saved, save_view};
use crate::screens::{
    scrolled, visible_lines, Editor, EditorMedia, ExitChoice, MediaIdentity, Screen,
    EDITOR_COLUMNS,
};
use crate::volume::VolumeAccess;

verus! {

/// A document with its cursor, over plain characters.
pub struct BufferView {
    pub before: Seq<char>,
    pub after: Seq<char>,
    pub dirty: bool,
    pub newline: NewlineStyle,
}

pub open spec fn buffer_view(buffer: TextBuffer) -> BufferView {
    BufferView {
        before: buffer.before(),
        after: buffer.after(),
        dirty: buffer.dirty(),
        newline: buffer.newline_style(),
    }
}

/// An [`Editor`] with its document over plain characters.
pub struct EditorView {
    pub explorer: Explorer,
    pub path: String,
    pub name: String,
    pub buffer: BufferView,
    pub keyboard: Keyboard,
    pub keyboard_visible: bool,
    pub scroll_line: usize,
    pub horizontal: usize,
    pub status: Option<Notice>,
    pub media: EditorMedia,
    pub identity: MediaIdentity,
}

impl Editor {
    pub open spec fn view(&self) -> EditorView {
        EditorView {
            explorer: self.explorer,
            path: self.path,
            name: self.name,
            buffer: buffer_view(self.buffer),
            keyboard: self.keyboard,
            keyboard_visible: self.keyboard_visible,
            scroll_line: self.scroll_line,
            horizontal: self.horizontal,
            status: self.status,
            media: self.media,
            identity: self.identity,
        }
    }
}

/// The same editor, scrolled so that the cursor is visible.
pub open spec fn with_cursor_shown(v: EditorView) -> EditorView {
    EditorView {
        scroll_line: scrolled(
            v.scroll_line as int,
            visible_lines(v.keyboard_visible),
            newlines(v.buffer.before) as int,
        ) as usize,
        horizontal: scrolled(
            v.horizontal as int,
            EDITOR_COLUMNS as int,
            cells(last_line(v.buffer.before)),
        ) as usize,
        ..v
    }
}

/// `more` still fits the document.
pub open spec fn has_room(b: BufferView, more: Seq<char>) -> bool {
    encode_utf8(b.before + b.after).len() + encode_utf8(more).len() <= MAX_DOCUMENT_BYTES
}

/// The document with `more` typed at the cursor, if it fits.
pub open spec fn with_typed(b: BufferView, more: Seq<char>) -> BufferView {
    if has_room(b, more) {
        BufferView { before: b.before + more, dirty: true, ..b }
    } else {
        b
    }
}

/// What `key` types.
pub open spec fn chars_of_key(b: BufferView, key: Key) -> Seq<char> {
    match key {
        Key::Character(ch) => seq![ch],
        Key::Space => seq![' '],
        Key::Enter => newline_chars(b.newline),
        _ => Seq::empty(),
    }
}

/// The document after `key` was activated.
pub open spec fn buffer_after_key(b: BufferView, key: Key) -> BufferView {
    match key {
        Key::Character(_) | Key::Space | Key::Enter => with_typed(b, chars_of_key(b, key)),
        Key::Backspace => if b.before.len() == 0 {
            b
        } else {
            BufferView {
                before: b.before.take(b.before.len() - step_back(b.before)),
                dirty: true,
                ..b
            }
        },
        Key::Delete => if b.after.len() == 0 {
            b
        } else {
            BufferView { after: b.after.skip(step_ahead(b.after)), dirty: true, ..b }
        },
        Key::Case | Key::Page => b,
    }
}

/// The editor after `key` was activated. What does not fit is refused.
pub open spec fn editor_after_key(v: EditorView, key: Key) -> EditorView {
    EditorView {
        buffer: buffer_after_key(v.buffer, key),
        keyboard: Keyboard { page: page_after(v.keyboard.page, key), ..v.keyboard },
        status: if has_room(v.buffer, chars_of_key(v.buffer, key)) {
            None
        } else {
            Some(Notice::DocumentLimit)
        },
        ..v
    }
}

/// The document with its cursor after `count` characters.
pub open spec fn with_cursor_at(b: BufferView, count: int) -> BufferView {
    let text = b.before + b.after;
    BufferView { before: text.take(count), after: text.skip(count), ..b }
}

/// The document after a direction was pressed with the keyboard hidden.
pub open spec fn buffer_moved(b: BufferView, button: Button) -> BufferView {
    let line = newlines(b.before) as int;
    let column = columns(last_line(b.before)) as int;
    let text = b.before + b.after;
    match button {
        Button::Up => if line == 0 {
            b
        } else {
            with_cursor_at(b, vertical_target(text, line - 1, column))
        },
        Button::Down => if line == newlines(text) {
            b
        } else {
            with_cursor_at(b, vertical_target(text, line + 1, column))
        },
        Button::Left => with_cursor_at(b, b.before.len() - step_back(b.before)),
        Button::Right => with_cursor_at(b, b.before.len() + step_ahead(b.after)),
        _ => b,
    }
}

/// The editor after a button other than the three on top, before it is scrolled.
pub open spec fn edited(v: EditorView, button: Button) -> EditorView {
    if v.keyboard_visible {
        if is_direction(button) {
            EditorView { keyboard: keyboard_after(v.keyboard, button), ..v }
        } else if button == Button::Click {
            editor_after_key(
                v,
                key_on(v.keyboard.page, v.keyboard.row as int, v.keyboard.column as int),
            )
        } else {
            v
        }
    } else if button == Button::Click {
        EditorView { keyboard_visible: true, ..v }
    } else {
        EditorView { buffer: buffer_moved(v.buffer, button), ..v }
    }
}

/// Saving the document, as one exchange with the card.
pub open spec fn save_made<M: VolumeAccess>(
    before: CardFs<M>,
    after: CardFs<M>,
    v: EditorView,
    result: Result<(), SaveError>,
) -> bool {
    &&& after.changed(&before)
    &&& document_saved(
        after.steps_since(&before),
        v.path@,
        encode_utf8(v.buffer.before + v.buffer.after),
        save_view(result),
    )
}

/// What a save makes of the editor.
pub open spec fn after_save(v: EditorView, result: Result<(), SaveError>) -> EditorView {
    match result {
        Ok(_) => EditorView {
            buffer: BufferView { dirty: false, ..v.buffer },
            status: Some(Notice::Saved),
            ..v
        },
        Err(failure) => EditorView { status: Some(Notice::SaveFailed(failure)), ..v },
    }
}

/// Saving the document to the card it came from.
pub open spec fn saved_to_card<M: VolumeAccess>(
    before: CardFs<M>,
    after: CardFs<M>,
    v: EditorView,
    w: EditorView,
    done: bool,
) -> bool {
    exists|result: Result<(), SaveError>| #[trigger]
        save_made(before, after, v, result) && w == after_save(v, result) && done == (result is Ok)
}

/// Saving the document, if the card it came from is there. `done` says that it
/// verifiably reached the card.
pub open spec fn editor_saved<M: VolumeAccess>(
    before: Option<CardFs<M>>,
    after: Option<CardFs<M>>,
    v: EditorView,
    w: EditorView,
    done: bool,
) -> bool {
    match v.media {
        EditorMedia::Removed => after == before && !done && w == (EditorView {
            status: Some(Notice::ReinsertCard),
            ..v
        }),
        EditorMedia::Different => after == before && !done && w == (EditorView {
            status: Some(Notice::DifferentCard),
            ..v
        }),
        EditorMedia::Ready => match before {
            None => after is None && !done && w == (EditorView {
                status: Some(Notice::CardUnavailable),
                ..v
            }),
            Some(b) => after matches Some(a) && saved_to_card(b, a, v, w, done),
        },
    }
}

/// A button in the editor.
pub open spec fn editor_pressed<M: VolumeAccess>(
    before: Option<CardFs<M>>,
    after: Option<CardFs<M>>,
    editor: Editor,
    button: Button,
    screen: Screen,
) -> bool {
    match button {
        Button::TopLeft => after == before && screen == (Screen::ExitPrompt {
            editor: Editor { status: None, ..editor },
            choice: ExitChoice::Cancel,
        }),
        Button::TopMiddle => after == before && (screen matches Screen::Editor(shown) && shown@
            == with_cursor_shown(
            EditorView { keyboard_visible: !editor.keyboard_visible, ..editor@ },
        )),
        Button::TopRight => screen matches Screen::Editor(shown) && exists|w: EditorView, done: bool|
            #[trigger]
            editor_saved(before, after, editor@, w, done) && shown@ == with_cursor_shown(w),
        _ => after == before && (screen matches Screen::Editor(shown) && shown@
            == with_cursor_shown(edited(editor@, button))),
    }
}

/// A button on the question how to leave. It opens on Cancel, and only a verified
/// save leaves with Save.
pub open spec fn exit_pressed<M: VolumeAccess>(
    before: Option<CardFs<M>>,
    after: Option<CardFs<M>>,
    editor: Editor,
    choice: ExitChoice,
    button: Button,
    screen: Screen,
) -> bool {
    match button {
        Button::Left | Button::Up => after == before && screen == (Screen::ExitPrompt {
            editor,
            choice: choice.to_left(),
        }),
        Button::Right | Button::Down => after == before && screen == (Screen::ExitPrompt {
            editor,
            choice: choice.to_right(),
        }),
        Button::TopLeft => after == before && screen == Screen::Editor(editor),
        Button::Click => match choice {
            ExitChoice::Cancel => after == before && screen == Screen::Editor(editor),
            ExitChoice::Discard => match before {
                None => after is None && screen is Missing,
                Some(b) => after matches Some(a) && (screen matches Screen::Explorer(shown)
                    && refreshed(b, a, editor.explorer@, shown@)),
            },
            ExitChoice::Save => exists|saved: Option<CardFs<M>>, w: EditorView, done: bool|
                {
                    &&& #[trigger] editor_saved(before, saved, editor@, w, done)
                    &&& if done {
                        saved matches Some(s) && (after matches Some(a) && (
                        screen matches Screen::Explorer(shown) && refreshed(
                            s,
                            a,
                            editor.explorer@,
                            shown@,
                        )))
                    } else {
                        after == saved && (screen matches Screen::ExitPrompt {
                            editor: shown,
                            choice: c,
                        } && c == choice && shown@ == w)
                    }
                },
        },
        _ => after == before && screen == (Screen::ExitPrompt { editor, choice }),
    }
}

fn activate_key(editor: &mut Editor, key: Key)
    requires
        old(editor).wf(),
    ensures
        final(editor).wf(),
        final(editor)@ == editor_after_key(old(editor)@, key),
{
    let ghost v = editor@;
    let ghost b = v.buffer;
    proof {
        editor.buffer.fits();
        assert(b.before + b.after == editor.buffer.text());
        assert(b.before.push(' ') =~= b.before + seq![' ']);
        if let Key::Character(ch) = key {
            assert(b.before.push(ch) =~= b.before + seq![ch]);
        }
        vstd::utf8::is_ascii_chars_encode_utf8(newline_chars(b.newline));
        assert(encode_utf8(Seq::<char>::empty()) =~= Seq::empty());
    }
    let result = match key {
        Key::Character(ch) => editor.buffer.insert_char(ch),
        Key::Space => editor.buffer.insert_char(' '),
        Key::Backspace => {
            editor.buffer.backspace();
            Ok(())
        },
        Key::Delete => {
            editor.buffer.delete();
            Ok(())
        },
        Key::Enter => editor.buffer.insert_newline(),
        Key::Case | Key::Page => {
            editor.keyboard.activate_meta(key);
            Ok(())
        },
    };
    editor.status = match result {
        Err(EditError::TooLarge) => Some(Notice::DocumentLimit),
        _ => None,
    };
}

fn edit(editor: &mut Editor, button: Button)
    requires
        old(editor).wf(),
    ensures
        final(editor).wf(),
        final(editor)@ == edited(old(editor)@, button),
{
    let ghost b = buffer_view(editor.buffer);
    if editor.keyboard_visible {
        if !move_keyboard(&mut editor.keyboard, button) && button == Button::Click {
            let key = editor.keyboard.selected();
            activate_key(editor, key);
        }
        return;
    }
    match button {
        Button::Up => editor.buffer.move_up(),
        Button::Down => editor.buffer.move_down(),
        Button::Left => editor.buffer.move_left(),
        Button::Right => editor.buffer.move_right(),
        Button::Click => {
            editor.keyboard_visible = true;
        },
        _ => {},
    }
    proof {
        let w = buffer_view(editor.buffer);
        let text = b.before + b.after;
        let n = w.before.len() as int;
        assert(w.before + w.after =~= text);
        assert(text.take(n) =~= w.before);
        assert(text.skip(n) =~= w.after);
        let line = newlines(b.before) as int;
        let column = columns(last_line(b.before)) as int;
        if button == Button::Up && line > 0 {
            vertical_target_is_within(text, line - 1, column);
            assert(n == vertical_target(text, line - 1, column));
        }
        if button == Button::Down && line < newlines(text) {
            vertical_target_is_within(text, line + 1, column);
            assert(n == vertical_target(text, line + 1, column));
        }
        if button == Button::Down {
            crate::editor::newlines_join(b.before, b.after);
        }
        if button == Button::Left {
            assert(n == b.before.len() - step_back(b.before));
        }
        if button == Button::Right {
            assert(n == b.before.len() + step_ahead(b.after));
        }
    }
}

fn save_to_card<M: VolumeAccess>(editor: &mut Editor, card: &mut CardFs<M>) -> (done: bool)
    requires
        old(editor).wf(),
        old(editor).media == EditorMedia::Ready,
        old(card).wf(),
    ensures
        final(editor).wf(),
        final(card).wf(),
        saved_to_card(*old(card), *final(card), old(editor)@, final(editor)@, done),
{
    let ghost v = editor@;
    let ghost before = *card;
    let result = card.save_transactional(editor.path.as_str(), editor.buffer.bytes());
    let ghost outcome = result;
    assert(save_made(before, *card, v, outcome));
    match result {
        Ok(()) => {
            editor.buffer.mark_clean();
            editor.status = Some(Notice::Saved);
            assert(editor@ == after_save(v, outcome));
            true
        },
        Err(failure) => {
            editor.status = Some(Notice::SaveFailed(failure));
            false
        },
    }
}

/// Save the document; says whether it verifiably reached the card.
pub fn save_editor<M: VolumeAccess>(editor: &mut Editor, card: &mut Option<CardFs<M>>) -> (done: bool)
    requires
        old(editor).wf(),
        card_sound(*old(card)),
    ensures
        final(editor).wf(),
        card_sound(*final(card)),
        editor_saved(*old(card), *final(card), old(editor)@, final(editor)@, done),
{
    match editor.media {
        EditorMedia::Removed => {
            editor.status = Some(Notice::ReinsertCard);
            return false;
        },
        EditorMedia::Different => {
            editor.status = Some(Notice::DifferentCard);
            return false;
        },
        EditorMedia::Ready => {},
    }
    match card {
        None => {
            editor.status = Some(Notice::CardUnavailable);
            false
        },
        Some(fs) => save_to_card(editor, fs),
    }
}

/// A button in the editor.
pub fn handle_editor<M: VolumeAccess>(
    editor: Editor,
    button: Button,
    card: &mut Option<CardFs<M>>,
) -> (screen: Screen)
    requires
        editor.wf(),
        card_sound(*old(card)),
    ensures
        card_sound(*final(card)),
        screen.wf(),
        editor_pressed(*old(card), *final(card), editor, button, screen),
{
    let mut editor = editor;
    match button {
        Button::TopLeft => {
            editor.status = None;
            return Screen::ExitPrompt { editor, choice: ExitChoice::Cancel };
        },
        Button::TopMiddle => {
            editor.keyboard_visible = !editor.keyboard_visible;
        },
        Button::TopRight => {
            let _done = save_editor(&mut editor, card);
        },
        _ => edit(&mut editor, button),
    }
    let ghost w = editor@;
    editor.ensure_cursor_visible();
    assert(editor@ == with_cursor_shown(w));
    Screen::Editor(editor)
}

/// A button on the question how to leave.
pub fn handle_exit<M: VolumeAccess>(
    editor: Editor,
    choice: ExitChoice,
    button: Button,
    card: &mut Option<CardFs<M>>,
) -> (screen: Screen)
    requires
        editor.wf(),
        card_sound(*old(card)),
    ensures
        card_sound(*final(card)),
        screen.wf(),
        exit_pressed(*old(card), *final(card), editor, choice, button, screen),
{
    let mut editor = editor;
    match button {
        Button::Left | Button::Up => Screen::ExitPrompt { editor, choice: choice.left() },
        Button::Right | Button::Down => Screen::ExitPrompt { editor, choice: choice.right() },
        Button::TopLeft => Screen::Editor(editor),
        Button::Click => match choice {
            ExitChoice::Cancel => Screen::Editor(editor),
            ExitChoice::Discard => match card {
                Some(fs) => {
                    let mut explorer = editor.explorer;
                    explorer.refresh(fs);
                    Screen::Explorer(explorer)
                },
                None => Screen::Missing,
            },
            ExitChoice::Save => {
                let ghost v = editor@;
                let done = save_editor(&mut editor, card);
                let ghost w = editor@;
                let ghost saved = *card;
                if !done {
                    return Screen::ExitPrompt { editor, choice };
                }
                let mut explorer = editor.explorer;
                if let Some(fs) = card {
                    explorer.refresh(fs);
                }
                Screen::Explorer(explorer)
            },
        },
        _ => Screen::ExitPrompt { editor, choice },
    }
}

/// A document is saved only to the card it came from: without it the card is not
/// touched and the document stays open with its changes.
pub proof fn saving_waits_for_the_card<M: VolumeAccess>(
    before: Option<CardFs<M>>,
    after: Option<CardFs<M>>,
    v: EditorView,
    w: EditorView,
    done: bool,
)
    requires
        editor_saved(before, after, v, w, done),
        v.media != EditorMedia::Ready,
    ensures
        after == before,
        !done,
        w.buffer == v.buffer,
{
}

/// Leaving with Save leaves only when the document verifiably reached the card.
pub proof fn leaving_with_save_saves<M: VolumeAccess>(
    before: Option<CardFs<M>>,
    after: Option<CardFs<M>>,
    editor: Editor,
    screen: Screen,
)
    requires
        exit_pressed(before, after, editor, ExitChoice::Save, Button::Click, screen),
        !(screen is ExitPrompt),
    ensures
        exists|saved: Option<CardFs<M>>, w: EditorView| #[trigger]
            editor_saved(before, saved, editor@, w, true),
{
}

/// The document limit is kept: typing never makes a document too large.
pub proof fn typing_keeps_the_limit(b: BufferView, more: Seq<char>)
    requires
        encode_utf8(b.before + b.after).len() <= MAX_DOCUMENT_BYTES,
    ensures
        encode_utf8(with_typed(b, more).before + with_typed(b, more).after).len()
            <= MAX_DOCUMENT_BYTES,
{
    if has_room(b, more) {
        crate::text::encode_joins(b.before + more, b.after);
        crate::text::encode_joins(b.before, more);
        crate::text::encode_joins(b.before, b.after);
    }
}

} // verus!
