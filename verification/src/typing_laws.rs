//! What the keys and the joystick make of a document and of a name.
use vstd::prelude::*;
use vstd::utf8::encode_utf8;

use crate::editing::{
    edited, editor_after_key, editor_pressed, exit_pressed, BufferView, EditorView,
};
use crate::editor::{
    backspace_undoes_a_newline, backspace_undoes_typing, columns, last_line, line_of, newlines,
    newlines_join, vertical_move_keeps_the_column, vertical_target_is_within, NewlineStyle,
};
use crate::card::{CardFs, ItemView};
use crate::errors::FsOpError;
use crate::explorer::{
    explorer_with_page, is_past_the_end, mark_listing, page_read, refreshed, refreshed_further,
    space_asked, ExplorerView,
};
use crate::input::Button;
use crate::keyboard::{key_on, Key, Keyboard, KeyboardPage};
use crate::naming::{
    keyboard_after, name_after_key, name_edited, name_entry_pressed, NameView,
};
use crate::notice::Notice;
use crate::screens::{
    Editor, ExitChoice, HandleResult, MediaIdentity, NameEntry, NameMode, Screen,
};
use crate::volume::VolumeAccess;

verus! {

/// The whole text of a document.
pub open spec fn text_of_view(b: BufferView) -> Seq<char> {
    b.before + b.after
}

/// Whether `more` characters still fit in 32 KiB.
pub open spec fn still_fits(b: BufferView, more: Seq<char>) -> bool {
    encode_utf8(b.before + b.after).len() + encode_utf8(more).len() <= 32768
}

/// A character key types its character at the cursor, and the space key a space; what does not
/// fit is refused, and says so.
pub proof fn character_keys_type_their_character(v: EditorView, key: Key, ch: char)
    requires
        key == Key::Character(ch) || key == Key::Space && ch == ' ',
    ensures
        ({
            let w = editor_after_key(v, key);
            &&& w.buffer.after == v.buffer.after
            &&& if still_fits(v.buffer, seq![ch]) {
                w.buffer.before == v.buffer.before.push(ch) && w.buffer.dirty && w.status is None
            } else {
                w.buffer == v.buffer && w.status == Some(Notice::DocumentLimit)
            }
        }),
{
    assert(v.buffer.before + seq![ch] =~= v.buffer.before.push(ch));
}

/// The enter key ends the line as the document ends its lines.
pub proof fn enter_ends_the_line(v: EditorView)
    ensures
        ({
            let w = editor_after_key(v, Key::Enter);
            let end = if v.buffer.newline == NewlineStyle::CrLf {
                seq!['\r', '\n']
            } else {
                seq!['\n']
            };
            &&& w.buffer.after == v.buffer.after
            &&& w.buffer.newline == v.buffer.newline
            &&& if still_fits(v.buffer, end) {
                &&& w.buffer.before == v.buffer.before + end
                &&& newlines(w.buffer.before) == newlines(v.buffer.before) + 1
                &&& w.buffer.dirty
            } else {
                w.buffer == v.buffer && w.status == Some(Notice::DocumentLimit)
            }
        }),
{
    let end = if v.buffer.newline == NewlineStyle::CrLf {
        seq!['\r', '\n']
    } else {
        seq!['\n']
    };
    newlines_join(v.buffer.before, end);
    reveal_with_fuel(newlines, 3);
    assert(end.last() == '\n');
    assert(newlines(end) == 1) by {
        if v.buffer.newline == NewlineStyle::CrLf {
            assert(end.drop_last() =~= seq!['\r']);
            assert(seq!['\r'].drop_last() =~= Seq::<char>::empty());
        } else {
            assert(end.drop_last() =~= Seq::<char>::empty());
        }
    }
}

/// The backspace key takes away from what is before the cursor, and leaves what is after it
/// alone. It takes one character, or a whole line end; at the start of the text, nothing.
pub proof fn backspace_works_before_the_cursor(v: EditorView)
    ensures
        ({
            let w = editor_after_key(v, Key::Backspace);
            let n = v.buffer.before.len() as int;
            let m = w.buffer.before.len() as int;
            &&& w.buffer.after == v.buffer.after
            &&& m <= n
            &&& w.buffer.before == v.buffer.before.take(m)
            &&& n == 0 ==> w.buffer == v.buffer
            &&& n > 0 ==> w.buffer.dirty && (m == n - 1 || m == n - 2 && v.buffer.before[n - 2]
                == '\r' && v.buffer.before[n - 1] == '\n')
            &&& n > 1 && v.buffer.before[n - 2] == '\r' && v.buffer.before[n - 1] == '\n' ==> m == n
                - 2
        }),
{
    assert(v.buffer.before.take(v.buffer.before.len() as int) =~= v.buffer.before);
}

/// The delete key takes away from what is after the cursor, and leaves what is before it
/// alone. It takes one character, or a whole line end; at the end of the text, nothing.
pub proof fn delete_works_after_the_cursor(v: EditorView)
    ensures
        ({
            let w = editor_after_key(v, Key::Delete);
            let n = v.buffer.after.len() as int;
            let m = w.buffer.after.len() as int;
            &&& w.buffer.before == v.buffer.before
            &&& m <= n
            &&& w.buffer.after == v.buffer.after.skip(n - m)
            &&& n == 0 ==> w.buffer == v.buffer
            &&& n > 0 ==> w.buffer.dirty && (m == n - 1 || m == n - 2 && v.buffer.after[0] == '\r'
                && v.buffer.after[1] == '\n')
            &&& n > 1 && v.buffer.after[0] == '\r' && v.buffer.after[1] == '\n' ==> m == n - 2
        }),
{
    assert(v.buffer.after.skip(0) =~= v.buffer.after);
}

/// Typing a character and then pressing backspace gives back the same text and cursor, except
/// where a newline was typed behind a `\r` and the two have become one line end.
pub proof fn backspace_takes_back_what_was_typed(v: EditorView, ch: char)
    requires
        still_fits(v.buffer, seq![ch]),
        !(ch == '\n' && v.buffer.before.len() > 0 && v.buffer.before.last() == '\r'),
    ensures
        ({
            let w = editor_after_key(editor_after_key(v, Key::Character(ch)), Key::Backspace);
            w.buffer.before == v.buffer.before && w.buffer.after == v.buffer.after
        }),
{
    character_keys_type_their_character(v, Key::Character(ch), ch);
    backspace_undoes_typing(v.buffer.before, ch);
}

/// Ending a line and then pressing backspace gives back the same text and cursor.
pub proof fn backspace_takes_back_a_line_end(v: EditorView)
    requires
        still_fits(
            v.buffer,
            if v.buffer.newline == NewlineStyle::CrLf {
                seq!['\r', '\n']
            } else {
                seq!['\n']
            },
        ),
        v.buffer.newline == NewlineStyle::Lf ==> !(v.buffer.before.len() > 0
            && v.buffer.before.last() == '\r'),
    ensures
        ({
            let w = editor_after_key(editor_after_key(v, Key::Enter), Key::Backspace);
            w.buffer.before == v.buffer.before && w.buffer.after == v.buffer.after
        }),
{
    enter_ends_the_line(v);
    backspace_undoes_a_newline(v.buffer.before, v.buffer.newline);
}

/// The keys that turn the page of the keyboard leave the document alone, and no other key
/// turns it. Case goes from small letters to capitals and back; page goes round through
/// capitals and symbols.
pub proof fn page_keys_only_turn_the_page(v: EditorView, key: Key)
    ensures
        key == Key::Case || key == Key::Page ==> editor_after_key(v, key).buffer == v.buffer,
        key != Key::Case && key != Key::Page ==> editor_after_key(v, key).keyboard == v.keyboard,
        ({
            let page = v.keyboard.page;
            let cased = editor_after_key(v, Key::Case).keyboard.page;
            let turned = editor_after_key(v, Key::Page).keyboard.page;
            &&& page == KeyboardPage::Lower <==> cased == KeyboardPage::Upper
            &&& page != KeyboardPage::Lower ==> cased == KeyboardPage::Lower
            &&& turned != page
            &&& page == KeyboardPage::Lower ==> turned == KeyboardPage::Upper
            &&& page == KeyboardPage::Upper ==> turned == KeyboardPage::Symbols
            &&& page == KeyboardPage::Symbols ==> turned == KeyboardPage::Lower
        }),
        editor_after_key(v, key).path == v.path,
        editor_after_key(v, key).name == v.name,
        editor_after_key(v, key).explorer == v.explorer,
        editor_after_key(v, key).media == v.media,
        editor_after_key(v, key).identity == v.identity,
        editor_after_key(v, key).keyboard.row == v.keyboard.row,
        editor_after_key(v, key).keyboard.column == v.keyboard.column,
{
}

/// With the keyboard on the screen, a click activates the key that is selected, and the
/// joystick moves the selection and leaves the document alone.
pub proof fn the_keyboard_types_the_selected_key(v: EditorView, button: Button)
    requires
        v.keyboard_visible,
    ensures
        button == Button::Click ==> edited(v, button) == editor_after_key(
            v,
            key_on(v.keyboard.page, v.keyboard.row as int, v.keyboard.column as int),
        ),
        button != Button::Click ==> edited(v, button).buffer == v.buffer
            && edited(v, button).keyboard.page == v.keyboard.page,
        edited(v, button).keyboard_visible,
{
}

/// Moving the cursor never changes the text, nor whether it was saved.
pub proof fn moving_keeps_the_text(v: EditorView, button: Button)
    requires
        !v.keyboard_visible,
    ensures
        ({
            let w = edited(v, button);
            &&& w.buffer.before + w.buffer.after == v.buffer.before + v.buffer.after
            &&& w.buffer.dirty == v.buffer.dirty
            &&& w.buffer.newline == v.buffer.newline
            &&& w.path == v.path && w.name == v.name && w.explorer == v.explorer
            &&& w.keyboard == v.keyboard
            &&& w.keyboard_visible == (button == Button::Click)
        }),
{
    let text = v.buffer.before + v.buffer.after;
    let line = newlines(v.buffer.before) as int;
    let column = columns(last_line(v.buffer.before)) as int;
    newlines_join(v.buffer.before, v.buffer.after);
    if line > 0 {
        vertical_target_is_within(text, line - 1, column);
    }
    vertical_target_is_within(text, line + 1, column);
    let w = edited(v, button);
    assert(w.buffer.before + w.buffer.after =~= text);
}

/// Left goes one character back and right one ahead, a line end counting as one; at the ends
/// of the text the cursor stays.
pub proof fn sideways_moves_go_one_character(v: EditorView, button: Button)
    requires
        !v.keyboard_visible,
        button == Button::Left || button == Button::Right,
    ensures
        ({
            let w = edited(v, button);
            let n = v.buffer.before.len() as int;
            let m = w.buffer.before.len() as int;
            let a = v.buffer.after;
            let b = v.buffer.before;
            &&& button == Button::Left && n == 0 ==> m == 0
            &&& button == Button::Left && n > 0 ==> m == if n > 1 && b[n - 2] == '\r' && b[n - 1]
                == '\n' {
                n - 2
            } else {
                n - 1
            }
            &&& button == Button::Right && a.len() == 0 ==> m == n
            &&& button == Button::Right && a.len() > 0 ==> m == if a.len() > 1 && a[0] == '\r'
                && a[1] == '\n' {
                n + 2
            } else {
                n + 1
            }
        }),
{
}

/// Right takes back what left did, except from inside a line end.
pub proof fn right_takes_back_left(v: EditorView)
    requires
        !v.keyboard_visible,
        v.buffer.before.len() > 0,
        !(v.buffer.before.last() == '\r' && v.buffer.after.len() > 0 && v.buffer.after[0] == '\n'),
    ensures
        edited(edited(v, Button::Left), Button::Right).buffer.before == v.buffer.before,
        edited(edited(v, Button::Left), Button::Right).buffer.after == v.buffer.after,
{
    let w = edited(v, Button::Left);
    let x = edited(w, Button::Right);
    let text = v.buffer.before + v.buffer.after;
    let n = v.buffer.before.len() as int;
    moving_keeps_the_text(v, Button::Left);
    moving_keeps_the_text(w, Button::Right);
    sideways_moves_go_one_character(v, Button::Left);
    sideways_moves_go_one_character(w, Button::Right);
    let m = w.buffer.before.len() as int;
    assert(w.buffer.after =~= text.skip(m)) by {
        assert((w.buffer.before + w.buffer.after).skip(m) =~= w.buffer.after);
    }
    assert(w.buffer.after[0] == text[m]);
    if w.buffer.after.len() > 1 {
        assert(w.buffer.after[1] == text[m + 1]);
    }
    assert(text[n - 1] == v.buffer.before[n - 1]);
    if n < text.len() {
        assert(text[n] == v.buffer.after[0]);
    }
    assert(x.buffer.before.len() == n);
    assert(x.buffer.before =~= text.take(n)) by {
        assert((x.buffer.before + x.buffer.after).take(n) =~= x.buffer.before);
    }
    assert(text.take(n) =~= v.buffer.before);
    assert(x.buffer.after =~= text.skip(n)) by {
        assert((x.buffer.before + x.buffer.after).skip(n) =~= x.buffer.after);
    }
    assert(text.skip(n) =~= v.buffer.after);
}

/// Up goes to the line above and down to the one below, to the same column or to the end of a
/// shorter line; on the first and the last line the cursor stays.
pub proof fn vertical_moves_go_one_line(v: EditorView, button: Button)
    requires
        !v.keyboard_visible,
        button == Button::Up || button == Button::Down,
    ensures
        ({
            let w = edited(v, button);
            let line = newlines(v.buffer.before) as int;
            let lines = newlines(v.buffer.before + v.buffer.after) as int;
            let goal = if button == Button::Up {
                line - 1
            } else {
                line + 1
            };
            let width = columns(line_of(v.buffer.before + v.buffer.after, goal)) as int;
            let column = columns(last_line(v.buffer.before)) as int;
            &&& 0 <= goal <= lines ==> newlines(w.buffer.before) == goal && columns(
                last_line(w.buffer.before),
            ) == if column <= width {
                column
            } else {
                width
            }
            &&& !(0 <= goal <= lines) ==> w.buffer == v.buffer
        }),
{
    let text = v.buffer.before + v.buffer.after;
    let line = newlines(v.buffer.before) as int;
    let column = columns(last_line(v.buffer.before)) as int;
    newlines_join(v.buffer.before, v.buffer.after);
    if button == Button::Up && line > 0 {
        vertical_move_keeps_the_column(text, line - 1, column);
    }
    if button == Button::Down && line < newlines(text) {
        vertical_move_keeps_the_column(text, line + 1, column);
    }
}

/// Whatever is pressed in the editor, the document stays the one that was opened: it keeps its
/// path and name, the card that it came from, and the way back.
pub proof fn documents_keep_their_path<M: VolumeAccess>(
    before: Option<CardFs<M>>,
    after: Option<CardFs<M>>,
    editor: Editor,
    button: Button,
    screen: Screen,
)
    requires
        editor_pressed(before, after, editor, button, screen),
    ensures
        match screen {
            Screen::Editor(shown) => button != Button::TopLeft && same_document(shown, editor),
            Screen::ExitPrompt { editor: shown, choice } => button == Button::TopLeft
                && same_document(shown, editor) && choice == ExitChoice::Cancel && shown.buffer
                == editor.buffer,
            _ => false,
        },
        button != Button::TopRight ==> after == before,
{
}

/// Two editors hold the same document, whatever was typed between.
pub open spec fn same_document(a: Editor, b: Editor) -> bool {
    &&& a.path == b.path
    &&& a.name == b.name
    &&& a.explorer == b.explorer
    &&& a.media == b.media
    &&& a.identity == b.identity
}

/// The middle button shows and hides the keyboard, and leaves the document alone.
pub proof fn the_middle_button_toggles_the_keyboard<M: VolumeAccess>(
    before: Option<CardFs<M>>,
    after: Option<CardFs<M>>,
    editor: Editor,
    screen: Screen,
)
    requires
        editor_pressed(before, after, editor, Button::TopMiddle, screen),
    ensures
        after == before,
        screen matches Screen::Editor(shown) && shown.keyboard_visible != editor.keyboard_visible
            && shown@.buffer == editor@.buffer && shown.keyboard == editor.keyboard,
{
}

/// Leaving: cancel and the top left button go back to the document as it is; only a click
/// leaves, discard asks nothing of the card but to list the folder, and the joystick goes
/// round the three choices.
pub proof fn leaving_goes_by_the_choice<M: VolumeAccess>(
    before: Option<CardFs<M>>,
    after: Option<CardFs<M>>,
    editor: Editor,
    choice: ExitChoice,
    button: Button,
    screen: Screen,
)
    requires
        exit_pressed(before, after, editor, choice, button, screen),
    ensures
        button == Button::TopLeft || button == Button::Click && choice == ExitChoice::Cancel ==> after
            == before && screen == Screen::Editor(editor),
        button != Button::Click && button != Button::TopLeft ==> after == before && (
        screen matches Screen::ExitPrompt { editor: kept, .. } && kept == editor),
        button == Button::Click && choice == ExitChoice::Discard && before is Some ==> (
        screen matches Screen::Explorer(shown) && shown@.path == editor.explorer@.path
            || editor.explorer@.offset < 0),
        screen matches Screen::ExitPrompt { editor: kept, .. } ==> same_document(kept, editor)
            && kept@.buffer == editor@.buffer,
{
    if button == Button::Click && choice == ExitChoice::Discard && before is Some {
        refreshing_keeps_the_path(
            before->0,
            after->0,
            editor.explorer@,
            screen->Explorer_0@,
        );
    }
}

/// Refreshing stays in the folder.
pub proof fn refreshing_keeps_the_path<M: VolumeAccess>(
    before: CardFs<M>,
    after: CardFs<M>,
    e: ExplorerView,
    r: ExplorerView,
)
    requires
        refreshed(before, after, e, r),
        e.offset >= 0,
    ensures
        r.path == e.path,
    decreases e.offset,
{
    let (asked, free, read, page) = choose|
        asked: CardFs<M>,
        free: Option<u64>,
        read: CardFs<M>,
        page: Result<(Seq<ItemView>, int), FsOpError>,
    |
        {
            &&& #[trigger] space_asked(before, asked, free)
            &&& #[trigger] page_read(asked, read, e.path, e.offset, false, None, page)
            &&& if is_past_the_end(e.offset, page) && e.offset > 0 {
                refreshed_further(read, after, explorer_with_page(e, free, page), r)
            } else {
                after == read && r == explorer_with_page(e, free, page)
            }
        };
    if is_past_the_end(e.offset, page) && e.offset > 0 {
        let middle = explorer_with_page(e, free, page);
        let inner = choose|inner: ExplorerView| #[trigger]
            mark_listing(inner) && refreshed(read, after, middle, inner) && r == (ExplorerView {
                status: None,
                ..inner
            });
        refreshing_keeps_the_path(read, after, middle, inner);
    }
}

/// The choices when leaving, in the order in which they are shown: save, discard, cancel.
pub proof fn exit_choices_go_from_left_to_right(choice: ExitChoice)
    ensures
        ExitChoice::Save.to_right() == ExitChoice::Discard,
        ExitChoice::Discard.to_right() == ExitChoice::Cancel,
        choice.to_left().to_right() == choice,
        choice.to_right().to_right().to_right() == choice,
{
}

/// In a name, a character key types its character at the cursor, as long as there is room:
/// eight characters for a new document, twelve for anything else.
pub proof fn names_take_characters_at_the_cursor(n: NameView, key: Key, ch: char)
    requires
        key == Key::Character(ch) || key == Key::Space && ch == ' ',
        0 <= n.cursor <= n.name.len(),
    ensures
        ({
            let m = name_after_key(n, key);
            let room = if n.mode == NameMode::NewText {
                8int
            } else {
                12
            };
            if n.name.len() < room {
                &&& m.name == n.name.take(n.cursor).push(ch) + n.name.skip(n.cursor)
                &&& m.cursor == n.cursor + 1
                &&& m.status is None
            } else {
                m == n
            }
        }),
{
    assert(n.name.insert(n.cursor, ch) =~= n.name.take(n.cursor).push(ch) + n.name.skip(n.cursor));
}

/// In a name, backspace takes the character before the cursor and delete the one after it;
/// the rest stays. Enter and the page keys leave the name alone.
pub proof fn names_lose_characters_at_the_cursor(n: NameView)
    requires
        0 <= n.cursor <= n.name.len(),
    ensures
        ({
            let b = name_after_key(n, Key::Backspace);
            let d = name_after_key(n, Key::Delete);
            &&& b.name.skip(b.cursor) == n.name.skip(n.cursor)
            &&& b.name.take(b.cursor) == n.name.take(b.cursor)
            &&& b.cursor == if n.cursor > 0 {
                n.cursor - 1
            } else {
                0
            }
            &&& d.cursor == n.cursor
            &&& d.name.take(d.cursor) == n.name.take(n.cursor)
            &&& n.cursor < n.name.len() ==> d.name.skip(d.cursor) == n.name.skip(n.cursor + 1)
            &&& n.cursor == n.name.len() ==> d.name == n.name
            &&& name_after_key(n, Key::Enter).name == n.name
            &&& name_after_key(n, Key::Case).name == n.name
            &&& name_after_key(n, Key::Page).name == n.name
        }),
{
    let b = name_after_key(n, Key::Backspace);
    let d = name_after_key(n, Key::Delete);
    assert(b.name.skip(b.cursor) =~= n.name.skip(n.cursor));
    assert(b.name.take(b.cursor) =~= n.name.take(b.cursor));
    assert(d.name.take(d.cursor) =~= n.name.take(n.cursor));
    if n.cursor < n.name.len() {
        assert(d.name.skip(d.cursor) =~= n.name.skip(n.cursor + 1));
    }
}

/// With the keyboard on the screen a click types the selected key into the name; without it
/// left and right move the cursor by one, within the name, and nothing changes the name.
pub proof fn names_are_edited_by_key_or_cursor(n: NameView, button: Button)
    requires
        0 <= n.cursor <= n.name.len(),
    ensures
        n.keyboard_visible && button == Button::Click ==> name_edited(n, button) == name_after_key(
            n,
            key_on(n.keyboard.page, n.keyboard.row as int, n.keyboard.column as int),
        ),
        n.keyboard_visible && button != Button::Click ==> name_edited(n, button).name == n.name
            && name_edited(n, button).cursor == n.cursor,
        !n.keyboard_visible ==> name_edited(n, button).name == n.name,
        !n.keyboard_visible ==> (name_edited(n, button).keyboard_visible <==> button == Button::Click),
        n.keyboard_visible ==> name_edited(n, button).keyboard_visible,
        !n.keyboard_visible && button == Button::Left && n.cursor > 0 ==> name_edited(
            n,
            button,
        ).cursor == n.cursor - 1,
        !n.keyboard_visible && button == Button::Right && n.cursor < n.name.len() ==> name_edited(
            n,
            button,
        ).cursor == n.cursor + 1,
        0 <= name_edited(n, button).cursor <= name_edited(n, button).name.len(),
        name_edited(n, button).mode == n.mode,
{
}

/// The joystick moves the selected key by one in its direction, round the edges, and keeps the
/// page. A row with fewer keys is entered at its last key at most.
pub proof fn the_joystick_moves_one_key(k: Keyboard, button: Button)
    requires
        k.row < 4,
        k.column < if k.row < 3 {
            10int
        } else {
            6
        },
    ensures
        ({
            let m = keyboard_after(k, button);
            let keys = if k.row < 3 {
                10int
            } else {
                6
            };
            &&& m.page == k.page
            &&& button == Button::Right ==> m.row == k.row && m.column == if k.column + 1 == keys {
                0
            } else {
                k.column + 1
            }
            &&& button == Button::Left ==> m.row == k.row && m.column == if k.column == 0 {
                keys - 1
            } else {
                k.column - 1
            }
            &&& button == Button::Down ==> m.row == if k.row == 3 {
                0
            } else {
                k.row + 1
            }
            &&& button == Button::Up ==> m.row == if k.row == 0 {
                3
            } else {
                k.row - 1
            }
            &&& button == Button::Up || button == Button::Down ==> m.column == if m.row == 3
                && k.column > 5 {
                5
            } else {
                k.column as int
            }
        }),
{
}

/// On the page of capitals each letter stands where it stands among the small ones.
pub proof fn capitals_stand_where_the_letters_do(row: int, column: int, small: char)
    requires
        0 <= row < 3,
        0 <= column < 10,
        key_on(KeyboardPage::Lower, row, column) == Key::Character(small),
        'a' <= small <= 'z',
    ensures
        key_on(KeyboardPage::Upper, row, column) matches Key::Character(capital) && capital as u32
            + 0x20 == small as u32,
{
    reveal_strlit("qwertyuiop");
    reveal_strlit("asdfghjkl;");
    reveal_strlit("zxcvbnm,./");
    reveal_strlit("QWERTYUIOP");
    reveal_strlit("ASDFGHJKL:");
    reveal_strlit("ZXCVBNM?!\"");
}

/// Some key types `c`.
pub open spec fn can_be_typed(c: char) -> bool {
    exists|page: KeyboardPage, row: int, column: int|
        0 <= row < 3 && 0 <= column < 10 && #[trigger] key_on(page, row, column)
            == Key::Character(c)
}

proof fn typed_by(page: KeyboardPage, row: int, column: int, c: char)
    requires
        0 <= row < 3,
        0 <= column < 10,
        key_on(page, row, column) == Key::Character(c),
    ensures
        can_be_typed(c),
{
}

proof fn small_letters_can_be_typed(c: char)
    requires
        'a' <= c <= 'z',
    ensures
        can_be_typed(c),
{
    reveal_strlit("qwertyuiop");
    reveal_strlit("asdfghjkl;");
    reveal_strlit("zxcvbnm,./");
    if c == 'a' {
        typed_by(KeyboardPage::Lower, 1, 0, c);
    }
    if c == 'b' {
        typed_by(KeyboardPage::Lower, 2, 4, c);
    }
    if c == 'c' {
        typed_by(KeyboardPage::Lower, 2, 2, c);
    }
    if c == 'd' {
        typed_by(KeyboardPage::Lower, 1, 2, c);
    }
    if c == 'e' {
        typed_by(KeyboardPage::Lower, 0, 2, c);
    }
    if c == 'f' {
        typed_by(KeyboardPage::Lower, 1, 3, c);
    }
    if c == 'g' {
        typed_by(KeyboardPage::Lower, 1, 4, c);
    }
    if c == 'h' {
        typed_by(KeyboardPage::Lower, 1, 5, c);
    }
    if c == 'i' {
        typed_by(KeyboardPage::Lower, 0, 7, c);
    }
    if c == 'j' {
        typed_by(KeyboardPage::Lower, 1, 6, c);
    }
    if c == 'k' {
        typed_by(KeyboardPage::Lower, 1, 7, c);
    }
    if c == 'l' {
        typed_by(KeyboardPage::Lower, 1, 8, c);
    }
    if c == 'm' {
        typed_by(KeyboardPage::Lower, 2, 6, c);
    }
    if c == 'n' {
        typed_by(KeyboardPage::Lower, 2, 5, c);
    }
    if c == 'o' {
        typed_by(KeyboardPage::Lower, 0, 8, c);
    }
    if c == 'p' {
        typed_by(KeyboardPage::Lower, 0, 9, c);
    }
    if c == 'q' {
        typed_by(KeyboardPage::Lower, 0, 0, c);
    }
    if c == 'r' {
        typed_by(KeyboardPage::Lower, 0, 3, c);
    }
    if c == 's' {
        typed_by(KeyboardPage::Lower, 1, 1, c);
    }
    if c == 't' {
        typed_by(KeyboardPage::Lower, 0, 4, c);
    }
    if c == 'u' {
        typed_by(KeyboardPage::Lower, 0, 6, c);
    }
    if c == 'v' {
        typed_by(KeyboardPage::Lower, 2, 3, c);
    }
    if c == 'w' {
        typed_by(KeyboardPage::Lower, 0, 1, c);
    }
    if c == 'x' {
        typed_by(KeyboardPage::Lower, 2, 1, c);
    }
    if c == 'y' {
        typed_by(KeyboardPage::Lower, 0, 5, c);
    }
    if c == 'z' {
        typed_by(KeyboardPage::Lower, 2, 0, c);
    }
}

proof fn large_letters_can_be_typed(c: char)
    requires
        'A' <= c <= 'Z',
    ensures
        can_be_typed(c),
{
    reveal_strlit("QWERTYUIOP");
    reveal_strlit("ASDFGHJKL:");
    reveal_strlit("ZXCVBNM?!\"");
    if c == 'A' {
        typed_by(KeyboardPage::Upper, 1, 0, c);
    }
    if c == 'B' {
        typed_by(KeyboardPage::Upper, 2, 4, c);
    }
    if c == 'C' {
        typed_by(KeyboardPage::Upper, 2, 2, c);
    }
    if c == 'D' {
        typed_by(KeyboardPage::Upper, 1, 2, c);
    }
    if c == 'E' {
        typed_by(KeyboardPage::Upper, 0, 2, c);
    }
    if c == 'F' {
        typed_by(KeyboardPage::Upper, 1, 3, c);
    }
    if c == 'G' {
        typed_by(KeyboardPage::Upper, 1, 4, c);
    }
    if c == 'H' {
        typed_by(KeyboardPage::Upper, 1, 5, c);
    }
    if c == 'I' {
        typed_by(KeyboardPage::Upper, 0, 7, c);
    }
    if c == 'J' {
        typed_by(KeyboardPage::Upper, 1, 6, c);
    }
    if c == 'K' {
        typed_by(KeyboardPage::Upper, 1, 7, c);
    }
    if c == 'L' {
        typed_by(KeyboardPage::Upper, 1, 8, c);
    }
    if c == 'M' {
        typed_by(KeyboardPage::Upper, 2, 6, c);
    }
    if c == 'N' {
        typed_by(KeyboardPage::Upper, 2, 5, c);
    }
    if c == 'O' {
        typed_by(KeyboardPage::Upper, 0, 8, c);
    }
    if c == 'P' {
        typed_by(KeyboardPage::Upper, 0, 9, c);
    }
    if c == 'Q' {
        typed_by(KeyboardPage::Upper, 0, 0, c);
    }
    if c == 'R' {
        typed_by(KeyboardPage::Upper, 0, 3, c);
    }
    if c == 'S' {
        typed_by(KeyboardPage::Upper, 1, 1, c);
    }
    if c == 'T' {
        typed_by(KeyboardPage::Upper, 0, 4, c);
    }
    if c == 'U' {
        typed_by(KeyboardPage::Upper, 0, 6, c);
    }
    if c == 'V' {
        typed_by(KeyboardPage::Upper, 2, 3, c);
    }
    if c == 'W' {
        typed_by(KeyboardPage::Upper, 0, 1, c);
    }
    if c == 'X' {
        typed_by(KeyboardPage::Upper, 2, 1, c);
    }
    if c == 'Y' {
        typed_by(KeyboardPage::Upper, 0, 5, c);
    }
    if c == 'Z' {
        typed_by(KeyboardPage::Upper, 2, 0, c);
    }
}

proof fn digits_can_be_typed(c: char)
    requires
        '0' <= c <= '9',
    ensures
        can_be_typed(c),
{
    reveal_strlit("1234567890");
    reveal_strlit("-_=+[]{}()");
    reveal_strlit("@#$%^&*'`~");
    if c == '0' {
        typed_by(KeyboardPage::Symbols, 0, 9, c);
    }
    if c == '1' {
        typed_by(KeyboardPage::Symbols, 0, 0, c);
    }
    if c == '2' {
        typed_by(KeyboardPage::Symbols, 0, 1, c);
    }
    if c == '3' {
        typed_by(KeyboardPage::Symbols, 0, 2, c);
    }
    if c == '4' {
        typed_by(KeyboardPage::Symbols, 0, 3, c);
    }
    if c == '5' {
        typed_by(KeyboardPage::Symbols, 0, 4, c);
    }
    if c == '6' {
        typed_by(KeyboardPage::Symbols, 0, 5, c);
    }
    if c == '7' {
        typed_by(KeyboardPage::Symbols, 0, 6, c);
    }
    if c == '8' {
        typed_by(KeyboardPage::Symbols, 0, 7, c);
    }
    if c == '9' {
        typed_by(KeyboardPage::Symbols, 0, 8, c);
    }
}

/// There is a key for every letter, small and large, and for every digit.
pub proof fn letters_and_digits_can_be_typed(c: char)
    requires
        'a' <= c <= 'z' || 'A' <= c <= 'Z' || '0' <= c <= '9',
    ensures
        can_be_typed(c),
{
    if 'a' <= c <= 'z' {
        small_letters_can_be_typed(c);
    } else if 'A' <= c <= 'Z' {
        large_letters_can_be_typed(c);
    } else {
        digits_can_be_typed(c);
    }
}

/// Whatever changes the text marks the document as changed, and nothing else does. Only a save
/// takes the mark away, and only one that succeeded; it says so.
pub proof fn changes_are_marked<M: VolumeAccess>(
    before: Option<CardFs<M>>,
    after: Option<CardFs<M>>,
    editor: Editor,
    button: Button,
    screen: Screen,
)
    requires
        editor_pressed(before, after, editor, button, screen),
        editor.wf(),
    ensures
        screen matches Screen::Editor(shown) ==> {
            &&& shown.buffer.text() != editor.buffer.text() ==> shown.buffer.dirty()
            &&& button != Button::TopRight && shown.buffer.text() == editor.buffer.text()
                ==> shown.buffer.dirty() == editor.buffer.dirty()
            &&& button == Button::TopRight ==> shown.buffer.text() == editor.buffer.text()
            &&& button == Button::TopRight && editor.buffer.dirty() ==> (shown.buffer.dirty()
                <==> shown.status != Some(Notice::Saved))
        },
{
    if let Screen::Editor(shown) = screen {
        let b = editor@.buffer;
        assert(shown@.buffer.before == shown.buffer.before());
        assert(shown@.buffer.after == shown.buffer.after());
        assert(shown@.buffer.dirty == shown.buffer.dirty());
        assert(shown@.status == shown.status);
        assert(b.before + b.after == editor.buffer.text());
        assert(shown@.buffer.before + shown@.buffer.after == shown.buffer.text());
        if button == Button::TopRight {
        } else if button != Button::TopMiddle && !editor.keyboard_visible {
            moving_keeps_the_text(editor@, button);
        } else if button == Button::Click && editor.keyboard_visible {
            let key = key_on(
                editor.keyboard.page,
                editor.keyboard.row as int,
                editor.keyboard.column as int,
            );
            if shown.buffer.text() == editor.buffer.text() {
                assert(shown.buffer.text().len() == editor.buffer.text().len());
            }
        }
    }
}

/// While a name is entered, the left button goes back to the folder from which it was asked
/// for, the middle one only shows or hides the keyboard, and the joystick only edits: neither
/// touches the card, and the question stays the same.
pub proof fn names_can_be_abandoned<M: VolumeAccess>(
    before: Option<CardFs<M>>,
    after: Option<CardFs<M>>,
    entry: NameEntry,
    button: Button,
    verdict: Result<(), &'static str>,
    identity: Option<MediaIdentity>,
    result: HandleResult,
)
    requires
        name_entry_pressed(before, after, entry, button, verdict, identity, result),
    ensures
        button == Button::TopLeft && before is Some ==> (result matches HandleResult::Screen(screen)
            && screen matches Screen::Explorer(shown) && shown.path@ == entry.explorer.path@),
        button == Button::TopMiddle ==> after == before && (
        result matches HandleResult::Screen(screen) && screen matches Screen::Naming(shown)
            && shown.keyboard_visible == !entry.keyboard_visible && shown.name@ == entry.name@
            && shown.cursor == entry.cursor && shown.mode == entry.mode && shown.source
            == entry.source && shown.explorer == entry.explorer),
        button != Button::TopLeft && button != Button::TopMiddle && button != Button::TopRight
            ==> after == before && (result matches HandleResult::Screen(screen)
            && screen matches Screen::Naming(shown) && shown.mode == entry.mode && shown.source
            == entry.source && shown.explorer == entry.explorer),
{
    if button == Button::TopLeft && before is Some {
        let shown = result->Screen_0->Explorer_0;
        refreshing_keeps_the_path(before->0, after->0, entry.explorer@, shown@);
        assert(shown@.path == shown.path@ && entry.explorer@.path == entry.explorer.path@);
    }
}

} // verus!
