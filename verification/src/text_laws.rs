//! How a document is cut into lines and cells, and what is seen of it.
use vstd::prelude::*;
use vstd::utf8::{decode_utf8, valid_utf8};

use crate::card::{document_loaded, document_of, CardFs};
use crate::editing::editor_pressed;
use crate::editor::{
    cells, column_bounds, encoding_is_no_shorter, expanded, last_line, line_bounds, line_of,
    line_span, line_span_is_ordered, newlines, newlines_join, through_line, through_line_is_prefix,
    window, NewlineStyle, TextBuffer,
};
use crate::errors::LoadError;
use crate::input::Button;
use crate::screens::{Editor, Screen};
use crate::session::Step;
use crate::volume::VolumeAccess;

verus! {

/// The newlines that are counted are those that the text holds.
pub proof fn newlines_are_counted(text: Seq<char>)
    ensures
        newlines(text) == text.filter(|c: char| c == '\n').len(),
    decreases text.len(),
{
    reveal(Seq::filter);
    if text.len() > 0 {
        newlines_are_counted(text.drop_last());
    }
}

proof fn last_lines_hold_no_newline(text: Seq<char>)
    ensures
        !last_line(text).contains('\n'),
        last_line(text).len() < text.len() ==> text[text.len() - 1 - last_line(text).len()] == '\n',
    decreases text.len(),
{
    if text.len() > 0 && text.last() != '\n' {
        last_lines_hold_no_newline(text.drop_last());
        let front = last_line(text.drop_last());
        assert(last_line(text) == front.push(text.last()));
        if last_line(text).contains('\n') {
            let i = choose|i: int| 0 <= i < last_line(text).len() && last_line(text)[i] == '\n';
            assert(i < front.len());
            assert(front[i] == '\n');
        }
    }
}

/// The stretch up to line `count` ends before the next newline, or with the text.
proof fn lines_end_before_a_newline(text: Seq<char>, count: int)
    requires
        0 <= count,
    ensures
        through_line(text, count).len() < text.len() ==> text[through_line(text, count).len() as int]
            == '\n',
    decreases text.len(),
{
    if text.len() > 0 && newlines(text) > count {
        let front = text.drop_last();
        lines_end_before_a_newline(front, count);
        through_line_is_prefix(front, count);
        if newlines(front) <= count {
            assert(through_line(front, count) == front);
        } else {
            assert(through_line(front, count).len() < front.len()) by {
                if through_line(front, count).len() == front.len() {
                    assert(front.take(front.len() as int) =~= front);
                }
            }
        }
    }
}

/// A line of the document is what stands between two newlines, or between one and an end of
/// the text: as many newlines come before it as its number says, it holds none itself, and
/// only a carriage return at its end is left out.
pub proof fn lines_stand_between_newlines(text: Seq<char>, index: int)
    requires
        0 <= index <= newlines(text),
    ensures
        ({
            let (from, to) = line_span(text, index);
            &&& 0 <= from <= to <= text.len()
            &&& line_of(text, index) == text.subrange(from, to)
            &&& text.take(from).filter(|c: char| c == '\n').len() == index
            &&& from > 0 ==> text[from - 1] == '\n'
            &&& !line_of(text, index).contains('\n')
            &&& {
                ||| to == text.len()
                ||| text[to] == '\n'
                ||| text[to] == '\r' && (to + 1 == text.len() || text[to + 1] == '\n')
            }
            &&& to > from && (to == text.len() || text[to] == '\n') ==> text[to - 1] != '\r'
        }),
{
    let through = through_line(text, index);
    let line = last_line(through);
    let (from, to) = line_span(text, index);
    through_line_is_prefix(text, index);
    line_bounds(through);
    line_span_is_ordered(text, index);
    last_lines_hold_no_newline(through);
    lines_end_before_a_newline(text, index);
    let front = through.take(from);
    assert(through =~= front + line);
    newlines_join(front, line);
    plain_lines_count_none(line);
    assert(text.take(from) =~= front);
    newlines_are_counted(front);
    assert forall|i: int| from <= i < through.len() implies #[trigger] text[i] == line[i - from] by {
        assert(through[i] == line[i - from]);
    }
    assert forall|i: int| from <= i < to implies #[trigger] text[i] != '\n' by {
        assert(line.contains(line[i - from]));
    }
    if line_of(text, index).contains('\n') {
        let i = choose|i: int|
            0 <= i < line_of(text, index).len() && line_of(text, index)[i] == '\n';
        assert(text[from + i] == '\n');
    }
    if from > 0 {
        assert(through[from - 1] == '\n');
    }
}

proof fn plain_lines_count_none(line: Seq<char>)
    requires
        !line.contains('\n'),
    ensures
        newlines(line) == 0,
    decreases line.len(),
{
    if line.len() > 0 {
        assert(line.contains(line.last()));
        assert(!line.drop_last().contains('\n')) by {
            if line.drop_last().contains('\n') {
                let i = choose|i: int| 0 <= i < line.len() - 1 && line.drop_last()[i] == '\n';
                assert(line[i] == '\n');
            }
        }
        plain_lines_count_none(line.drop_last());
    }
}

/// A tab leads to the next cell whose number is a multiple of four, and is shown as blanks. A
/// carriage return is not shown. Any other character takes one cell; what can be printed is
/// shown as it is, and the rest as a question mark.
pub proof fn characters_take_their_cells(line: Seq<char>, c: char)
    ensures
        ({
            let front = expanded(line);
            let whole = expanded(line.push(c));
            &&& cells(line) == front.len()
            &&& cells(line.push(c)) == whole.len()
            &&& whole.len() >= front.len()
            &&& whole.take(front.len() as int) == front
            &&& c == '\r' ==> whole == front
            &&& c == '\t' ==> whole.len() % 4 == 0 && front.len() < whole.len() <= front.len() + 4
            &&& c == '\t' ==> forall|i: int|
                front.len() <= i < whole.len() ==> #[trigger] whole[i] == ' '
            &&& c != '\r' && c != '\t' ==> whole.len() == front.len() + 1
            &&& ' ' <= c <= '~' ==> whole.last() == c
            &&& c != '\r' && c != '\t' && !(' ' <= c <= '~') ==> whole.last() == '?'
        }),
{
    column_bounds(line);
    column_bounds(line.push(c));
    assert(line.push(c).drop_last() =~= line);
    assert(expanded(line.push(c)).take(expanded(line).len() as int) =~= expanded(line));
}

/// A window shows what stands behind its edge, as far as it is wide and the line goes.
pub proof fn windows_show_what_is_behind_them(line: Seq<char>, from: int, width: int)
    requires
        0 <= from,
        0 <= width,
    ensures
        window(line, from, width).len() <= width,
        from + width <= line.len() ==> window(line, from, width).len() == width,
        from <= line.len() < from + width ==> window(line, from, width).len() == line.len() - from,
        from > line.len() ==> window(line, from, width).len() == 0,
        forall|i: int|
            0 <= i < window(line, from, width).len() ==> #[trigger] window(line, from, width)[i]
                == line[from + i],
{
}

/// After any press that stays in the editor, the cursor is in view: its line is one of the five
/// that the keyboard leaves, or of the nine without it, and its cell is one of thirty.
pub proof fn the_cursor_stays_in_view<M: VolumeAccess>(
    before: Option<CardFs<M>>,
    after: Option<CardFs<M>>,
    editor: Editor,
    button: Button,
    screen: Screen,
)
    requires
        editor_pressed(before, after, editor, button, screen),
        screen.wf(),
        button != Button::TopLeft,
    ensures
        screen matches Screen::Editor(shown) && {
            let line = newlines(shown.buffer.before());
            let cell = cells(last_line(shown.buffer.before()));
            &&& shown.scroll_line <= line < shown.scroll_line + if shown.keyboard_visible {
                5int
            } else {
                9
            }
            &&& shown.horizontal <= cell < shown.horizontal + 30
        },
{
    let shown = screen->Editor_0;
    let text = shown.buffer.text();
    shown.buffer.fits();
    encoding_is_no_shorter(text);
    assert(shown@.buffer.before == shown.buffer.before());
    line_bounds(shown.buffer.before());
    column_bounds(last_line(shown.buffer.before()));
}

/// A document is taken over as it is, up to 32 KiB of valid text. If any of its lines ends in a
/// carriage return and a newline, so will new ones.
pub proof fn documents_keep_their_line_ends(result: Result<TextBuffer, LoadError>, bytes: Seq<u8>)
    requires
        document_of(result, bytes),
    ensures
        result is Ok <==> bytes.len() <= 32 * 1024 && valid_utf8(bytes),
        result matches Ok(buffer) ==> {
            &&& buffer.text() == decode_utf8(bytes)
            &&& buffer.newline_style() == NewlineStyle::CrLf <==> exists|i: int|
                0 <= i < bytes.len() - 1 && #[trigger] bytes[i] == 13 && bytes[i + 1] == 10
        },
        result == Err::<TextBuffer, LoadError>(LoadError::TooLarge) <==> bytes.len() > 32 * 1024,
{
    if let Ok(buffer) = result {
        assert(buffer.text() =~= decode_utf8(bytes));
    }
}

/// Every file of up to 32 KiB is read; a folder, and a larger file, is refused after a look at
/// its entry. What was read is the document.
pub proof fn documents_of_a_size_are_read(
    t: Seq<Step>,
    path: Seq<char>,
    result: Result<TextBuffer, LoadError>,
)
    requires
        document_loaded(t, path, result),
    ensures
        t.len() >= 1,
        t[0] matches Step::Find { path: p, reply } && p == path && (reply is Ok ==> {
            let facts = reply->Ok_0;
            &&& !facts.directory && facts.size <= 32 * 1024 ==> t.len() == 2 && (
            t[1] matches Step::Read { path: q, reply: contents } && q == path && (contents is Ok
                && contents->Ok_0.len() <= 32 * 1024 && valid_utf8(contents->Ok_0) ==> (
            result matches Ok(buffer) && buffer.text() == decode_utf8(contents->Ok_0))))
            &&& facts.directory ==> t.len() == 1 && result is Err
            &&& !facts.directory && facts.size > 32 * 1024 ==> t.len() == 1 && result == Err::<
                TextBuffer,
                LoadError,
            >(LoadError::TooLarge)
        }),
{
    if t.len() == 2 {
        if let Step::Read { reply: Ok(bytes), .. } = t[1] {
            documents_keep_their_line_ends(result, bytes);
        }
    }
}

} // verus!
