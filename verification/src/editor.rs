//! The text buffer behind the editor.
use vstd::prelude::*;
use vstd::slice::slice_subrange;
use vstd::utf8::{decode_utf8, encode_utf8, valid_utf8};

use crate::text::{encode_char, encode_joins, encoded_len, text_of};

verus! {

/// Largest document that the editor takes, in bytes.
pub const MAX_DOCUMENT_BYTES: usize = 32 * 1024;

#[derive(Clone, Copy, Debug, PartialEq, Eq, Structural)]
pub enum NewlineStyle {
    Lf,
    CrLf,
}

#[derive(Debug, Clone, Copy, PartialEq, Eq, Structural)]
pub enum EditError {
    InvalidUtf8,
    TooLarge,
}

/// A document with a cursor between two of its characters. Offsets count bytes
/// of the document's UTF-8 encoding.
pub struct TextBuffer {
    bytes: Vec<u8>,
    cursor: usize,
    dirty: bool,
    newline: NewlineStyle,
}

/// The characters that one step to the left crosses: `\r\n` counts as one.
pub open spec fn step_back(before: Seq<char>) -> int {
    if before.len() >= 2 && before[before.len() - 2] == '\r' && before.last() == '\n' {
        2
    } else if before.len() >= 1 {
        1
    } else {
        0
    }
}

/// The characters that one step to the right crosses: `\r\n` counts as one.
pub open spec fn step_ahead(after: Seq<char>) -> int {
    if after.len() >= 2 && after[0] == '\r' && after[1] == '\n' {
        2
    } else if after.len() >= 1 {
        1
    } else {
        0
    }
}

/// Number of newlines in `text`.
pub open spec fn newlines(text: Seq<char>) -> nat
    decreases text.len(),
{
    if text.len() == 0 {
        0
    } else {
        newlines(text.drop_last()) + if text.last() == '\n' { 1nat } else { 0 }
    }
}

/// What follows the last newline of `text`.
pub open spec fn last_line(text: Seq<char>) -> Seq<char>
    decreases text.len(),
{
    if text.len() == 0 || text.last() == '\n' {
        Seq::empty()
    } else {
        last_line(text.drop_last()).push(text.last())
    }
}

/// The longest beginning of `text` with at most `count` newlines.
pub open spec fn through_line(text: Seq<char>, count: int) -> Seq<char>
    decreases text.len(),
{
    if text.len() == 0 || newlines(text) <= count {
        text
    } else {
        through_line(text.drop_last(), count)
    }
}

/// Columns that a stretch of a line occupies: all characters but `\r`.
pub open spec fn columns(line: Seq<char>) -> nat
    decreases line.len(),
{
    if line.len() == 0 {
        0
    } else {
        columns(line.drop_last()) + if line.last() == '\r' { 0nat } else { 1 }
    }
}

/// Length of the longest beginning of `line` with at most `count` columns.
pub open spec fn reach(line: Seq<char>, count: int) -> int
    decreases line.len(),
{
    if line.len() == 0 || columns(line) <= count {
        line.len() as int
    } else {
        reach(line.drop_last(), count)
    }
}

/// Cells that a tab at `column` takes to the next stop; there is one every four.
pub open spec fn tab_width(column: int) -> int {
    4 - column % 4
}

/// Display cells that a stretch of a line occupies.
pub open spec fn cells(line: Seq<char>) -> int
    decreases line.len(),
{
    if line.len() == 0 {
        0
    } else {
        let front = cells(line.drop_last());
        if line.last() == '\r' {
            front
        } else if line.last() == '\t' {
            front + tab_width(front)
        } else {
            front + 1
        }
    }
}

/// A character as the display shows it.
pub open spec fn shown(c: char) -> char {
    if ' ' <= c <= '~' { c } else { '?' }
}

pub open spec fn spaces(count: int) -> Seq<char> {
    Seq::new(count as nat, |i: int| ' ')
}

/// A stretch of a line as the display shows it.
pub open spec fn expanded(line: Seq<char>) -> Seq<char>
    decreases line.len(),
{
    if line.len() == 0 {
        Seq::empty()
    } else {
        let front = expanded(line.drop_last());
        if line.last() == '\r' {
            front
        } else if line.last() == '\t' {
            front + spaces(tab_width(front.len() as int))
        } else {
            front.push(shown(line.last()))
        }
    }
}

/// Where line `index` of `text` begins and ends, without its line end; both are
/// the end of the text where there is no such line.
pub open spec fn line_span(text: Seq<char>, index: int) -> (int, int) {
    if newlines(text) < index {
        (text.len() as int, text.len() as int)
    } else {
        let through = through_line(text, index);
        let line = last_line(through);
        let stop = through.len() - if line.len() > 0 && line.last() == '\r' { 1int } else { 0 };
        (through.len() - line.len(), stop)
    }
}

/// The characters of line `index`, without its line end.
pub open spec fn line_of(text: Seq<char>, index: int) -> Seq<char> {
    text.subrange(line_span(text, index).0, line_span(text, index).1)
}

/// The part of `line` that a window of `width` cells at `from` shows.
pub open spec fn window(line: Seq<char>, from: int, width: int) -> Seq<char> {
    let len = line.len() as int;
    let start = if from <= len { from } else { len };
    let end = if from + width <= len { from + width } else { len };
    line.subrange(start, end)
}

/// Where the cursor goes on line `target` to keep column `column`: before the
/// character at that column, or to the end of a shorter line.
pub open spec fn vertical_target(text: Seq<char>, target: int, column: int) -> int {
    line_span(text, target).0 + reach(line_of(text, target), column)
}

/// A document holds `\r\n` somewhere.
pub open spec fn has_crlf(bytes: Seq<u8>) -> bool {
    exists|i: int| 0 <= i < bytes.len() - 1 && #[trigger] bytes[i] == 0x0d && bytes[i + 1] == 0x0a
}

/// The characters of a newline in the given style.
pub open spec fn newline_chars(style: NewlineStyle) -> Seq<char> {
    match style {
        NewlineStyle::Lf => seq!['\n'],
        NewlineStyle::CrLf => seq!['\r', '\n'],
    }
}

pub(crate) proof fn line_bounds(text: Seq<char>)
    ensures
        newlines(text) <= text.len(),
        last_line(text).len() <= text.len(),
        last_line(text) =~= text.skip(text.len() - last_line(text).len()),
    decreases text.len(),
{
    if text.len() > 0 {
        line_bounds(text.drop_last());
    }
}

pub(crate) proof fn column_bounds(line: Seq<char>)
    ensures
        columns(line) <= line.len(),
        0 <= cells(line) <= 4 * line.len(),
        expanded(line).len() == cells(line),
    decreases line.len(),
{
    if line.len() > 0 {
        column_bounds(line.drop_last());
    }
}

pub(crate) proof fn encoding_is_no_shorter(text: Seq<char>)
    ensures
        encode_utf8(text).len() >= text.len(),
    decreases text.len(),
{
    if text.len() > 0 {
        encoding_is_no_shorter(text.drop_first());
    }
}

pub(crate) proof fn through_line_is_prefix(text: Seq<char>, count: int)
    requires
        count >= 0,
    ensures
        through_line(text, count).len() <= text.len(),
        through_line(text, count) == text.take(through_line(text, count).len() as int),
        newlines(through_line(text, count)) <= count,
        newlines(text) >= count ==> newlines(through_line(text, count)) == count,
    decreases text.len(),
{
    if text.len() > 0 && newlines(text) > count {
        through_line_is_prefix(text.drop_last(), count);
        assert(text.drop_last().take(through_line(text, count).len() as int) =~= text.take(
            through_line(text, count).len() as int,
        ));
    } else {
        assert(text.take(text.len() as int) =~= text);
    }
}

/// The span of a line lies in the text, in order.
pub proof fn line_span_is_ordered(text: Seq<char>, index: int)
    requires
        index >= 0,
    ensures
        0 <= line_span(text, index).0 <= line_span(text, index).1 <= text.len(),
{
    through_line_is_prefix(text, index);
    line_bounds(through_line(text, index));
}

proof fn reach_is_within(line: Seq<char>, count: int)
    ensures
        0 <= reach(line, count) <= line.len(),
    decreases line.len(),
{
    if line.len() > 0 {
        reach_is_within(line.drop_last(), count);
    }
}

/// A byte stretch between two character positions encodes the characters
/// between them.
proof fn stretch_encodes(text: Seq<char>, i: int, j: int)
    requires
        0 <= i <= j <= text.len(),
    ensures
        encode_utf8(text.take(i)).len() <= encode_utf8(text.take(j)).len() <= encode_utf8(text).len(),
        encode_utf8(text).subrange(
            encode_utf8(text.take(i)).len() as int,
            encode_utf8(text.take(j)).len() as int,
        ) == encode_utf8(text.subrange(i, j)),
        encode_utf8(text).take(encode_utf8(text.take(i)).len() as int) == encode_utf8(text.take(i)),
        encode_utf8(text).skip(encode_utf8(text.take(i)).len() as int) == encode_utf8(text.skip(i)),
{
    let a = text.take(i);
    let b = text.subrange(i, j);
    let c = text.skip(j);
    encode_joins(a, b);
    encode_joins(a + b, c);
    encode_joins(b, c);
    assert(a + b =~= text.take(j));
    assert(a + b + c =~= text);
    assert(b + c =~= text.skip(i));
    assert(encode_utf8(text) =~= encode_utf8(a) + encode_utf8(b) + encode_utf8(c));
    assert(encode_utf8(text).subrange(
        encode_utf8(a).len() as int,
        (encode_utf8(a).len() + encode_utf8(b).len()) as int,
    ) =~= encode_utf8(b));
    assert(encode_utf8(text).take(encode_utf8(a).len() as int) =~= encode_utf8(a));
    assert(encode_utf8(text).skip(encode_utf8(a).len() as int) =~= encode_utf8(b) + encode_utf8(c));
}

/// The bytes up to a position are those before the character there, and its own.
proof fn prefix_grows(text: Seq<char>, i: int)
    requires
        0 <= i < text.len(),
    ensures
        encode_utf8(text.take(i + 1)) == encode_utf8(text.take(i)) + encode_utf8(seq![text[i]]),
        text.take(i + 1).drop_last() == text.take(i),
        text.take(i + 1).last() == text[i],
{
    encode_joins(text.take(i), seq![text[i]]);
    assert(text.take(i) + seq![text[i]] =~= text.take(i + 1));
    assert(text.take(i + 1).drop_last() =~= text.take(i));
}

/// Decode bytes that are known to be valid.
fn decoded(bytes: &[u8]) -> (text: &str)
    requires
        valid_utf8(bytes@),
    ensures
        text@ == decode_utf8(bytes@),
{
    match core::str::from_utf8(bytes) {
        Ok(text) => text,
        Err(_) => {
            assert(false);
            ""
        },
    }
}

impl TextBuffer {
    /// The characters before the cursor.
    pub closed spec fn before(&self) -> Seq<char> {
        decode_utf8(self.bytes@.take(self.cursor as int))
    }

    /// The characters after the cursor.
    pub closed spec fn after(&self) -> Seq<char> {
        decode_utf8(self.bytes@.skip(self.cursor as int))
    }

    /// All characters of the document.
    pub open spec fn text(&self) -> Seq<char> {
        self.before() + self.after()
    }

    /// There are changes that were not saved.
    pub closed spec fn dirty(&self) -> bool {
        self.dirty
    }

    /// How a new line is written.
    pub closed spec fn newline_style(&self) -> NewlineStyle {
        self.newline
    }

    /// The document is valid UTF-8 within the size limit, and the cursor stands
    /// between two characters.
    pub closed spec fn wf(&self) -> bool {
        &&& self.cursor <= self.bytes@.len() <= MAX_DOCUMENT_BYTES
        &&& valid_utf8(self.bytes@.take(self.cursor as int))
        &&& valid_utf8(self.bytes@.skip(self.cursor as int))
    }

    /// Same document and newline style, with the cursor and the mark for changes
    /// as they may be.
    pub open spec fn same_text(&self, other: &TextBuffer) -> bool {
        self.text() == other.text() && self.newline_style() == other.newline_style()
    }

    /// The bytes are those of the characters on both sides of the cursor.
    proof fn encodes(&self)
        requires
            self.wf(),
        ensures
            self.bytes@.take(self.cursor as int) == encode_utf8(self.before()),
            self.bytes@.skip(self.cursor as int) == encode_utf8(self.after()),
            self.bytes@ == encode_utf8(self.text()),
            valid_utf8(self.bytes@),
            decode_utf8(self.bytes@) == self.text(),
            self.before().len() <= self.cursor,
            self.text().len() <= self.bytes@.len(),
    {
        broadcast use vstd::utf8::decode_utf8_encode_utf8;
        broadcast use vstd::utf8::encode_utf8_decode_utf8;
        broadcast use vstd::utf8::encode_utf8_valid_utf8;

        encode_joins(self.before(), self.after());
        assert(self.bytes@.take(self.cursor as int) == encode_utf8(self.before()));
        assert(self.bytes@.skip(self.cursor as int) == encode_utf8(self.after()));
        assert(self.bytes@ =~= encode_utf8(self.before()) + encode_utf8(self.after()));
        encoding_is_no_shorter(self.before());
        encoding_is_no_shorter(self.text());
    }

    /// A document keeps within the size limit.
    pub proof fn fits(&self)
        requires
            self.wf(),
        ensures
            encode_utf8(self.text()).len() <= MAX_DOCUMENT_BYTES,
    {
        self.encodes();
    }

    /// A buffer whose bytes encode `before` up to the cursor and `after` behind it.
    proof fn shows(&self, before: Seq<char>, after: Seq<char>)
        requires
            self.cursor <= self.bytes@.len() <= MAX_DOCUMENT_BYTES,
            self.bytes@.take(self.cursor as int) == encode_utf8(before),
            self.bytes@.skip(self.cursor as int) == encode_utf8(after),
        ensures
            self.wf(),
            self.before() == before,
            self.after() == after,
    {
        broadcast use vstd::utf8::encode_utf8_decode_utf8;
        broadcast use vstd::utf8::encode_utf8_valid_utf8;

    }

    /// Take over a document, with the cursor at its start. It keeps the kind of
    /// line end that it holds: `\r\n` anywhere makes new lines end so too.
    pub fn from_bytes(bytes: Vec<u8>) -> (result: Result<Self, EditError>)
        ensures
            match result {
                Ok(buffer) => {
                    &&& bytes@.len() <= MAX_DOCUMENT_BYTES
                    &&& valid_utf8(bytes@)
                    &&& buffer.wf()
                    &&& buffer.before() == Seq::<char>::empty()
                    &&& buffer.after() == decode_utf8(bytes@)
                    &&& encode_utf8(buffer.text()) == bytes@
                    &&& !buffer.dirty()
                    &&& buffer.newline_style() == if has_crlf(bytes@) {
                        NewlineStyle::CrLf
                    } else {
                        NewlineStyle::Lf
                    }
                },
                Err(EditError::TooLarge) => bytes@.len() > MAX_DOCUMENT_BYTES,
                Err(EditError::InvalidUtf8) => bytes@.len() <= MAX_DOCUMENT_BYTES && !valid_utf8(
                    bytes@,
                ),
            },
    {
        if bytes.len() > MAX_DOCUMENT_BYTES {
            return Err(EditError::TooLarge);
        }
        if core::str::from_utf8(bytes.as_slice()).is_err() {
            return Err(EditError::InvalidUtf8);
        }
        let mut newline = NewlineStyle::Lf;
        let mut i: usize = 1;
        while i < bytes.len()
            invariant
                1 <= i,
                newline == NewlineStyle::Lf <==> forall|j: int|
                    0 <= j < i - 1 && j < bytes@.len() - 1 ==> !(#[trigger] bytes@[j] == 0x0d
                        && bytes@[j + 1] == 0x0a),
            decreases bytes.len() - i,
        {
            if bytes[i - 1] == 0x0d && bytes[i] == 0x0a {
                assert(bytes@[i - 1] == 0x0d);
                newline = NewlineStyle::CrLf;
            }
            i = i + 1;
        }
        proof {
            assert(newline == NewlineStyle::CrLf <==> has_crlf(bytes@));
        }
        let buffer = TextBuffer { bytes, cursor: 0, dirty: false, newline };
        proof {
            assert(buffer.bytes@.take(0) =~= Seq::empty());
            assert(buffer.bytes@.skip(0) =~= bytes@);
            assert(valid_utf8(Seq::<u8>::empty()));
            buffer.encodes();
            assert(buffer.before() =~= Seq::empty());
        }
        Ok(buffer)
    }

    /// A document without any characters.
    pub fn empty() -> (buffer: Self)
        ensures
            buffer.wf(),
            buffer.text() == Seq::<char>::empty(),
            !buffer.dirty(),
            buffer.newline_style() == NewlineStyle::Lf,
    {
        let buffer = TextBuffer {
            bytes: Vec::new(),
            cursor: 0,
            dirty: false,
            newline: NewlineStyle::Lf,
        };
        proof {
            assert(buffer.bytes@.take(0) =~= encode_utf8(Seq::empty()));
            assert(buffer.bytes@.skip(0) =~= encode_utf8(Seq::empty()));
            buffer.shows(Seq::empty(), Seq::empty());
            assert(buffer.text() =~= Seq::empty());
        }
        buffer
    }

    /// The document as it is saved.
    pub fn bytes(&self) -> (bytes: &[u8])
        requires
            self.wf(),
        ensures
            bytes@ == encode_utf8(self.text()),
            bytes@.len() <= MAX_DOCUMENT_BYTES,
    {
        proof {
            self.encodes();
        }
        self.bytes.as_slice()
    }

    /// The cursor's byte offset.
    pub fn cursor(&self) -> (cursor: usize)
        requires
            self.wf(),
        ensures
            cursor == encode_utf8(self.before()).len(),
    {
        proof {
            self.encodes();
        }
        self.cursor
    }

    pub fn is_dirty(&self) -> (dirty: bool)
        ensures
            dirty == self.dirty(),
    {
        self.dirty
    }

    /// The document was saved.
    pub fn mark_clean(&mut self)
        requires
            old(self).wf(),
        ensures
            final(self).wf(),
            final(self).before() == old(self).before(),
            final(self).after() == old(self).after(),
            final(self).newline_style() == old(self).newline_style(),
            !final(self).dirty(),
    {
        self.dirty = false;
    }

    /// Move the cursor behind the last character.
    pub fn set_cursor_end(&mut self)
        requires
            old(self).wf(),
        ensures
            final(self).wf(),
            final(self).before() == old(self).text(),
            final(self).after() == Seq::<char>::empty(),
            final(self).newline_style() == old(self).newline_style(),
            final(self).dirty() == old(self).dirty(),
    {
        let ghost text = self.text();
        proof {
            self.encodes();
        }
        self.cursor = self.bytes.len();
        proof {
            assert(self.bytes@.take(self.cursor as int) =~= encode_utf8(text));
            assert(self.bytes@.skip(self.cursor as int) =~= encode_utf8(Seq::empty()));
            self.shows(text, Seq::empty());
        }
    }

    /// Put `encoded` at the cursor and move behind it.
    fn insert_encoded(&mut self, encoded: Vec<u8>, Ghost(chars): Ghost<Seq<char>>) -> (result: Result<
        (),
        EditError,
    >)
        requires
            old(self).wf(),
            encoded@ == encode_utf8(chars),
            encoded@.len() <= 8,
        ensures
            final(self).wf(),
            final(self).newline_style() == old(self).newline_style(),
            final(self).after() == old(self).after(),
            match result {
                Ok(_) => {
                    &&& encode_utf8(old(self).text()).len() + encoded@.len() <= MAX_DOCUMENT_BYTES
                    &&& final(self).before() == old(self).before() + chars
                    &&& final(self).dirty()
                },
                Err(error) => {
                    &&& error == EditError::TooLarge
                    &&& encode_utf8(old(self).text()).len() + encoded@.len() > MAX_DOCUMENT_BYTES
                    &&& *final(self) == *old(self)
                },
            },
    {
        proof {
            self.encodes();
        }
        if self.bytes.len() + encoded.len() > MAX_DOCUMENT_BYTES {
            return Err(EditError::TooLarge);
        }
        let ghost before = self.before();
        let ghost after = self.after();
        let ghost front = self.bytes@.take(self.cursor as int);
        let ghost back = self.bytes@.skip(self.cursor as int);
        let ghost style = self.newline;
        assert(encoded@.take(0) =~= Seq::empty());
        for i in 0..encoded.len()
            invariant
                self.bytes@ =~= front + encoded@.take(i as int) + back,
                self.cursor == front.len() + i,
                self.newline == style,
                front.len() + encoded@.len() + back.len() <= MAX_DOCUMENT_BYTES,
        {
            self.bytes.insert(self.cursor, encoded[i]);
            self.cursor = self.cursor + 1;
        }
        self.dirty = true;
        proof {
            assert(encoded@.take(encoded@.len() as int) =~= encoded@);
            encode_joins(before, chars);
            assert(self.bytes@.take(self.cursor as int) =~= front + encoded@);
            assert(self.bytes@.skip(self.cursor as int) =~= back);
            self.shows(before + chars, after);
        }
        Ok(())
    }

    /// Type a character.
    pub fn insert_char(&mut self, ch: char) -> (result: Result<(), EditError>)
        requires
            old(self).wf(),
        ensures
            final(self).wf(),
            final(self).newline_style() == old(self).newline_style(),
            final(self).after() == old(self).after(),
            match result {
                Ok(_) => {
                    &&& encode_utf8(old(self).text()).len() + encode_utf8(seq![ch]).len()
                        <= MAX_DOCUMENT_BYTES
                    &&& final(self).before() == old(self).before().push(ch)
                    &&& final(self).dirty()
                },
                Err(error) => {
                    &&& error == EditError::TooLarge
                    &&& encode_utf8(old(self).text()).len() + encode_utf8(seq![ch]).len()
                        > MAX_DOCUMENT_BYTES
                    &&& *final(self) == *old(self)
                },
            },
    {
        let ghost before = self.before();
        let ghost chars = seq![ch];
        let result = self.insert_encoded(encode_char(ch), Ghost(chars));
        assert(before + seq![ch] =~= before.push(ch));
        result
    }

    /// Type a line end, in the document's own style.
    pub fn insert_newline(&mut self) -> (result: Result<(), EditError>)
        requires
            old(self).wf(),
        ensures
            final(self).wf(),
            final(self).newline_style() == old(self).newline_style(),
            final(self).after() == old(self).after(),
            ({
                let newline = newline_chars(old(self).newline_style());
                match result {
                    Ok(_) => {
                        &&& encode_utf8(old(self).text()).len() + newline.len() <= MAX_DOCUMENT_BYTES
                        &&& final(self).before() == old(self).before() + newline
                        &&& final(self).dirty()
                    },
                    Err(error) => {
                        &&& error == EditError::TooLarge
                        &&& encode_utf8(old(self).text()).len() + newline.len() > MAX_DOCUMENT_BYTES
                        &&& *final(self) == *old(self)
                    },
                }
            }),
    {
        let ghost style = self.newline;
        let mut encoded: Vec<u8> = Vec::new();
        if let NewlineStyle::CrLf = self.newline {
            encoded.push(0x0d);
        }
        encoded.push(0x0a);
        proof {
            let chars = newline_chars(style);
            assert(vstd::utf8::is_ascii_chars(chars));
            vstd::utf8::is_ascii_chars_encode_utf8(chars);
            assert(encoded@ =~= encode_utf8(chars));
        }
        self.insert_encoded(encoded, Ghost(newline_chars(style)))
    }

    /// Bytes that one step to the left crosses.
    fn back_step(&self) -> (step: usize)
        requires
            self.wf(),
        ensures
            ({
                let before = self.before();
                let left = before.take(before.len() - step_back(before));
                &&& step <= self.cursor
                &&& encode_utf8(left) == self.bytes@.take(self.cursor - step)
                &&& encode_utf8(before.skip(before.len() - step_back(before))) == self.bytes@.subrange(
                    self.cursor - step,
                    self.cursor as int,
                )
            }),
    {
        let ghost before = self.before();
        proof {
            self.encodes();
        }
        let text = decoded(slice_subrange(self.bytes.as_slice(), 0, self.cursor));
        assert(self.bytes@.subrange(0, self.cursor as int) =~= self.bytes@.take(self.cursor as int));
        let mut last: Option<char> = None;
        let mut last_but_one: Option<char> = None;
        for c in it: text.chars()
            invariant
                it.seq() == before,
                last == (if it.index() >= 1 { Some(before[it.index() - 1]) } else { None }),
                last_but_one == (if it.index() >= 2 { Some(before[it.index() - 2]) } else { None }),
        {
            last_but_one = last;
            last = Some(c);
        }
        let ghost n = before.len() as int;
        let step: usize = match last {
            None => 0,
            Some(c) => {
                let crlf = c == '\n' && match last_but_one {
                    Some(d) => d == '\r',
                    None => false,
                };
                if crlf {
                    encoded_len('\r') + encoded_len(c)
                } else {
                    encoded_len(c)
                }
            },
        };
        proof {
            let k = step_back(before);
            stretch_encodes(before, n - k, n);
            assert(before.take(n) =~= before);
            assert(before.subrange(n - k, n) =~= before.skip(n - k));
            let tail = before.skip(n - k);
            if k == 2 {
                encode_joins(seq!['\r'], seq!['\n']);
                assert(tail =~= seq!['\r'] + seq!['\n']);
            } else if k == 1 {
                assert(tail =~= seq![before.last()]);
            } else {
                assert(tail =~= Seq::empty());
            }
            assert(encode_utf8(tail).len() == step);
            assert(encode_utf8(before).take(encode_utf8(before.take(n - k)).len() as int)
                =~= self.bytes@.take(self.cursor - step));
            assert(encode_utf8(before).subrange(
                encode_utf8(before.take(n - k)).len() as int,
                encode_utf8(before).len() as int,
            ) =~= self.bytes@.subrange(self.cursor - step, self.cursor as int));
        }
        step
    }

    /// Bytes that one step to the right crosses.
    fn ahead_step(&self) -> (step: usize)
        requires
            self.wf(),
        ensures
            ({
                let after = self.after();
                &&& self.cursor + step <= self.bytes@.len()
                &&& encode_utf8(after.take(step_ahead(after))) == self.bytes@.subrange(
                    self.cursor as int,
                    self.cursor + step,
                )
                &&& encode_utf8(after.skip(step_ahead(after))) == self.bytes@.skip(
                    self.cursor + step,
                )
            }),
    {
        let ghost after = self.after();
        proof {
            self.encodes();
        }
        let text = decoded(
            slice_subrange(self.bytes.as_slice(), self.cursor, self.bytes.len()),
        );
        assert(self.bytes@.subrange(self.cursor as int, self.bytes@.len() as int)
            =~= self.bytes@.skip(self.cursor as int));
        let mut chars = text.chars();
        let first = chars.next();
        let second = chars.next();
        let step: usize = match first {
            None => 0,
            Some(c) => {
                let crlf = c == '\r' && match second {
                    Some(d) => d == '\n',
                    None => false,
                };
                if crlf {
                    encoded_len(c) + encoded_len('\n')
                } else {
                    encoded_len(c)
                }
            },
        };
        proof {
            let k = step_ahead(after);
            stretch_encodes(after, 0, k);
            stretch_encodes(after, k, after.len() as int);
            let head = after.take(k);
            assert(after.take(0) =~= Seq::empty());
            assert(encode_utf8(Seq::<char>::empty()) =~= Seq::empty());
            assert(after.subrange(0, k) =~= head);
            if k == 2 {
                encode_joins(seq!['\r'], seq!['\n']);
                assert(head =~= seq!['\r'] + seq!['\n']);
            } else if k == 1 {
                assert(head =~= seq![after[0]]);
            } else {
                assert(head =~= Seq::empty());
            }
            assert(encode_utf8(head).len() == step);
            assert(self.bytes@.subrange(self.cursor as int, self.cursor + step)
                =~= encode_utf8(after).subrange(0, step as int));
            assert(self.bytes@.skip(self.cursor + step) =~= encode_utf8(after).skip(step as int));
        }
        step
    }

    /// Remove `count` bytes behind the cursor.
    fn remove_ahead(&mut self, count: usize)
        requires
            old(self).cursor + count <= old(self).bytes@.len(),
        ensures
            final(self).bytes@ == old(self).bytes@.take(old(self).cursor as int) + old(
                self,
            ).bytes@.skip(old(self).cursor + count),
            final(self).cursor == old(self).cursor,
            final(self).newline == old(self).newline,
            final(self).dirty,
    {
        let ghost whole = self.bytes@;
        let ghost at = self.cursor as int;
        assert(whole =~= whole.take(at) + whole.skip(at));
        for i in 0..count
            invariant
                whole == old(self).bytes@,
                self.cursor == at == old(self).cursor,
                self.newline == old(self).newline,
                at + count <= whole.len(),
                self.bytes@ == whole.take(at) + whole.skip(at + i),
        {
            self.bytes.remove(self.cursor);
            assert(self.bytes@ =~= whole.take(at) + whole.skip(at + i + 1));
        }
        self.dirty = true;
    }

    /// Remove the character before the cursor; `\r\n` goes as one.
    pub fn backspace(&mut self)
        requires
            old(self).wf(),
        ensures
            final(self).wf(),
            final(self).newline_style() == old(self).newline_style(),
            final(self).after() == old(self).after(),
            old(self).before().len() == 0 ==> *final(self) == *old(self),
            old(self).before().len() > 0 ==> {
                &&& final(self).before() == old(self).before().take(
                    old(self).before().len() - step_back(old(self).before()),
                )
                &&& final(self).dirty()
            },
    {
        proof {
            self.encodes();
        }
        if self.cursor == 0 {
            return;
        }
        let ghost before = self.before();
        let ghost after = self.after();
        let step = self.back_step();
        let ghost left = before.take(before.len() - step_back(before));
        let ghost whole = self.bytes@;
        let ghost end = self.cursor as int;
        self.cursor = self.cursor - step;
        self.remove_ahead(step);
        proof {
            assert(self.bytes@.take(self.cursor as int) =~= whole.take(end - step));
            assert(self.bytes@.skip(self.cursor as int) =~= whole.skip(end));
            self.shows(left, after);
        }
    }

    /// Remove the character behind the cursor; `\r\n` goes as one.
    pub fn delete(&mut self)
        requires
            old(self).wf(),
        ensures
            final(self).wf(),
            final(self).newline_style() == old(self).newline_style(),
            final(self).before() == old(self).before(),
            old(self).after().len() == 0 ==> *final(self) == *old(self),
            old(self).after().len() > 0 ==> {
                &&& final(self).after() == old(self).after().skip(step_ahead(old(self).after()))
                &&& final(self).dirty()
            },
    {
        proof {
            self.encodes();
        }
        if self.cursor >= self.bytes.len() {
            return;
        }
        let ghost before = self.before();
        let ghost after = self.after();
        let step = self.ahead_step();
        let ghost whole = self.bytes@;
        self.remove_ahead(step);
        proof {
            assert(self.bytes@.take(self.cursor as int) =~= whole.take(self.cursor as int));
            assert(self.bytes@.skip(self.cursor as int) =~= whole.skip(self.cursor + step));
            self.shows(before, after.skip(step_ahead(after)));
        }
    }

    /// One step to the left.
    pub fn move_left(&mut self)
        requires
            old(self).wf(),
        ensures
            final(self).wf(),
            final(self).same_text(old(self)),
            final(self).dirty() == old(self).dirty(),
            final(self).before() == old(self).before().take(
                old(self).before().len() - step_back(old(self).before()),
            ),
    {
        proof {
            self.encodes();
        }
        let ghost before = self.before();
        let ghost after = self.after();
        let step = self.back_step();
        let ghost k = before.len() - step_back(before);
        let ghost end = self.cursor as int;
        self.cursor = self.cursor - step;
        proof {
            encode_joins(before.skip(k), after);
            assert(self.bytes@.skip(self.cursor as int) =~= self.bytes@.subrange(end - step, end)
                + self.bytes@.skip(end));
            self.shows(before.take(k), before.skip(k) + after);
            assert(before.take(k) + (before.skip(k) + after) =~= before + after);
        }
    }

    /// One step to the right.
    pub fn move_right(&mut self)
        requires
            old(self).wf(),
        ensures
            final(self).wf(),
            final(self).same_text(old(self)),
            final(self).dirty() == old(self).dirty(),
            final(self).after() == old(self).after().skip(step_ahead(old(self).after())),
    {
        proof {
            self.encodes();
        }
        let ghost before = self.before();
        let ghost after = self.after();
        let step = self.ahead_step();
        let ghost k = step_ahead(after);
        let ghost start = self.cursor as int;
        self.cursor = self.cursor + step;
        proof {
            encode_joins(before, after.take(k));
            assert(self.bytes@.take(self.cursor as int) =~= self.bytes@.take(start)
                + self.bytes@.subrange(start, start + step));
            self.shows(before + after.take(k), after.skip(k));
            assert((before + after.take(k)) + after.skip(k) =~= before + after);
        }
    }

    /// The line and the column of the cursor, both from 0.
    pub fn line_col(&self) -> (position: (usize, usize))
        requires
            self.wf(),
        ensures
            position.0 == newlines(self.before()),
            position.1 == columns(last_line(self.before())),
            position.0 <= MAX_DOCUMENT_BYTES,
            position.1 <= MAX_DOCUMENT_BYTES,
    {
        let ghost before = self.before();
        proof {
            self.encodes();
        }
        let text = decoded(slice_subrange(self.bytes.as_slice(), 0, self.cursor));
        assert(self.bytes@.subrange(0, self.cursor as int) =~= self.bytes@.take(self.cursor as int));
        let mut line: usize = 0;
        let mut column: usize = 0;
        for c in it: text.chars()
            invariant
                it.seq() == before,
                before.len() <= MAX_DOCUMENT_BYTES,
                line == newlines(before.take(it.index() as int)),
                column == columns(last_line(before.take(it.index() as int))),
                line <= it.index(),
                column <= it.index(),
        {
            proof {
                let i = it.index() as int;
                prefix_grows(before, i);
                assert(last_line(before.take(i)).push(c).drop_last() =~= last_line(before.take(i)));
            }
            if c == '\n' {
                line = line + 1;
                column = 0;
            } else if c != '\r' {
                column = column + 1;
            }
        }
        assert(before.take(before.len() as int) =~= before);
        (line, column)
    }

    /// The line of the cursor and its display cell, with tabs expanded to
    /// four-column stops.
    pub fn display_position(&self) -> (position: (usize, usize))
        requires
            self.wf(),
        ensures
            position.0 == newlines(self.before()),
            position.1 == cells(last_line(self.before())),
            position.0 <= MAX_DOCUMENT_BYTES,
            position.1 <= 4 * MAX_DOCUMENT_BYTES,
    {
        let ghost before = self.before();
        proof {
            self.encodes();
        }
        let text = decoded(slice_subrange(self.bytes.as_slice(), 0, self.cursor));
        assert(self.bytes@.subrange(0, self.cursor as int) =~= self.bytes@.take(self.cursor as int));
        let mut line: usize = 0;
        let mut column: usize = 0;
        for c in it: text.chars()
            invariant
                it.seq() == before,
                before.len() <= MAX_DOCUMENT_BYTES,
                line == newlines(before.take(it.index() as int)),
                column == cells(last_line(before.take(it.index() as int))),
                line <= it.index(),
                column <= 4 * it.index(),
        {
            proof {
                let i = it.index() as int;
                prefix_grows(before, i);
                assert(last_line(before.take(i)).push(c).drop_last() =~= last_line(before.take(i)));
            }
            if c == '\n' {
                line = line + 1;
                column = 0;
            } else if c == '\t' {
                column = column + tab_advance(column);
            } else if c != '\r' {
                column = column + 1;
            }
        }
        assert(before.take(before.len() as int) =~= before);
        (line, column)
    }

    /// Number of lines; a line end at the very end starts another one.
    pub fn line_count(&self) -> (count: usize)
        requires
            self.wf(),
        ensures
            count == 1 + newlines(self.text()),
    {
        let ghost all = self.text();
        proof {
            self.encodes();
        }
        let text = decoded(self.bytes.as_slice());
        let mut count: usize = 1;
        for c in it: text.chars()
            invariant
                it.seq() == all,
                all.len() <= MAX_DOCUMENT_BYTES,
                count == 1 + newlines(all.take(it.index() as int)),
                count <= 1 + it.index(),
        {
            proof {
                prefix_grows(all, it.index() as int);
            }
            if c == '\n' {
                count = count + 1;
            }
        }
        assert(all.take(all.len() as int) =~= all);
        count
    }

    /// Byte offsets at which line `index` begins and ends, without its line end.
    fn line_range(&self, index: usize) -> (range: (usize, usize))
        requires
            self.wf(),
        ensures
            range.0 <= range.1 <= self.bytes@.len(),
            range.0 == encode_utf8(self.text().take(line_span(self.text(), index as int).0)).len(),
            range.1 == encode_utf8(self.text().take(line_span(self.text(), index as int).1)).len(),
            self.bytes@.subrange(range.0 as int, range.1 as int) == encode_utf8(
                line_of(self.text(), index as int),
            ),
    {
        let ghost all = self.text();
        let ghost n = index as int;
        proof {
            self.encodes();
        }
        let text = decoded(self.bytes.as_slice());
        let mut seen: usize = 0;
        let mut offset: usize = 0;
        let mut start: usize = 0;
        let mut end: usize = 0;
        let mut ends_in_cr = false;
        assert(all.take(0) =~= Seq::empty());
        assert(encode_utf8(Seq::<char>::empty()) =~= Seq::empty());
        for c in it: text.chars()
            invariant
                it.seq() == all,
                n == index,
                self.bytes@ == encode_utf8(all),
                all.len() <= self.bytes@.len() <= MAX_DOCUMENT_BYTES,
                seen == newlines(all.take(it.index() as int)),
                seen <= it.index(),
                offset == encode_utf8(all.take(it.index() as int)).len(),
                offset <= self.bytes@.len(),
                seen >= index ==> {
                    let through = through_line(all.take(it.index() as int), n);
                    let line = last_line(through);
                    &&& start == encode_utf8(all.take(through.len() - line.len())).len()
                    &&& end == encode_utf8(all.take(through.len() as int)).len()
                    &&& ends_in_cr == (line.len() > 0 && line.last() == '\r')
                },
                seen == index ==> end == offset,
        {
            proof {
                let i = it.index() as int;
                prefix_grows(all, i);
                stretch_encodes(all, i + 1, all.len() as int);
                line_bounds(all.take(i));
            }
            offset = offset + encoded_len(c);
            if seen < index {
                if c == '\n' {
                    seen = seen + 1;
                    start = offset;
                    end = offset;
                    ends_in_cr = false;
                }
            } else if c == '\n' {
                seen = seen + 1;
            } else if seen == index {
                end = offset;
                ends_in_cr = c == '\r';
            }
        }
        assert(all.take(all.len() as int) =~= all);
        let ghost span = line_span(all, n);
        proof {
            line_span_is_ordered(all, n);
            stretch_encodes(all, span.0, span.1);
        }
        if seen < index {
            return (self.bytes.len(), self.bytes.len());
        }
        if ends_in_cr {
            proof {
                let through = through_line(all, n);
                through_line_is_prefix(all, n);
                line_bounds(through);
                prefix_grows(all, through.len() - 1);
                vstd::utf8::is_ascii_chars_encode_utf8(seq!['\r']);
                assert(through[through.len() - 1] == last_line(through).last());
            }
            (start, end - 1)
        } else {
            (start, end)
        }
    }

    /// The part of line `index` that a window of `width` cells at `horizontal`
    /// shows.
    pub fn display_line(&self, index: usize, horizontal: usize, width: usize) -> (shown_part: String)
        requires
            self.wf(),
        ensures
            shown_part@ == window(
                expanded(line_of(self.text(), index as int)),
                horizontal as int,
                width as int,
            ),
    {
        let ghost line = line_of(self.text(), index as int);
        let (start, end) = self.line_range(index);
        proof {
            self.encodes();
            vstd::utf8::encode_utf8_valid_utf8(line);
            vstd::utf8::encode_utf8_decode_utf8(line);
            line_span_is_ordered(self.text(), index as int);
        }
        let text = decoded(slice_subrange(self.bytes.as_slice(), start, end));
        let mut cells_shown: Vec<char> = Vec::new();
        assert(line.take(0) =~= Seq::empty());
        for c in it: text.chars()
            invariant
                it.seq() == line,
                line.len() <= MAX_DOCUMENT_BYTES,
                cells_shown@ == expanded(line.take(it.index() as int)),
        {
            proof {
                prefix_grows(line, it.index() as int);
            }
            let ghost front = cells_shown@;
            if c == '\t' {
                let count = tab_advance(cells_shown.len());
                for i in 0..count
                    invariant
                        count <= 4,
                        cells_shown@ == front + spaces(i as int),
                {
                    cells_shown.push(' ');
                    assert(cells_shown@ =~= front + spaces(i + 1));
                }
                assert(front + spaces(0) =~= front);
            } else if c != '\r' {
                cells_shown.push(if ' ' <= c && c <= '~' { c } else { '?' });
            }
        }
        assert(line.take(line.len() as int) =~= line);
        let len: usize = cells_shown.len();
        let from: usize = if horizontal <= len { horizontal } else { len };
        let to: usize = if width <= len - from { from + width } else { len };
        text_of(&cells_shown, from, to)
    }

    /// Go to line `target`, keeping the column as far as that line reaches.
    fn go_to_line(&mut self, target: usize, column: usize)
        requires
            old(self).wf(),
        ensures
            final(self).wf(),
            final(self).same_text(old(self)),
            final(self).dirty() == old(self).dirty(),
            final(self).before() == old(self).text().take(
                vertical_target(old(self).text(), target as int, column as int),
            ),
    {
        let ghost all = self.text();
        let ghost line = line_of(all, target as int);
        let ghost first = line_span(all, target as int).0;
        let (start, end) = self.line_range(target);
        proof {
            self.encodes();
            vstd::utf8::encode_utf8_valid_utf8(line);
            vstd::utf8::encode_utf8_decode_utf8(line);
            line_span_is_ordered(all, target as int);
            assert(line.take(0) =~= Seq::empty());
            assert(encode_utf8(Seq::<char>::empty()) =~= Seq::empty());
        }
        let text = decoded(slice_subrange(self.bytes.as_slice(), start, end));
        let mut offset: usize = 0;
        let mut place: usize = 0;
        let mut passed: usize = 0;
        for c in it: text.chars()
            invariant
                it.seq() == line,
                line.len() <= MAX_DOCUMENT_BYTES,
                encode_utf8(line).len() <= MAX_DOCUMENT_BYTES,
                passed == columns(line.take(it.index() as int)),
                passed <= it.index(),
                offset == encode_utf8(line.take(it.index() as int)).len(),
                0 <= reach(line.take(it.index() as int), column as int) <= it.index(),
                place == encode_utf8(
                    line.take(reach(line.take(it.index() as int), column as int)),
                ).len(),
                passed <= column ==> place == offset,
        {
            proof {
                let i = it.index() as int;
                prefix_grows(line, i);
                stretch_encodes(line, i + 1, line.len() as int);
            }
            offset = offset + encoded_len(c);
            if c != '\r' {
                passed = passed + 1;
            }
            if passed <= column {
                place = offset;
            }
        }
        proof {
            assert(line.take(line.len() as int) =~= line);
            let k = reach(line, column as int);
            let goal = first + k;
            reach_is_within(line, column as int);
            stretch_encodes(all, first, goal);
            stretch_encodes(all, goal, goal);
            assert(all.subrange(first, goal) =~= line.take(k));
        }
        self.cursor = start + place;
        proof {
            let goal = vertical_target(all, target as int, column as int);
            self.shows(all.take(goal), all.skip(goal));
            assert(all.take(goal) + all.skip(goal) =~= all);
        }
    }

    /// One line up, keeping the column as far as that line reaches.
    pub fn move_up(&mut self)
        requires
            old(self).wf(),
        ensures
            final(self).wf(),
            final(self).same_text(old(self)),
            final(self).dirty() == old(self).dirty(),
            newlines(old(self).before()) == 0 ==> *final(self) == *old(self),
            newlines(old(self).before()) > 0 ==> final(self).before() == old(self).text().take(
                vertical_target(
                    old(self).text(),
                    newlines(old(self).before()) - 1,
                    columns(last_line(old(self).before())) as int,
                ),
            ),
    {
        let (line, column) = self.line_col();
        if line > 0 {
            self.go_to_line(line - 1, column);
        }
    }

    /// One line down, keeping the column as far as that line reaches.
    pub fn move_down(&mut self)
        requires
            old(self).wf(),
        ensures
            final(self).wf(),
            final(self).same_text(old(self)),
            final(self).dirty() == old(self).dirty(),
            newlines(old(self).before()) == newlines(old(self).text()) ==> *final(self) == *old(self),
            newlines(old(self).before()) < newlines(old(self).text()) ==> final(self).before()
                == old(self).text().take(
                vertical_target(
                    old(self).text(),
                    (newlines(old(self).before()) + 1) as int,
                    columns(last_line(old(self).before())) as int,
                ),
            ),
    {
        let (line, column) = self.line_col();
        let count = self.line_count();
        proof {
            newlines_join(self.before(), self.after());
        }
        if line + 1 < count {
            self.go_to_line(line + 1, column);
        }
    }
}

/// Newlines count up over a text and what follows it.
pub proof fn newlines_join(a: Seq<char>, b: Seq<char>)
    ensures
        newlines(a + b) == newlines(a) + newlines(b),
    decreases b.len(),
{
    if b.len() == 0 {
        assert(a + b =~= a);
    } else {
        newlines_join(a, b.drop_last());
        assert((a + b).drop_last() =~= a + b.drop_last());
    }
}

/// Cells that a tab at `column` takes to the next four-column stop.
fn tab_advance(column: usize) -> (width: usize)
    ensures
        width == tab_width(column as int),
{
    4 - column % 4
}

/// A typed character goes again with one backspace, except where a newline was
/// typed behind a `\r` and the two have become one line end.
pub proof fn backspace_undoes_typing(before: Seq<char>, ch: char)
    requires
        !(ch == '\n' && before.len() > 0 && before.last() == '\r'),
    ensures
        before.push(ch).take(before.push(ch).len() - step_back(before.push(ch))) == before,
{
    assert(before.push(ch).take(before.len() as int) =~= before);
}

/// A line end goes again with one backspace, whatever its style.
pub proof fn backspace_undoes_a_newline(before: Seq<char>, style: NewlineStyle)
    requires
        style == NewlineStyle::Lf ==> !(before.len() > 0 && before.last() == '\r'),
    ensures
        ({
            let typed = before + newline_chars(style);
            typed.take(typed.len() - step_back(typed)) == before
        }),
{
    let typed = before + newline_chars(style);
    assert(typed.take(before.len() as int) =~= before);
}

/// A step to the right undoes a step to the left, except where the cursor stood
/// inside a `\r\n`.
pub proof fn stepping_right_undoes_stepping_left(before: Seq<char>, after: Seq<char>)
    requires
        !(before.len() > 0 && before.last() == '\r' && after.len() > 0 && after[0] == '\n'),
    ensures
        ({
            let rest = before.skip(before.len() - step_back(before)) + after;
            before.len() > 0 ==> step_ahead(rest) == step_back(before) && rest.skip(step_ahead(rest)) == after
        }),
{
    let rest = before.skip(before.len() - step_back(before)) + after;
    assert(rest.skip(step_back(before)) =~= after);
}

/// Cutting back inside the last line leaves the lines before it alone.
proof fn cutting_the_last_line(text: Seq<char>, keep: int)
    requires
        0 <= keep <= last_line(text).len(),
    ensures
        ({
            let cut = text.take(text.len() - last_line(text).len() + keep);
            newlines(cut) == newlines(text) && last_line(cut) == last_line(text).take(keep)
        }),
    decreases text.len(),
{
    line_bounds(text);
    let len = last_line(text).len();
    if keep == len {
        assert(text.take(text.len() as int) =~= text);
        assert(last_line(text).take(keep) =~= last_line(text));
    } else {
        let shorter = text.drop_last();
        cutting_the_last_line(shorter, keep);
        assert(text.take(text.len() - len + keep) =~= shorter.take(
            shorter.len() - last_line(shorter).len() + keep,
        ));
        assert(last_line(text).take(keep) =~= last_line(shorter).take(keep));
    }
}

proof fn reach_fills_columns(line: Seq<char>, count: int)
    requires
        count >= 0,
    ensures
        columns(line.take(reach(line, count))) == if count <= columns(line) {
            count
        } else {
            columns(line) as int
        },
    decreases line.len(),
{
    reach_is_within(line, count);
    if line.len() > 0 && columns(line) > count {
        reach_fills_columns(line.drop_last(), count);
        reach_is_within(line.drop_last(), count);
        assert(line.drop_last().take(reach(line, count)) =~= line.take(reach(line, count)));
    } else {
        assert(line.take(line.len() as int) =~= line);
    }
}

/// A vertical move stays inside the text.
pub proof fn vertical_target_is_within(text: Seq<char>, target: int, column: int)
    requires
        target >= 0,
    ensures
        0 <= vertical_target(text, target, column) <= text.len(),
{
    line_span_is_ordered(text, target);
    reach_is_within(line_of(text, target), column);
}

/// A vertical move lands on the line it aims for, in the column it came from, or
/// in the last one of a shorter line.
pub proof fn vertical_move_keeps_the_column(text: Seq<char>, target: int, column: int)
    requires
        0 <= target <= newlines(text),
        0 <= column,
    ensures
        ({
            let before = text.take(vertical_target(text, target, column));
            &&& newlines(before) == target
            &&& columns(last_line(before)) == if column <= columns(line_of(text, target)) {
                column
            } else {
                columns(line_of(text, target)) as int
            }
        }),
{
    let through = through_line(text, target);
    let line = last_line(through);
    let part = line_of(text, target);
    let k = reach(part, column);
    through_line_is_prefix(text, target);
    line_bounds(through);
    line_span_is_ordered(text, target);
    reach_is_within(part, column);
    reach_fills_columns(part, column);
    cutting_the_last_line(through, k);
    assert(text.take(vertical_target(text, target, column)) =~= through.take(
        through.len() - line.len() + k,
    ));
    assert(part =~= line.take(part.len() as int)) by {
        assert forall|i: int| 0 <= i < part.len() implies part[i] == line[i] by {
            assert(part[i] == text[line_span(text, target).0 + i]);
            assert(line[i] == through.skip(through.len() - line.len())[i]);
        }
    }
    assert(line.take(k) =~= part.take(k));
}

/// Whatever a document holds, the display is given printable ASCII.
pub proof fn shown_text_is_ascii(line: Seq<char>)
    ensures
        forall|i: int| 0 <= i < expanded(line).len() ==> ' ' <= #[trigger] expanded(line)[i] <= '~',
    decreases line.len(),
{
    if line.len() > 0 {
        shown_text_is_ascii(line.drop_last());
        let front = expanded(line.drop_last());
        assert forall|i: int| 0 <= i < expanded(line).len() implies ' ' <= #[trigger] expanded(
            line,
        )[i] <= '~' by {
            if i < front.len() {
                assert(expanded(line)[i] == front[i]);
            }
        }
    }
}

/// The cursor stands in the cell after the text before it.
pub proof fn cells_are_counted_as_shown(line: Seq<char>)
    ensures
        cells(line) == expanded(line).len(),
    decreases line.len(),
{
    if line.len() > 0 {
        cells_are_counted_as_shown(line.drop_last());
    }
}

} // verus!
