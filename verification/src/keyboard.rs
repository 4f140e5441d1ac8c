//! The on-screen keyboard.
use vstd::prelude::*;
use vstd::string::StrSliceExecFns;

verus! {

#[derive(Clone, Copy, Debug, PartialEq, Eq, Structural)]
pub enum KeyboardPage {
    Lower,
    Upper,
    Symbols,
}

#[derive(Clone, Copy, Debug, PartialEq, Eq, Structural)]
pub enum Key {
    Character(char),
    Case,
    Page,
    Space,
    Backspace,
    Delete,
    Enter,
}

/// Three rows of ten characters and a row of six function keys, with one key
/// selected.
pub struct Keyboard {
    pub page: KeyboardPage,
    pub row: usize,
    pub column: usize,
}

/// Keys in `row`.
pub open spec fn keys_in_row(row: int) -> int {
    if row < 3 { 10 } else { 6 }
}

/// The characters of `row` on `page`; rows past the third repeat the third.
pub open spec fn row_chars(page: KeyboardPage, row: int) -> Seq<char> {
    match page {
        KeyboardPage::Lower => if row == 0 {
            "qwertyuiop"@
        } else if row == 1 {
            "asdfghjkl;"@
        } else {
            "zxcvbnm,./"@
        },
        KeyboardPage::Upper => if row == 0 {
            "QWERTYUIOP"@
        } else if row == 1 {
            "ASDFGHJKL:"@
        } else {
            "ZXCVBNM?!\""@
        },
        KeyboardPage::Symbols => if row == 0 {
            "1234567890"@
        } else if row == 1 {
            "-_=+[]{}()"@
        } else {
            "@#$%^&*'`~"@
        },
    }
}

/// The function key in `column`; columns past the last repeat it.
pub open spec fn function_key(column: int) -> Key {
    if column == 0 {
        Key::Case
    } else if column == 1 {
        Key::Page
    } else if column == 2 {
        Key::Space
    } else if column == 3 {
        Key::Backspace
    } else if column == 4 {
        Key::Delete
    } else {
        Key::Enter
    }
}

/// The key at `row` and `column`.
pub open spec fn key_on(page: KeyboardPage, row: int, column: int) -> Key {
    if row == 3 {
        function_key(column)
    } else {
        Key::Character(row_chars(page, row)[if column <= 9 { column } else { 9 }])
    }
}

/// What a key shows.
pub open spec fn key_label(key: Key) -> Seq<char> {
    match key {
        Key::Character(ch) => seq![ch],
        Key::Case => "CASE"@,
        Key::Page => "PAGE"@,
        Key::Space => "SP"@,
        Key::Backspace => "BS"@,
        Key::Delete => "DEL"@,
        Key::Enter => "ENT"@,
    }
}

/// The page that follows when `key` is pressed.
pub open spec fn page_after(page: KeyboardPage, key: Key) -> KeyboardPage {
    match (key, page) {
        (Key::Case, KeyboardPage::Lower) => KeyboardPage::Upper,
        (Key::Case, _) => KeyboardPage::Lower,
        (Key::Page, KeyboardPage::Lower) => KeyboardPage::Upper,
        (Key::Page, KeyboardPage::Upper) => KeyboardPage::Symbols,
        (Key::Page, KeyboardPage::Symbols) => KeyboardPage::Lower,
        _ => page,
    }
}

/// A column of another row: the same one, or that row's last.
pub open spec fn column_in(row: int, column: int) -> int {
    if column < keys_in_row(row) { column } else { keys_in_row(row) - 1 }
}

/// The column to the left in `row`, around its end.
pub open spec fn column_left(row: int, column: int) -> int {
    (column + keys_in_row(row) - 1) % keys_in_row(row)
}

/// The column to the right in `row`, around its end.
pub open spec fn column_right(row: int, column: int) -> int {
    (column + 1) % keys_in_row(row)
}

/// The row above, around the edge.
pub open spec fn row_up(row: int) -> int {
    (row + 3) % 4
}

/// The row below, around the edge.
pub open spec fn row_down(row: int) -> int {
    (row + 1) % 4
}

/// A key exists at `row` and `column`.
pub open spec fn on_keyboard(row: int, column: int) -> bool {
    0 <= row < 4 && 0 <= column < keys_in_row(row)
}

proof fn rows_hold_ten(page: KeyboardPage, row: int)
    ensures
        row_chars(page, row).len() == 10,
{
    reveal_strlit("qwertyuiop");
    reveal_strlit("asdfghjkl;");
    reveal_strlit("zxcvbnm,./");
    reveal_strlit("QWERTYUIOP");
    reveal_strlit("ASDFGHJKL:");
    reveal_strlit("ZXCVBNM?!\"");
    reveal_strlit("1234567890");
    reveal_strlit("-_=+[]{}()");
    reveal_strlit("@#$%^&*'`~");
}

impl Keyboard {
    /// Small letters, with the first key selected.
    pub fn new() -> (keyboard: Self)
        ensures
            keyboard.page == KeyboardPage::Lower,
            keyboard.row == 0,
            keyboard.column == 0,
    {
        Keyboard { page: KeyboardPage::Lower, row: 0, column: 0 }
    }

    /// The selected key.
    pub fn selected(&self) -> (key: Key)
        ensures
            key == key_on(self.page, self.row as int, self.column as int),
    {
        self.key_at(self.row, self.column)
    }

    /// Number of keys in `row`.
    pub fn row_len(&self, row: usize) -> (len: usize)
        ensures
            len == keys_in_row(row as int),
    {
        if row < 3 {
            10
        } else {
            6
        }
    }

    /// The key at `row` and `column`.
    pub fn key_at(&self, row: usize, column: usize) -> (key: Key)
        ensures
            key == key_on(self.page, row as int, column as int),
    {
        if row == 3 {
            return match column {
                0 => Key::Case,
                1 => Key::Page,
                2 => Key::Space,
                3 => Key::Backspace,
                4 => Key::Delete,
                _ => Key::Enter,
            };
        }
        let chars = match self.page {
            KeyboardPage::Lower => if row == 0 {
                "qwertyuiop"
            } else if row == 1 {
                "asdfghjkl;"
            } else {
                "zxcvbnm,./"
            },
            KeyboardPage::Upper => if row == 0 {
                "QWERTYUIOP"
            } else if row == 1 {
                "ASDFGHJKL:"
            } else {
                "ZXCVBNM?!\""
            },
            KeyboardPage::Symbols => if row == 0 {
                "1234567890"
            } else if row == 1 {
                "-_=+[]{}()"
            } else {
                "@#$%^&*'`~"
            },
        };
        proof {
            rows_hold_ten(self.page, row as int);
        }
        Key::Character(chars.get_char(if column <= 9 { column } else { 9 }))
    }

    /// What the key at `row` and `column` shows.
    pub fn label(&self, row: usize, column: usize) -> (label: String)
        ensures
            label@ == key_label(key_on(self.page, row as int, column as int)),
    {
        match self.key_at(row, column) {
            Key::Character(ch) => {
                let mut label = String::new();
                label.push(ch);
                assert(label@ =~= seq![ch]);
                label
            },
            Key::Case => "CASE".to_owned(),
            Key::Page => "PAGE".to_owned(),
            Key::Space => "SP".to_owned(),
            Key::Backspace => "BS".to_owned(),
            Key::Delete => "DEL".to_owned(),
            Key::Enter => "ENT".to_owned(),
        }
    }

    /// One key to the left; the first leads to the row's last.
    pub fn move_left(&mut self)
        requires
            old(self).column + 10 <= usize::MAX,
        ensures
            final(self).page == old(self).page,
            final(self).row == old(self).row,
            final(self).column == column_left(old(self).row as int, old(self).column as int),
    {
        let len = self.row_len(self.row);
        self.column = (self.column + len - 1) % len;
    }

    /// One key to the right; the row's last leads to the first.
    pub fn move_right(&mut self)
        requires
            old(self).column < usize::MAX,
        ensures
            final(self).page == old(self).page,
            final(self).row == old(self).row,
            final(self).column == column_right(old(self).row as int, old(self).column as int),
    {
        self.column = (self.column + 1) % self.row_len(self.row);
    }

    /// One row up; the first leads to the last.
    pub fn move_up(&mut self)
        requires
            old(self).row + 3 <= usize::MAX,
        ensures
            final(self).page == old(self).page,
            final(self).row == row_up(old(self).row as int),
            final(self).column == column_in(row_up(old(self).row as int), old(self).column as int),
    {
        self.row = (self.row + 3) % 4;
        let last = self.row_len(self.row) - 1;
        self.column = if self.column <= last { self.column } else { last };
    }

    /// One row down; the last leads to the first.
    pub fn move_down(&mut self)
        requires
            old(self).row < usize::MAX,
        ensures
            final(self).page == old(self).page,
            final(self).row == row_down(old(self).row as int),
            final(self).column == column_in(row_down(old(self).row as int), old(self).column as int),
    {
        self.row = (self.row + 1) % 4;
        let last = self.row_len(self.row) - 1;
        self.column = if self.column <= last { self.column } else { last };
    }

    /// Turn the page where `key` says so.
    pub fn activate_meta(&mut self, key: Key)
        ensures
            final(self).page == page_after(old(self).page, key),
            final(self).row == old(self).row,
            final(self).column == old(self).column,
    {
        self.page = match key {
            Key::Case => match self.page {
                KeyboardPage::Lower => KeyboardPage::Upper,
                _ => KeyboardPage::Lower,
            },
            Key::Page => match self.page {
                KeyboardPage::Lower => KeyboardPage::Upper,
                KeyboardPage::Upper => KeyboardPage::Symbols,
                KeyboardPage::Symbols => KeyboardPage::Lower,
            },
            _ => self.page,
        };
    }
}

impl Default for Keyboard {
    fn default() -> (keyboard: Self)
        ensures
            keyboard.page == KeyboardPage::Lower,
            keyboard.row == 0,
            keyboard.column == 0,
    {
        Keyboard::new()
    }
}

/// Turning the page three times leads back.
pub proof fn pages_go_round(page: KeyboardPage)
    ensures
        page_after(page_after(page_after(page, Key::Page), Key::Page), Key::Page) == page,
{
}

/// No move leaves the keyboard.
pub proof fn moves_stay_on_the_keyboard(row: int, column: int)
    requires
        on_keyboard(row, column),
    ensures
        on_keyboard(row, column_left(row, column)),
        on_keyboard(row, column_right(row, column)),
        on_keyboard(row_up(row), column_in(row_up(row), column)),
        on_keyboard(row_down(row), column_in(row_down(row), column)),
{
}

/// Left undoes right and right undoes left; up and down undo each other's row.
pub proof fn moves_undo_each_other(row: int, column: int)
    requires
        on_keyboard(row, column),
    ensures
        column_left(row, column_right(row, column)) == column,
        column_right(row, column_left(row, column)) == column,
        row_up(row_down(row)) == row,
        row_down(row_up(row)) == row,
{
}

/// The characters of one row differ, and are printable ASCII other than the space.
proof fn rows_hold_different_characters(page: KeyboardPage, row: int)
    requires
        0 <= row < 3,
    ensures
        row_chars(page, row).len() == 10,
        forall|a: int, b: int|
            0 <= a < b < 10 ==> #[trigger] row_chars(page, row)[a] != #[trigger] row_chars(page, row)[b],
        forall|a: int| 0 <= a < 10 ==> '!' <= #[trigger] row_chars(page, row)[a] <= '~',
{
    reveal_strlit("qwertyuiop");
    reveal_strlit("asdfghjkl;");
    reveal_strlit("zxcvbnm,./");
    reveal_strlit("QWERTYUIOP");
    reveal_strlit("ASDFGHJKL:");
    reveal_strlit("ZXCVBNM?!\"");
    reveal_strlit("1234567890");
    reveal_strlit("-_=+[]{}()");
    reveal_strlit("@#$%^&*'`~");
}

/// Two rows of a page have no character in common.
proof fn rows_share_no_character(page: KeyboardPage, r: int, s: int)
    requires
        0 <= r < s < 3,
    ensures
        forall|a: int, b: int|
            0 <= a < 10 && 0 <= b < 10 ==> #[trigger] row_chars(page, r)[a] != #[trigger] row_chars(
                page,
                s,
            )[b],
{
    reveal_strlit("qwertyuiop");
    reveal_strlit("asdfghjkl;");
    reveal_strlit("zxcvbnm,./");
    reveal_strlit("QWERTYUIOP");
    reveal_strlit("ASDFGHJKL:");
    reveal_strlit("ZXCVBNM?!\"");
    reveal_strlit("1234567890");
    reveal_strlit("-_=+[]{}()");
    reveal_strlit("@#$%^&*'`~");
}

/// No page holds a key twice.
pub proof fn keys_of_a_page_differ(page: KeyboardPage, r: int, c: int, s: int, d: int)
    requires
        on_keyboard(r, c),
        on_keyboard(s, d),
        (r, c) != (s, d),
    ensures
        key_on(page, r, c) != key_on(page, s, d),
{
    if r < 3 && s < 3 {
        rows_hold_different_characters(page, r);
        rows_hold_different_characters(page, s);
        if r < s {
            rows_share_no_character(page, r, s);
            assert(row_chars(page, r)[c] != row_chars(page, s)[d]);
        } else if s < r {
            rows_share_no_character(page, s, r);
            assert(row_chars(page, s)[d] != row_chars(page, r)[c]);
        } else {
            assert(row_chars(page, r)[c] != row_chars(page, s)[d]);
        }
    }
}

/// The first three rows type printable characters other than the space; the last one holds
/// the same function keys on every page.
pub proof fn rows_have_their_keys(page: KeyboardPage, row: int, column: int)
    requires
        on_keyboard(row, column),
    ensures
        row < 3 ==> (key_on(page, row, column) matches Key::Character(ch) && '!' <= ch <= '~'),
        row == 3 ==> key_on(page, row, column) == seq![
            Key::Case,
            Key::Page,
            Key::Space,
            Key::Backspace,
            Key::Delete,
            Key::Enter,
        ][column],
{
    if row < 3 {
        rows_hold_different_characters(page, row);
        assert('!' <= row_chars(page, row)[column] <= '~');
    }
}

} // verus!
