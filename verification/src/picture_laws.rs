//! What the pictures show of what the device holds.
use vstd::prelude::*;

use crate::card::ItemView;
use crate::device::BatteryStatus;
use crate::editor::{
    cells, expanded, last_line, line_of, newlines, cells_are_counted_as_shown,
};
use crate::explorer::Explorer;
use crate::keyboard::{key_label, key_on, Key, Keyboard};
use crate::notice::{notice_text, Notice};
use crate::path_laws::ends_in;
use crate::picker::MovePicker;
use crate::screens::{
    ActionChoice, ActionMenu, DeleteChoice, Editor, EditorMedia, ExitChoice, NameEntry, NameMode,
    NewChoice, NewMenu, Screen,
};
use crate::text::decimal_text;
use crate::view::{
    content_view, editor_row, editor_rows, editor_status_text, editor_view, entries_view,
    entry_text, entry_view, folders_view, frame_view, header_view, key_row_view, keyboard_view,
    size_text, truncated, Area, Style, Tone, WidgetView,
};

verus! {

/// A line of text stands in row `y`, the whole width of the display.
pub open spec fn stands_in_row(
    widgets: Seq<WidgetView>,
    y: int,
    text: Seq<char>,
    style: Style,
) -> bool {
    exists|k: int|
        0 <= k < widgets.len() && (#[trigger] widgets[k] matches WidgetView::Text {
            area,
            text: shown,
            style: own,
            ..
        } && area.x == 0 && area.y == y && area.width == 32 && area.height == 1 && shown == text
            && own == style)
}

/// A row that is picked out from the others.
pub open spec fn picked_out(style: Style) -> bool {
    style.bg == Some(Tone::Cyan)
}

/// What a row of the explorer says of an entry: its name from the third character on, behind
/// a mark for folders and one for hidden and system entries.
pub open spec fn row_says(text: Seq<char>, item: ItemView) -> bool {
    &&& text.len() >= 24
    &&& text[0] == if item.is_dir {
        '>'
    } else {
        ' '
    }
    &&& text[1] == if item.hidden || item.system {
        '*'
    } else {
        ' '
    }
    &&& item.name.len() <= 22 ==> text.subrange(2, 2 + item.name.len() as int) == item.name
    &&& item.name.len() > 22 ==> text.subrange(2, 23) == item.name.take(21) && text[23] == '~'
}

proof fn rows_say_what_they_show(item: ItemView)
    ensures
        row_says(entry_text(item), item),
{
    reveal_strlit(">");
    reveal_strlit(" ");
    reveal_strlit("*");
    let text = entry_text(item);
    if item.name.len() <= 22 {
        assert(text.subrange(2, 2 + item.name.len() as int) =~= item.name);
    } else {
        assert(text.subrange(2, 23) =~= item.name.take(21));
    }
}

/// The explorer shows each entry of its page in its own row, from the third row on, and picks
/// out the one that is selected and no other. Above them stands the path.
pub proof fn explorers_show_their_rows(explorer: Explorer, battery_shown: bool, i: int)
    requires
        explorer.entries@.len() <= 8,
        0 <= i < explorer.entries@.len(),
    ensures
        ({
            let widgets = content_view(Screen::Explorer(explorer), battery_shown);
            &&& widgets[3 + i] matches WidgetView::Text { area, text, style, wrap, .. } && {
                &&& area == Area { x: 0, y: (2 + i) as u16, width: 32, height: 1 }
                &&& row_says(text, explorer.entries@[i]@)
                &&& picked_out(style) <==> i == explorer.selected
                &&& !wrap
            }
            &&& explorer.path@.len() <= 32 ==> stands_in_row(
                widgets,
                1,
                explorer.path@,
                Style { fg: Some(Tone::DarkGray), bg: None, bold: false },
            )
        }),
{
    let e = explorer@;
    let widgets = content_view(Screen::Explorer(explorer), battery_shown);
    let rows = entries_view(e.entries, e.selected);
    assert(e.entries[i] == explorer.entries@[i]@);
    rows_say_what_they_show(e.entries[i]);
    assert(rows[i] == entry_view(e.entries[i], i, e.selected));
    assert(widgets[3 + i] == rows[i]);
    assert(widgets[2] is Text);
}

/// Under the rows stands the message, or else the place of the selected entry among all.
pub proof fn explorers_show_their_status(explorer: Explorer, battery_shown: bool)
    requires
        explorer.entries@.len() > 0,
        explorer.offset + explorer.selected < usize::MAX,
    ensures
        ({
            let widgets = content_view(Screen::Explorer(explorer), battery_shown);
            let n = 3 + explorer.entries@.len() as int;
            &&& explorer.status matches Some(notice) ==> (widgets[n] matches WidgetView::Text {
                area,
                text,
                ..
            } && area.y == 10 && (notice_text(notice).len() <= 32 ==> text == notice_text(notice)))
            &&& explorer.status is None && explorer.free_bytes is None && explorer.total > 0 ==> (
            widgets[n] matches WidgetView::Text { area, text, .. } && area.y == 10 && text
                == decimal_text((explorer.offset + explorer.selected + 1) as nat) + "/"@
                + decimal_text(explorer.total as nat))
            &&& explorer.status is None && explorer.free_bytes is Some ==> (
            widgets[n] matches WidgetView::Text { area, text, .. } && area.y == 10 && text
                == size_text(explorer.free_bytes->0 as nat) + " free"@)
        }),
{
    let e = explorer@;
    let widgets = content_view(Screen::Explorer(explorer), battery_shown);
    let rows = entries_view(e.entries, e.selected);
    assert(rows.len() == explorer.entries@.len());
}

/// What the three buttons on top do stands under each, from left to right.
pub open spec fn footer_says(
    widgets: Seq<WidgetView>,
    at: int,
    left: Seq<char>,
    middle: Seq<char>,
    right: Seq<char>,
) -> bool {
    &&& widgets[at] matches WidgetView::Text { area: a, text, .. } && a.y == 11 && a.x == 0 && text
        == left
    &&& widgets[at + 1] matches WidgetView::Text { area: b, text, .. } && b.y == 11 && b.x == 10
        && text == middle
    &&& widgets[at + 2] matches WidgetView::Text { area: c, text, .. } && c.y == 11 && c.x == 21
        && text == right
}

/// The words for the three buttons on top tell what they do.
pub proof fn buttons_are_explained(screen: Screen, battery_shown: bool)
    requires
        !(screen is ExitPrompt),
    ensures
        ({
            let widgets = content_view(screen, battery_shown);
            let n = widgets.len() as int;
            &&& screen matches Screen::Explorer(_) ==> footer_says(
                widgets,
                n - 3,
                "UP"@,
                "NEW"@,
                "ACTIONS"@,
            )
            &&& screen is NewMenu || screen is ActionMenu || screen is DeletePrompt ==> footer_says(
                widgets,
                n - 3,
                "CANCEL"@,
                "SELECT"@,
                "SELECT"@,
            )
            &&& screen is MovePicker ==> footer_says(
                widgets,
                n - 3,
                "CANCEL"@,
                "MOVE HERE"@,
                "REFRESH"@,
            )
            &&& screen matches Screen::Editor(editor) ==> editor.media == EditorMedia::Ready
                ==> footer_says(widgets, n - 3, "EXIT"@, "KEYBOARD"@, "SAVE"@)
        }),
{
    if let Screen::Explorer(explorer) = screen {
        let rows = entries_view(explorer@.entries, explorer@.selected);
    }
}

/// The menu of actions names the entry it is for, lists the actions in order, and picks out
/// the one that is chosen.
pub proof fn action_menus_show_the_choice(menu: ActionMenu, battery_shown: bool)
    ensures
        ({
            let widgets = content_view(Screen::ActionMenu(menu), battery_shown);
            &&& choice_shown(widgets[3], 3, "Rename"@, menu.choice == ActionChoice::Rename)
            &&& choice_shown(widgets[4], 5, "Move"@, menu.choice == ActionChoice::Move)
            &&& choice_shown(widgets[5], 7, "Delete"@, menu.choice == ActionChoice::Delete)
            &&& choice_shown(widgets[6], 9, "Refresh"@, menu.choice == ActionChoice::Refresh)
            &&& menu.item matches Some(item) ==> item.name@.len() <= 32 ==> (
            widgets[2] matches WidgetView::Text { text, .. } && text == item.name@)
        }),
{
}

/// A line of a menu, picked out if it is the one that is chosen.
pub open spec fn choice_shown(widget: WidgetView, y: int, label: Seq<char>, chosen: bool) -> bool {
    widget matches WidgetView::Text { area, text, style, .. } && area.y == y && text == label && (
    picked_out(style) <==> chosen)
}

/// The other menus and questions pick out what is chosen, too.
pub proof fn questions_show_the_choice(
    menu: NewMenu,
    prompt: Screen,
    battery_shown: bool,
)
    ensures
        ({
            let widgets = content_view(Screen::NewMenu(menu), battery_shown);
            &&& choice_shown(
                widgets[2],
                3,
                "Text file (.txt)"@,
                menu.choice == NewChoice::TextFile,
            )
            &&& choice_shown(widgets[3], 5, "Folder"@, menu.choice == NewChoice::Folder)
        }),
        prompt matches Screen::DeletePrompt { item, choice, .. } ==> {
            let widgets = content_view(prompt, battery_shown);
            &&& choice_shown(widgets[4], 6, "Cancel"@, choice == DeleteChoice::Cancel)
            &&& choice_shown(widgets[5], 8, "Delete"@, choice == DeleteChoice::Delete)
            &&& item.name@.len() <= 32 ==> (widgets[2] matches WidgetView::Text { text, .. } && text
                == item.name@)
        },
        prompt matches Screen::FormatPrompt { reason, cancelled, .. } ==> {
            let widgets = content_view(prompt, battery_shown);
            widgets[1] matches WidgetView::Text { text, .. } && text == reason@
        },
        prompt matches Screen::Fatal(message) ==> {
            let widgets = content_view(prompt, battery_shown);
            widgets[1] matches WidgetView::Text { text, .. } && text == message@
        },
{
}

/// The folder picker shows the folders it offers, each in its own row, and picks out the one
/// that is selected.
pub proof fn pickers_show_their_folders(picker: MovePicker, battery_shown: bool, i: int)
    requires
        picker.entries@.len() <= 8,
        0 <= i < picker.entries@.len(),
    ensures
        ({
            let widgets = content_view(Screen::MovePicker(picker), battery_shown);
            widgets[3 + i] matches WidgetView::Text { area, text, style, .. } && {
                &&& area.y == 2 + i
                &&& picker.entries@[i].name@.len() <= 28 ==> text == "> "@ + picker.entries@[i].name@
                &&& picked_out(style) <==> i == picker.selected
            }
        }),
{
    let p = picker@;
    let widgets = content_view(Screen::MovePicker(picker), battery_shown);
    let rows = folders_view(p.entries, p.selected);
    assert(p.entries[i] == picker.entries@[i]@);
    assert(widgets[3 + i] == rows[i]);
}

/// While a name is entered it is shown whole, with a mark where the cursor is.
pub proof fn names_are_shown_with_their_cursor(entry: NameEntry, battery_shown: bool)
    requires
        entry.cursor <= entry.name@.len() <= 12,
    ensures
        ({
            let widgets = content_view(Screen::Naming(entry), battery_shown);
            widgets[3] matches WidgetView::Text { area, text, .. } && area.y == 3 && text
                == entry.name@.take(entry.cursor as int).push('|') + entry.name@.skip(
                entry.cursor as int,
            )
        }),
{
    let n = entry@;
    let widgets = content_view(Screen::Naming(entry), battery_shown);
    let marked = n.name.insert(n.cursor, '|');
    assert(marked =~= n.name.take(n.cursor).push('|') + n.name.skip(n.cursor));
    assert(marked.subrange(0, marked.len() as int) =~= marked);
    assert(widgets[3] is Text);
}

/// The editor shows the lines of the document from the first visible one on, each from the
/// first visible cell on and as far as it fits. The one with the cursor has a mark in the
/// cursor's cell, and no other has.
pub proof fn editors_show_their_lines(editor: Editor, battery_shown: bool, r: int)
    requires
        0 <= r < if editor.keyboard_visible {
            5int
        } else {
            9
        },
        editor.scroll_line + r <= newlines(editor.buffer.text()),
    ensures
        ({
            let widgets = content_view(Screen::Editor(editor), battery_shown);
            let index = editor.scroll_line + r;
            let first = editor.horizontal as int;
            let whole = expanded(line_of(editor.buffer.text(), index));
            let at = cells(last_line(editor.buffer.before())) - first;
            let marked = index == newlines(editor.buffer.before()) && 0 <= at < 32;
            widgets[2 + r] matches WidgetView::Text { area, text, .. } && {
                &&& area.y == 1 + r
                &&& !marked && first + 32 <= whole.len() ==> text == whole.subrange(
                    first,
                    first + 32,
                )
                &&& !marked && first <= whole.len() < first + 32 ==> text == whole.skip(first)
                &&& !marked && first > whole.len() ==> text.len() == 0
                &&& marked ==> at < text.len() && text[at] == '|'
                &&& forall|c: int|
                    0 <= c < text.len() && first + c < whole.len() && !(marked && c == at)
                        ==> #[trigger] text[c] == whole[first + c]
            }
        }),
{
    let widgets = content_view(Screen::Editor(editor), battery_shown);
    let rows = editor_rows(editor);
    let index = editor.scroll_line + r;
    let first = editor.horizontal as int;
    let whole = expanded(line_of(editor.buffer.text(), index));
    assert(rows[r] == editor_row(editor, r));
    assert(widgets[2 + r] == rows[r]);
    if first <= whole.len() {
        assert(whole.subrange(first, whole.len() as int) =~= whole.skip(first));
    }
    cells_are_counted_as_shown(last_line(editor.buffer.before()));
}

/// A text that is too long for its place keeps its beginning, and a mark shows that it goes on.
/// One that fits is not changed.
pub proof fn long_texts_are_cut(text: Seq<char>, width: int)
    requires
        width >= 1,
    ensures
        text.len() <= width ==> truncated(text, width) == text,
        text.len() > width ==> truncated(text, width).len() == width && truncated(text, width).last()
            == '~' && truncated(text, width).drop_last() == text.take(width - 1),
{
    if text.len() > width {
        assert(truncated(text, width).drop_last() =~= text.take(width - 1));
    }
}

/// The size of a file stands at the end of its row; a folder has none.
pub proof fn rows_end_in_the_size(item: ItemView)
    ensures
        entry_text(item).len() >= 30,
        !item.is_dir ==> ends_in(entry_text(item), size_text(item.size as nat)),
        item.is_dir ==> forall|i: int|
            24 <= i < entry_text(item).len() ==> #[trigger] entry_text(item)[i] == ' ',
{
    reveal_strlit(">");
    reveal_strlit(" ");
    reveal_strlit("*");
    let text = entry_text(item);
    if !item.is_dir {
        let size = size_text(item.size as nat);
        assert(text.skip(text.len() - size.len()) =~= size);
    }
}

/// The words on the function keys: the case of the letters, the page, a blank, the two ways to
/// erase, and the end of a line.
pub proof fn function_keys_are_labelled(k: Keyboard, y: int, column: int)
    requires
        0 <= y <= 8,
        0 <= column < 6,
    ensures
        keyboard_view(k, y)[3] matches WidgetView::Spans { spans, .. } && holds_text(
            spans[column].text,
            seq!["CASE"@, "PAGE"@, "SP"@, "BS"@, "DEL"@, "ENT"@][column],
        ),
{
    reveal_strlit("CASE");
    reveal_strlit("PAGE");
    reveal_strlit("SP");
    reveal_strlit("BS");
    reveal_strlit("DEL");
    reveal_strlit("ENT");
    let label = key_label(key_on(k.page, 3, column));
    let shown = keyboard_view(k, y)[3]->Spans_spans[column].text;
    assert(keyboard_view(k, y)[3] == key_row_view(k, 3, y));
    let front = shown.len() - label.len();
    let start = front / 2;
    assert(shown.subrange(start, start + label.len()) =~= label);
}

/// A text that has `part` somewhere in it.
pub open spec fn holds_text(text: Seq<char>, part: Seq<char>) -> bool {
    exists|at: int|
        0 <= at <= text.len() - part.len() && #[trigger] text.subrange(at, at + part.len()) == part
}

/// While the device asks how to leave, a message stands in the box with the question.
pub proof fn leaving_shows_the_message(
    editor: Editor,
    choice: ExitChoice,
    battery_shown: bool,
    notice: Notice,
)
    requires
        editor.status == Some(notice),
        notice_text(notice).len() <= 30,
    ensures
        shows(
            content_view(Screen::ExitPrompt { editor, choice }, battery_shown),
            6,
            notice_text(notice),
        ),
{
    let widgets = content_view(Screen::ExitPrompt { editor, choice }, battery_shown);
    let n = editor_view(editor, false, battery_shown).len() as int;
    shown_at(widgets, n + 4, 6, notice_text(notice));
}

/// The title of the editor is the name of the document, with a star while there are changes
/// that were not saved.
pub proof fn editors_show_whether_they_are_saved(editor: Editor, battery_shown: bool)
    requires
        editor.name@.len() <= 15,
    ensures
        ({
            let widgets = content_view(Screen::Editor(editor), battery_shown);
            widgets[0] matches WidgetView::Text { area, text, .. } && area.y == 0 && area.x == 0
                && text == if editor.buffer.dirty() {
                editor.name@.push('*')
            } else {
                editor.name@
            }
        }),
{
    reveal_strlit("*");
    assert(editor.name@ + "*"@ =~= editor.name@.push('*'));
    assert(content_view(Screen::Editor(editor), battery_shown)[0] == header_view(
        if editor.buffer.dirty() {
            editor.name@ + "*"@
        } else {
            editor.name@
        },
        if editor.keyboard_visible {
            "KEYS"@
        } else {
            "MOVE"@
        },
        battery_shown,
    )[0]);
}

/// A text stands somewhere in row `y`.
pub open spec fn shows(widgets: Seq<WidgetView>, y: int, text: Seq<char>) -> bool {
    exists|k: int|
        0 <= k < widgets.len() && (#[trigger] widgets[k] matches WidgetView::Text {
            area,
            text: shown,
            ..
        } && area.y == y && shown == text)
}

proof fn shown_at(widgets: Seq<WidgetView>, k: int, y: int, text: Seq<char>)
    requires
        0 <= k < widgets.len(),
        widgets[k] matches WidgetView::Text { area, text: shown, .. } && area.y == y && shown == text,
    ensures
        shows(widgets, y, text),
{
}

/// Wherever there is a message, it is shown: in the tenth row of the picker, above the
/// keyboard of a name, and under the text in the editor.
pub proof fn messages_are_shown(screen: Screen, battery_shown: bool, notice: Notice)
    requires
        notice_text(notice).len() <= 32,
        screen matches Screen::MovePicker(picker) ==> picker.status == Some(notice),
        screen matches Screen::Naming(entry) ==> entry.status == Some(notice),
        screen matches Screen::Editor(editor) ==> editor.status == Some(notice),
        screen is MovePicker || screen is Naming || screen is Editor,
    ensures
        ({
            let widgets = content_view(screen, battery_shown);
            &&& screen is MovePicker ==> shows(widgets, 10, notice_text(notice))
            &&& screen is Naming ==> shows(widgets, 5, notice_text(notice))
            &&& screen matches Screen::Editor(editor) ==> shows(
                widgets,
                if editor.keyboard_visible {
                    6
                } else {
                    10
                },
                notice_text(notice),
            )
        }),
{
    let widgets = content_view(screen, battery_shown);
    let text = notice_text(notice);
    match screen {
        Screen::MovePicker(picker) => {
            let n = picker@.entries.len() as int;
            let k = 3 + n + if n == 0 {
                1int
            } else {
                0
            };
            assert(folders_view(picker@.entries, picker@.selected).len() == n);
            shown_at(widgets, k, 10, text);
        },
        Screen::Naming(entry) => {
            shown_at(widgets, 4, 5, text);
        },
        Screen::Editor(editor) => {
            let k = 2 + editor_rows(editor).len() as int;
            shown_at(
                widgets,
                k,
                if editor.keyboard_visible {
                    6
                } else {
                    10
                },
                text,
            );
        },
        _ => {},
    }
}

/// Without a message the editor shows where the cursor is, counted from one, and how much of
/// the document's room is taken.
pub proof fn editors_show_the_position(editor: Editor, battery_shown: bool)
    requires
        editor.status is None,
    ensures
        ({
            let widgets = content_view(Screen::Editor(editor), battery_shown);
            let words = "Ln "@ + decimal_text(newlines(editor.buffer.before()) + 1) + " Col "@
                + decimal_text((cells(last_line(editor.buffer.before())) + 1) as nat) + "  "@
                + decimal_text(vstd::utf8::encode_utf8(editor.buffer.text()).len()) + "/"@
                + decimal_text(32 * 1024);
            words.len() <= 32 ==> shows(
                widgets,
                if editor.keyboard_visible {
                    6
                } else {
                    10
                },
                words,
            )
        }),
{
    let widgets = content_view(Screen::Editor(editor), battery_shown);
    let words = editor_status_text(editor);
    cells_are_counted_as_shown(last_line(editor.buffer.before()));
    if words.len() <= 32 {
        shown_at(
            widgets,
            2 + editor_rows(editor).len() as int,
            if editor.keyboard_visible {
                6
            } else {
                10
            },
            words,
        );
    }
}

/// Over the text of a document whose card is not there stands a warning that it cannot be
/// saved, and over no other.
pub proof fn missing_cards_are_shown(editor: Editor, battery_shown: bool)
    ensures
        ({
            let widgets = content_view(Screen::Editor(editor), battery_shown);
            &&& editor.media == EditorMedia::Removed ==> shows(
                widgets,
                4,
                "SD removed\nReinsert original to save"@,
            )
            &&& editor.media == EditorMedia::Different ==> shows(
                widgets,
                4,
                "Different SD card\nSave disabled; exit/discard"@,
            )
            &&& editor.media == EditorMedia::Ready <==> !(widgets.last() matches WidgetView::Text {
                area,
                ..
            } && area.y == 4)
        }),
{
    let widgets = content_view(Screen::Editor(editor), battery_shown);
    let k = widgets.len() - 1;
    if editor.media == EditorMedia::Removed {
        shown_at(widgets, k, 4, "SD removed\nReinsert original to save"@);
    } else if editor.media == EditorMedia::Different {
        shown_at(widgets, k, 4, "Different SD card\nSave disabled; exit/discard"@);
    }
}

/// A question says what is at stake: that a whole folder would be deleted, that formatting
/// erases everything, and how it is confirmed or called off. The picker shows the folder to
/// which the entry would go.
pub proof fn questions_say_what_is_at_stake(screen: Screen, battery_shown: bool)
    ensures
        ({
            let widgets = content_view(screen, battery_shown);
            &&& screen matches Screen::DeletePrompt { item, .. } ==> shows(
                widgets,
                4,
                if item.is_dir {
                    "All contents will be deleted"@
                } else {
                    "This cannot be undone"@
                },
            )
            &&& screen matches Screen::FormatPrompt { cancelled, .. } ==> shows(
                widgets,
                7,
                "Formatting erases ALL data"@,
            ) && shows(
                widgets,
                10,
                if cancelled {
                    "Cancelled     RIGHT: retry"@
                } else {
                    "LEFT: cancel  Hold RIGHT 2s"@
                },
            )
            &&& screen matches Screen::MovePicker(picker) ==> (picker.path@.len() <= 32 ==> shows(
                widgets,
                1,
                picker.path@,
            ))
            &&& screen matches Screen::Naming(entry) ==> shows(
                widgets,
                0,
                match entry.mode {
                    NameMode::NewText => "NEW TEXT FILE"@,
                    NameMode::NewFolder => "NEW FOLDER"@,
                    NameMode::Rename => "RENAME"@,
                },
            )
            &&& screen is Missing ==> shows(widgets, 5, "Insert an SD card"@)
        }),
{
    let widgets = content_view(screen, battery_shown);
    match screen {
        Screen::DeletePrompt { item, .. } => {
            shown_at(
                widgets,
                3,
                4,
                if item.is_dir {
                    "All contents will be deleted"@
                } else {
                    "This cannot be undone"@
                },
            );
        },
        Screen::FormatPrompt { cancelled, .. } => {
            shown_at(widgets, 2, 7, "Formatting erases ALL data"@);
            shown_at(
                widgets,
                3,
                10,
                if cancelled {
                    "Cancelled     RIGHT: retry"@
                } else {
                    "LEFT: cancel  Hold RIGHT 2s"@
                },
            );
        },
        Screen::MovePicker(picker) => {
            if picker.path@.len() <= 32 {
                shown_at(widgets, 2, 1, picker.path@);
            }
        },
        Screen::Naming(entry) => {
            shown_at(
                widgets,
                0,
                0,
                match entry.mode {
                    NameMode::NewText => "NEW TEXT FILE"@,
                    NameMode::NewFolder => "NEW FOLDER"@,
                    NameMode::Rename => "RENAME"@,
                },
            );
        },
        Screen::Missing => {
            shown_at(widgets, 1, 5, "Insert an SD card"@);
        },
        _ => {},
    }
}

/// The question how to leave shows the three choices side by side and picks out the one that
/// is chosen.
pub proof fn leaving_shows_the_choice(editor: Editor, choice: ExitChoice, battery_shown: bool)
    ensures
        ({
            let widgets = content_view(Screen::ExitPrompt { editor, choice }, battery_shown);
            let n = editor_view(editor, false, battery_shown).len() as int;
            widgets[n + 3] matches WidgetView::Spans { spans, .. } && {
                &&& spans.len() == 3
                &&& spans[0].text == " SAVE "@ && (spans[0].style.bg == Some(Tone::Yellow)
                    <==> choice == ExitChoice::Save)
                &&& spans[1].text == " DISCARD "@ && (spans[1].style.bg == Some(Tone::Yellow)
                    <==> choice == ExitChoice::Discard)
                &&& spans[2].text == " CANCEL "@ && (spans[2].style.bg == Some(Tone::Yellow)
                    <==> choice == ExitChoice::Cancel)
            }
        }),
{
}

/// The keyboard shows on each key what it types, row under row, and picks out the selected
/// key alone.
pub proof fn keyboards_show_their_keys(k: Keyboard, y: int, row: int, column: int)
    requires
        0 <= row < 4,
        0 <= column < if row < 3 {
            10int
        } else {
            6
        },
        0 <= y <= 8,
    ensures
        keyboard_view(k, y)[row] matches WidgetView::Spans { area, spans } && {
            &&& area.y == y + row
            &&& column < spans.len()
            &&& spans[column].style.bg == Some(Tone::Green) <==> k.row == row && k.column == column
            &&& row < 3 ==> (key_on(k.page, row, column) matches Key::Character(ch)
                && spans[column].text.len() == 3 && spans[column].text[1] == ch)
        },
{
    let label = key_label(key_on(k.page, row, column));
    assert(keyboard_view(k, y)[row] == key_row_view(k, row, y));
}

/// The battery is shown in the corner, over everything else, with its percentage and whether
/// it charges.
pub proof fn the_battery_is_shown(screen: Screen, battery: BatteryStatus)
    ensures
        frame_view(content_view(screen, true), Some(battery)).last() matches WidgetView::Text {
            area,
            text,
            ..
        } && area.y == 0 && area.x == 24 && text == decimal_text(battery.percent as nat) + (
        if battery.charging {
            "% CHG"@
        } else {
            "% BAT"@
        }),
{
}

/// A size is shown in the largest unit that it reaches, rounded down. From a thousand million
/// bytes on there is one digit behind the point.
pub proof fn sizes_are_rounded_down(bytes: nat)
    ensures
        bytes < 1_000 ==> size_text(bytes) == decimal_text(bytes).push('B'),
        1_000 <= bytes < 1_000_000 ==> exists|n: nat|
            size_text(bytes) == #[trigger] decimal_text(n).push('K') && n * 1_000 <= bytes < (n + 1)
                * 1_000,
        1_000_000 <= bytes < 1_000_000_000 ==> exists|n: nat|
            size_text(bytes) == #[trigger] decimal_text(n).push('M') && n * 1_000_000 <= bytes < (n
                + 1) * 1_000_000,
        1_000_000_000 <= bytes ==> exists|n: nat, d: nat|
            size_text(bytes) == #[trigger] decimal_text(n) + "."@ + #[trigger] decimal_text(d) + "G"@
                && d < 10 && n * 1_000_000_000 + d * 100_000_000 <= bytes < n * 1_000_000_000 + (d
                + 1) * 100_000_000,
{
    reveal_strlit("B");
    reveal_strlit("K");
    reveal_strlit("M");
    if bytes < 1_000 {
        assert(size_text(bytes) =~= decimal_text(bytes).push('B'));
    } else if bytes < 1_000_000 {
        let n = bytes / 1_000;
        assert(size_text(bytes) =~= decimal_text(n).push('K'));
    } else if bytes < 1_000_000_000 {
        let n = bytes / 1_000_000;
        assert(size_text(bytes) =~= decimal_text(n).push('M'));
    } else {
        let tenths = bytes / 100_000_000;
        let n = tenths / 10;
        let d = tenths % 10;
        assert(size_text(bytes) == decimal_text(n) + "."@ + decimal_text(d) + "G"@);
    }
}

/// The number that decimal digits stand for.
pub open spec fn value_of(digits: Seq<char>) -> int
    decreases digits.len(),
{
    if digits.len() == 0 {
        0
    } else {
        10 * value_of(digits.drop_last()) + (digits.last() as u32 - '0' as u32)
    }
}

/// A number that is written out reads back as that number.
pub proof fn numbers_read_back(n: nat)
    ensures
        value_of(decimal_text(n)) == n,
        decimal_text(n).len() > 0,
    decreases n,
{
    reveal_with_fuel(value_of, 2);
    if n < 10 {
        let one = decimal_text(n);
        assert(one.drop_last() =~= Seq::empty());
        assert(one.last() as u32 == 48 + n);
    } else {
        numbers_read_back(n / 10);
        let front = decimal_text(n / 10);
        let all = decimal_text(n);
        assert(all.drop_last() =~= front);
        assert(all.last() as u32 == 48 + n % 10);
    }
}

} // verus!
