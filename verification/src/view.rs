//! What the screens look like: widgets with their places, texts and colours.
use vstd::prelude::*;

use crate::card::{DirectoryItem, ItemView};
use crate::device::BatteryStatus;
use crate::editor::{
    cells, expanded, last_line, line_of, newlines, spaces, window, MAX_DOCUMENT_BYTES,
};
use crate::explorer::{Explorer, ExplorerView};
use crate::keyboard::{key_label, key_on, keys_in_row, Keyboard};
use crate::naming::NameView;
use crate::notice::{notice_text, Notice};
use crate::picker::{MovePicker, PickerView};
use crate::screens::{
    visible_lines, ActionChoice, ActionMenu, DeleteChoice, Editor, EditorMedia, ExitChoice,
    NameEntry, NameMode, NewChoice, NewMenu, Screen,
};
use crate::text::{chars_of, decimal, decimal_text, joined, text_of};

verus! {

#[derive(Clone, Copy, Debug, PartialEq, Eq, Structural)]
pub enum Tone {
    Black,
    White,
    Cyan,
    DarkGray,
    Yellow,
    Red,
    Green,
    Blue,
}

/// Colours and weight of a text; what is not given stays as it is.
#[derive(Clone, Copy, Debug, PartialEq, Eq, Structural)]
pub struct Style {
    pub fg: Option<Tone>,
    pub bg: Option<Tone>,
    pub bold: bool,
}

#[derive(Clone, Copy, Debug, PartialEq, Eq, Structural)]
pub enum Align {
    Left,
    Center,
    Right,
}

/// A rectangle of character cells.
#[derive(Clone, Copy, Debug, PartialEq, Eq, Structural)]
pub struct Area {
    pub x: u16,
    pub y: u16,
    pub width: u16,
    pub height: u16,
}

/// A stretch of text in one style.
#[derive(Debug, PartialEq, Eq)]
pub struct Span {
    pub text: String,
    pub style: Style,
}

/// Something to be drawn.
#[derive(Debug, PartialEq, Eq)]
pub enum Widget {
    /// Erase what was drawn in the area.
    Clear(Area),
    /// Colour the area.
    Fill { area: Area, bg: Tone },
    /// A text, which `wrap` lets run over several lines.
    Text { area: Area, text: String, style: Style, align: Align, wrap: bool },
    /// Stretches of text side by side, in the middle of the area.
    Spans { area: Area, spans: Vec<Span> },
}

pub struct SpanView {
    pub text: Seq<char>,
    pub style: Style,
}

/// A [`Widget`] over plain text.
pub enum WidgetView {
    Clear(Area),
    Fill { area: Area, bg: Tone },
    Text { area: Area, text: Seq<char>, style: Style, align: Align, wrap: bool },
    Spans { area: Area, spans: Seq<SpanView> },
}

impl Span {
    pub open spec fn view(&self) -> SpanView {
        SpanView { text: self.text@, style: self.style }
    }
}

impl Widget {
    pub open spec fn view(&self) -> WidgetView {
        match self {
            Widget::Clear(area) => WidgetView::Clear(*area),
            Widget::Fill { area, bg } => WidgetView::Fill { area: *area, bg: *bg },
            Widget::Text { area, text, style, align, wrap } => WidgetView::Text {
                area: *area,
                text: text@,
                style: *style,
                align: *align,
                wrap: *wrap,
            },
            Widget::Spans { area, spans } => WidgetView::Spans {
                area: *area,
                spans: span_views(spans@),
            },
        }
    }
}

pub open spec fn span_views(spans: Seq<Span>) -> Seq<SpanView> {
    spans.map_values(|span: Span| span@)
}

/// Everything that is drawn, in order.
pub open spec fn drawn(widgets: Seq<Widget>) -> Seq<WidgetView> {
    widgets.map_values(|widget: Widget| widget@)
}

/// Columns and rows of the display.
pub const DISPLAY_COLUMNS: u16 = 32;

pub const DISPLAY_ROWS: u16 = 12;

pub open spec fn row_area(y: int) -> Area {
    Area { x: 0, y: y as u16, width: 32, height: 1 }
}

pub open spec fn plain() -> Style {
    Style { fg: None, bg: None, bold: false }
}

pub open spec fn colored(fg: Tone) -> Style {
    Style { fg: Some(fg), bg: None, bold: false }
}

pub open spec fn bold(fg: Tone) -> Style {
    Style { fg: Some(fg), bg: None, bold: true }
}

pub open spec fn on(fg: Tone, bg: Tone) -> Style {
    Style { fg: Some(fg), bg: Some(bg), bold: false }
}

/// One line of text.
pub open spec fn line(area: Area, text: Seq<char>, style: Style, align: Align) -> WidgetView {
    WidgetView::Text { area, text, style, align, wrap: false }
}

/// `text` cut to `width` characters; a `~` shows that some are missing.
pub open spec fn truncated(text: Seq<char>, width: int) -> Seq<char> {
    if text.len() <= width {
        text
    } else if width <= 0 {
        Seq::empty()
    } else {
        text.take(width - 1).push('~')
    }
}

/// A number of bytes in a few characters.
pub open spec fn size_text(bytes: nat) -> Seq<char> {
    if bytes < 1_000 {
        decimal_text(bytes) + "B"@
    } else if bytes < 1_000_000 {
        decimal_text(bytes / 1_000) + "K"@
    } else if bytes < 1_000_000_000 {
        decimal_text(bytes / 1_000_000) + "M"@
    } else {
        let tenths = bytes / 100_000_000;
        decimal_text(tenths / 10) + "."@ + decimal_text(tenths % 10) + "G"@
    }
}

/// `text` with spaces behind it up to `width` characters.
pub open spec fn padded_right(text: Seq<char>, width: int) -> Seq<char> {
    if text.len() < width { text + spaces(width - text.len()) } else { text }
}

/// `text` with spaces before it up to `width` characters.
pub open spec fn padded_left(text: Seq<char>, width: int) -> Seq<char> {
    if text.len() < width { spaces(width - text.len()) + text } else { text }
}

/// `text` in the middle of `width` characters, rather to the left.
pub open spec fn centered(text: Seq<char>, width: int) -> Seq<char> {
    if text.len() < width {
        let free = width - text.len();
        spaces(free / 2) + text + spaces(free - free / 2)
    } else {
        text
    }
}

/// Cut `text` to `width` characters.
pub fn truncate(text: &str, width: usize) -> (short: String)
    ensures
        short@ == truncated(text@, width as int),
{
    let chars = chars_of(text);
    if chars.len() <= width {
        assert(chars@.subrange(0, chars@.len() as int) =~= chars@);
        text_of(&chars, 0, chars.len())
    } else if width == 0 {
        String::new()
    } else {
        let mut short = text_of(&chars, 0, width - 1);
        assert(chars@.subrange(0, width - 1) =~= chars@.take(width - 1));
        short.push('~');
        short
    }
}

/// Write a number of bytes in a few characters.
pub fn compact_size(bytes: u64) -> (text: String)
    ensures
        text@ == size_text(bytes as nat),
{
    if bytes < 1_000 {
        joined(decimal(bytes).as_str(), "B")
    } else if bytes < 1_000_000 {
        joined(decimal(bytes / 1_000).as_str(), "K")
    } else if bytes < 1_000_000_000 {
        joined(decimal(bytes / 1_000_000).as_str(), "M")
    } else {
        let tenths: u64 = bytes / 100_000_000;
        let front = joined(decimal(tenths / 10).as_str(), ".");
        let front = joined(front.as_str(), decimal(tenths % 10).as_str());
        joined(front.as_str(), "G")
    }
}

fn blanks(count: usize) -> (text: String)
    ensures
        text@ == spaces(count as int),
{
    let mut text = String::new();
    assert(text@ =~= spaces(0));
    for i in 0..count
        invariant
            text@ == spaces(i as int),
    {
        text.push(' ');
        assert(text@ =~= spaces(i + 1));
    }
    text
}

fn pad_right(text: &str, width: usize) -> (padded: String)
    ensures
        padded@ == padded_right(text@, width as int),
{
    let len: usize = chars_of(text).len();
    if len < width {
        joined(text, blanks(width - len).as_str())
    } else {
        text.to_owned()
    }
}

fn pad_left(text: &str, width: usize) -> (padded: String)
    ensures
        padded@ == padded_left(text@, width as int),
{
    let len: usize = chars_of(text).len();
    if len < width {
        joined(blanks(width - len).as_str(), text)
    } else {
        text.to_owned()
    }
}

fn center(text: &str, width: usize) -> (padded: String)
    ensures
        padded@ == centered(text@, width as int),
{
    let len: usize = chars_of(text).len();
    if len < width {
        let free: usize = width - len;
        let front = joined(blanks(free / 2).as_str(), text);
        joined(front.as_str(), blanks(free - free / 2).as_str())
    } else {
        text.to_owned()
    }
}

fn show(out: &mut Vec<Widget>, widget: Widget)
    ensures
        drawn(final(out)@) == drawn(old(out)@).push(widget@),
{
    let ghost before = out@;
    out.push(widget);
    assert(drawn(out@) =~= drawn(before).push(widget@));
}

fn show_line(out: &mut Vec<Widget>, area: Area, text: &str, style: Style, align: Align)
    ensures
        drawn(final(out)@) == drawn(old(out)@).push(line(area, text@, style, align)),
{
    show(out, Widget::Text { area, text: text.to_owned(), style, align, wrap: false });
}

fn row(y: u16) -> (area: Area)
    ensures
        area == row_area(y as int),
{
    Area { x: 0, y, width: 32, height: 1 }
}

fn plain_style() -> (style: Style)
    ensures
        style == plain(),
{
    Style { fg: None, bg: None, bold: false }
}

fn colored_style(fg: Tone) -> (style: Style)
    ensures
        style == colored(fg),
{
    Style { fg: Some(fg), bg: None, bold: false }
}

fn bold_style(fg: Tone) -> (style: Style)
    ensures
        style == bold(fg),
{
    Style { fg: Some(fg), bg: None, bold: true }
}

fn style_on(fg: Tone, bg: Tone) -> (style: Style)
    ensures
        style == on(fg, bg),
{
    Style { fg: Some(fg), bg: Some(bg), bold: false }
}

/// The top row: a title, and a hint that makes room for the battery.
pub open spec fn header_view(
    left: Seq<char>,
    right: Seq<char>,
    battery_shown: bool,
) -> Seq<WidgetView> {
    seq![
        line(Area { x: 0, y: 0, width: 16, height: 1 }, left, bold(Tone::Cyan), Align::Left),
        line(
            Area { x: 16, y: 0, width: if battery_shown { 8 } else { 16 }, height: 1 },
            right,
            colored(Tone::DarkGray),
            Align::Right,
        ),
    ]
}

fn header(out: &mut Vec<Widget>, left: &str, right: &str, battery_shown: bool)
    ensures
        drawn(final(out)@) == drawn(old(out)@) + header_view(left@, right@, battery_shown),
{
    let ghost before = drawn(out@);
    show_line(
        out,
        Area { x: 0, y: 0, width: 16, height: 1 },
        left,
        bold_style(Tone::Cyan),
        Align::Left,
    );
    show_line(
        out,
        Area { x: 16, y: 0, width: if battery_shown { 8 } else { 16 }, height: 1 },
        right,
        colored_style(Tone::DarkGray),
        Align::Right,
    );
    assert(drawn(out@) =~= before + header_view(left@, right@, battery_shown));
}

/// The bottom row: what the three buttons on top do.
pub open spec fn footer_view(left: Seq<char>, middle: Seq<char>, right: Seq<char>) -> Seq<WidgetView> {
    let style = on(Tone::Black, Tone::DarkGray);
    seq![
        line(Area { x: 0, y: 11, width: 10, height: 1 }, left, style, Align::Center),
        line(Area { x: 10, y: 11, width: 11, height: 1 }, middle, style, Align::Center),
        line(Area { x: 21, y: 11, width: 11, height: 1 }, right, style, Align::Center),
    ]
}

fn footer(out: &mut Vec<Widget>, left: &str, middle: &str, right: &str)
    ensures
        drawn(final(out)@) == drawn(old(out)@) + footer_view(left@, middle@, right@),
{
    let ghost before = drawn(out@);
    let style = style_on(Tone::Black, Tone::DarkGray);
    show_line(out, Area { x: 0, y: 11, width: 10, height: 1 }, left, style, Align::Center);
    show_line(out, Area { x: 10, y: 11, width: 11, height: 1 }, middle, style, Align::Center);
    show_line(out, Area { x: 21, y: 11, width: 11, height: 1 }, right, style, Align::Center);
    assert(drawn(out@) =~= before + footer_view(left@, middle@, right@));
}

/// A title and a message in the middle of the screen.
pub open spec fn center_view(title: Seq<char>, message: Seq<char>) -> Seq<WidgetView> {
    seq![
        line(row_area(3), title, bold(Tone::Cyan), Align::Center),
        WidgetView::Text {
            area: Area { x: 0, y: 5, width: 32, height: 2 },
            text: message,
            style: plain(),
            align: Align::Center,
            wrap: true,
        },
    ]
}

fn draw_center(out: &mut Vec<Widget>, title: &str, message: &str)
    ensures
        drawn(final(out)@) == drawn(old(out)@) + center_view(title@, message@),
{
    let ghost before = drawn(out@);
    show_line(out, row(3), title, bold_style(Tone::Cyan), Align::Center);
    show(
        out,
        Widget::Text {
            area: Area { x: 0, y: 5, width: 32, height: 2 },
            text: message.to_owned(),
            style: plain_style(),
            align: Align::Center,
            wrap: true,
        },
    );
    assert(drawn(out@) =~= before + center_view(title@, message@));
}

/// A title and a message in the middle of a display that shows nothing else yet.
pub fn draw_notice(title: &str, message: &str) -> (widgets: Vec<Widget>)
    ensures
        drawn(widgets@) == center_view(title@, message@),
{
    let mut widgets = Vec::new();
    draw_center(&mut widgets, title, message);
    assert(drawn(widgets@) =~= center_view(title@, message@));
    widgets
}

/// The question whether to format the card.
pub open spec fn format_prompt_view(reason: Seq<char>, cancelled: bool) -> Seq<WidgetView> {
    center_view("FORMAT SD CARD?"@, reason) + seq![
        line(row_area(7), "Formatting erases ALL data"@, bold(Tone::Red), Align::Center),
        line(
            row_area(10),
            if cancelled {
                "Cancelled     RIGHT: retry"@
            } else {
                "LEFT: cancel  Hold RIGHT 2s"@
            },
            plain(),
            Align::Center,
        ),
    ]
}

fn draw_format_prompt(out: &mut Vec<Widget>, reason: &str, cancelled: bool)
    ensures
        drawn(final(out)@) == drawn(old(out)@) + format_prompt_view(reason@, cancelled),
{
    let ghost before = drawn(out@);
    draw_center(out, "FORMAT SD CARD?", reason);
    show_line(
        out,
        row(7),
        "Formatting erases ALL data",
        bold_style(Tone::Red),
        Align::Center,
    );
    let footer_text = if cancelled {
        "Cancelled     RIGHT: retry"
    } else {
        "LEFT: cancel  Hold RIGHT 2s"
    };
    show_line(out, row(10), footer_text, plain_style(), Align::Center);
    assert(drawn(out@) =~= before + format_prompt_view(reason@, cancelled));
}

/// The charge of the battery, in the top right corner.
pub open spec fn battery_view(battery: BatteryStatus) -> WidgetView {
    line(
        Area { x: 24, y: 0, width: 8, height: 1 },
        decimal_text(battery.percent as nat) + if battery.charging { "% CHG"@ } else { "% BAT"@ },
        bold(Tone::DarkGray),
        Align::Right,
    )
}

fn draw_battery(out: &mut Vec<Widget>, battery: BatteryStatus)
    ensures
        drawn(final(out)@) == drawn(old(out)@).push(battery_view(battery)),
{
    let label = joined(
        decimal(battery.percent as u64).as_str(),
        if battery.charging {
            "% CHG"
        } else {
            "% BAT"
        },
    );
    show_line(
        out,
        Area { x: 24, y: 0, width: 8, height: 1 },
        label.as_str(),
        bold_style(Tone::DarkGray),
        Align::Right,
    );
}

/// One choice of a menu.
pub open spec fn menu_item_view(y: int, label: Seq<char>, selected: bool) -> WidgetView {
    line(
        Area { x: 2, y: y as u16, width: 28, height: 1 },
        label,
        if selected { on(Tone::Black, Tone::Cyan) } else { colored(Tone::White) },
        Align::Center,
    )
}

fn draw_menu_item(out: &mut Vec<Widget>, y: u16, label: &str, selected: bool)
    ensures
        drawn(final(out)@) == drawn(old(out)@).push(menu_item_view(y as int, label@, selected)),
{
    let style = if selected {
        style_on(Tone::Black, Tone::Cyan)
    } else {
        colored_style(Tone::White)
    };
    show_line(out, Area { x: 2, y, width: 28, height: 1 }, label, style, Align::Center);
}

/// One entry of the explorer: a mark for folders, one for hidden and system
/// entries, the name and the size.
pub open spec fn entry_text(item: ItemView) -> Seq<char> {
    (if item.is_dir { ">"@ } else { " "@ }) + (if item.hidden || item.system { "*"@ } else { " "@ })
        + padded_right(truncated(item.name, 22), 22) + padded_left(
        if item.is_dir { Seq::empty() } else { size_text(item.size as nat) },
        6,
    )
}

pub open spec fn entry_view(item: ItemView, index: int, selected: int) -> WidgetView {
    line(
        row_area(2 + index),
        entry_text(item),
        if index == selected {
            on(Tone::Black, Tone::Cyan)
        } else if item.is_dir {
            colored(Tone::Yellow)
        } else {
            colored(Tone::White)
        },
        Align::Left,
    )
}

fn draw_entry(out: &mut Vec<Widget>, item: &DirectoryItem, index: usize, selected: usize)
    requires
        index < 8,
    ensures
        drawn(final(out)@) == drawn(old(out)@).push(
            entry_view(item@, index as int, selected as int),
        ),
{
    let marker = if item.is_dir { ">" } else { " " };
    let flags = if item.hidden || item.system { "*" } else { " " };
    let size = if item.is_dir { String::new() } else { compact_size(item.size) };
    let front = joined(marker, flags);
    let name = truncate(item.name.as_str(), 22);
    let front = joined(front.as_str(), pad_right(name.as_str(), 22).as_str());
    assert(item.is_dir ==> size@ =~= Seq::empty());
    let text = joined(front.as_str(), pad_left(size.as_str(), 6).as_str());
    let style = if index == selected {
        style_on(Tone::Black, Tone::Cyan)
    } else if item.is_dir {
        colored_style(Tone::Yellow)
    } else {
        colored_style(Tone::White)
    };
    show_line(out, row(2 + index as u16), text.as_str(), style, Align::Left);
}

/// The rows of a listing.
pub open spec fn entries_view(items: Seq<ItemView>, selected: int) -> Seq<WidgetView> {
    Seq::new(items.len(), |i: int| entry_view(items[i], i, selected))
}

/// `offset + selected + 1`, as far as the machine's numbers go.
pub open spec fn position_of(offset: int, selected: int) -> int {
    if offset + selected + 1 <= usize::MAX { offset + selected + 1 } else { usize::MAX as int }
}

/// The row under the listing: a message, or the free space and the position.
pub open spec fn explorer_status_view(e: ExplorerView) -> Seq<WidgetView> {
    match e.status {
        Some(notice) => seq![
            line(
                row_area(10),
                truncated(notice_text(notice), 32),
                colored(Tone::Red),
                Align::Left,
            ),
        ],
        None => (match e.free_bytes {
            Some(free) => seq![
                line(
                    Area { x: 0, y: 10, width: 16, height: 1 },
                    size_text(free as nat) + " free"@,
                    colored(Tone::DarkGray),
                    Align::Left,
                ),
            ],
            None => Seq::empty(),
        }) + seq![
            line(
                Area { x: 16, y: 10, width: 16, height: 1 },
                if e.total == 0 {
                    "0/0"@
                } else {
                    decimal_text(position_of(e.offset, e.selected) as nat) + "/"@ + decimal_text(
                        e.total as nat,
                    )
                },
                plain(),
                Align::Right,
            ),
        ],
    }
}

/// The explorer.
pub open spec fn explorer_view(e: ExplorerView, battery_shown: bool) -> Seq<WidgetView> {
    header_view("SD FILES"@, "BROWSE"@, battery_shown) + seq![
        line(row_area(1), truncated(e.path, 32), colored(Tone::DarkGray), Align::Left),
    ] + entries_view(e.entries, e.selected) + (if e.entries.len() == 0 {
        seq![line(row_area(5), "(empty folder)"@, plain(), Align::Center)]
    } else {
        Seq::empty()
    }) + explorer_status_view(e) + footer_view("UP"@, "NEW"@, "ACTIONS"@)
}

fn draw_explorer_status(out: &mut Vec<Widget>, explorer: &Explorer)
    ensures
        drawn(final(out)@) == drawn(old(out)@) + explorer_status_view(explorer@),
{
    let ghost before = drawn(out@);
    match &explorer.status {
        Some(status) => {
            let text = status.text();
            show_line(
                out,
                row(10),
                truncate(text.as_str(), 32).as_str(),
                colored_style(Tone::Red),
                Align::Left,
            );
        },
        None => {
            if let Some(free) = explorer.free_bytes {
                show_line(
                    out,
                    Area { x: 0, y: 10, width: 16, height: 1 },
                    joined(compact_size(free).as_str(), " free").as_str(),
                    colored_style(Tone::DarkGray),
                    Align::Left,
                );
            }
            let position = if explorer.total == 0 {
                "0/0".to_owned()
            } else {
                let at: usize = explorer.offset.saturating_add(explorer.selected).saturating_add(1);
                let front = joined(decimal(at as u64).as_str(), "/");
                joined(front.as_str(), decimal(explorer.total as u64).as_str())
            };
            show_line(
                out,
                Area { x: 16, y: 10, width: 16, height: 1 },
                position.as_str(),
                plain_style(),
                Align::Right,
            );
        },
    }
    assert(drawn(out@) =~= before + explorer_status_view(explorer@));
}

fn draw_entries(out: &mut Vec<Widget>, entries: &Vec<DirectoryItem>, selected: usize)
    requires
        entries@.len() <= 8,
    ensures
        drawn(final(out)@) == drawn(old(out)@) + entries_view(
            crate::card::item_views(entries@),
            selected as int,
        ),
{
    let ghost before = drawn(out@);
    let ghost items = crate::card::item_views(entries@);
    let ghost rows = entries_view(items, selected as int);
    assert(before + rows.take(0) =~= before);
    for i in 0..entries.len()
        invariant
            entries@.len() <= 8,
            items == crate::card::item_views(entries@),
            rows == entries_view(items, selected as int),
            drawn(out@) == before + rows.take(i as int),
    {
        draw_entry(out, &entries[i], i, selected);
        assert((before + rows.take(i as int)).push(rows[i as int]) =~= before + rows.take(i + 1));
    }
    assert(rows.take(rows.len() as int) =~= rows);
}

fn draw_explorer(out: &mut Vec<Widget>, explorer: &Explorer, battery_shown: bool)
    requires
        explorer.entries@.len() <= 8,
    ensures
        drawn(final(out)@) == drawn(old(out)@) + explorer_view(explorer@, battery_shown),
{
    let ghost before = drawn(out@);
    header(out, "SD FILES", "BROWSE", battery_shown);
    show_line(
        out,
        row(1),
        truncate(explorer.path.as_str(), 32).as_str(),
        colored_style(Tone::DarkGray),
        Align::Left,
    );
    draw_entries(out, &explorer.entries, explorer.selected);
    if explorer.entries.len() == 0 {
        show_line(out, row(5), "(empty folder)", plain_style(), Align::Center);
    }
    draw_explorer_status(out, explorer);
    footer(out, "UP", "NEW", "ACTIONS");
    assert(drawn(out@) =~= before + explorer_view(explorer@, battery_shown));
}

/// The menu for new entries.
pub open spec fn new_menu_view(choice: NewChoice, battery_shown: bool) -> Seq<WidgetView> {
    header_view("NEW"@, "SELECT"@, battery_shown) + seq![
        menu_item_view(3, "Text file (.txt)"@, choice == NewChoice::TextFile),
        menu_item_view(5, "Folder"@, choice == NewChoice::Folder),
    ] + footer_view("CANCEL"@, "SELECT"@, "SELECT"@)
}

fn draw_new_menu(out: &mut Vec<Widget>, menu: &NewMenu, battery_shown: bool)
    ensures
        drawn(final(out)@) == drawn(old(out)@) + new_menu_view(menu.choice, battery_shown),
{
    let ghost before = drawn(out@);
    header(out, "NEW", "SELECT", battery_shown);
    draw_menu_item(out, 3, "Text file (.txt)", menu.choice == NewChoice::TextFile);
    draw_menu_item(out, 5, "Folder", menu.choice == NewChoice::Folder);
    footer(out, "CANCEL", "SELECT", "SELECT");
    assert(drawn(out@) =~= before + new_menu_view(menu.choice, battery_shown));
}

/// The menu of actions for an entry with this name.
pub open spec fn action_menu_view(
    name: Option<Seq<char>>,
    choice: ActionChoice,
    battery_shown: bool,
) -> Seq<WidgetView> {
    header_view("ACTIONS"@, "SELECT"@, battery_shown) + seq![
        line(
            row_area(1),
            truncated(
                match name {
                    Some(name) => name,
                    None => "(no item)"@,
                },
                32,
            ),
            colored(Tone::DarkGray),
            Align::Left,
        ),
        menu_item_view(3, "Rename"@, choice == ActionChoice::Rename),
        menu_item_view(5, "Move"@, choice == ActionChoice::Move),
        menu_item_view(7, "Delete"@, choice == ActionChoice::Delete),
        menu_item_view(9, "Refresh"@, choice == ActionChoice::Refresh),
    ] + footer_view("CANCEL"@, "SELECT"@, "SELECT"@)
}

/// The name of the entry that a menu is about.
pub open spec fn menu_name(menu: ActionMenu) -> Option<Seq<char>> {
    match menu.item {
        Some(item) => Some(item.name@),
        None => None,
    }
}

fn draw_action_menu(out: &mut Vec<Widget>, menu: &ActionMenu, battery_shown: bool)
    ensures
        drawn(final(out)@) == drawn(old(out)@) + action_menu_view(
            menu_name(*menu),
            menu.choice,
            battery_shown,
        ),
{
    let ghost before = drawn(out@);
    header(out, "ACTIONS", "SELECT", battery_shown);
    let name = match &menu.item {
        Some(item) => item.name.as_str(),
        None => "(no item)",
    };
    show_line(
        out,
        row(1),
        truncate(name, 32).as_str(),
        colored_style(Tone::DarkGray),
        Align::Left,
    );
    draw_menu_item(out, 3, "Rename", menu.choice == ActionChoice::Rename);
    draw_menu_item(out, 5, "Move", menu.choice == ActionChoice::Move);
    draw_menu_item(out, 7, "Delete", menu.choice == ActionChoice::Delete);
    draw_menu_item(out, 9, "Refresh", menu.choice == ActionChoice::Refresh);
    footer(out, "CANCEL", "SELECT", "SELECT");
    assert(drawn(out@) =~= before + action_menu_view(menu_name(*menu), menu.choice, battery_shown));
}

/// Width of a key in `row`.
pub open spec fn key_width(row: int) -> int {
    if row < 3 { 3 } else { 5 }
}

pub open spec fn key_style(selected: bool) -> Style {
    if selected {
        Style { fg: Some(Tone::Black), bg: Some(Tone::Green), bold: true }
    } else {
        on(Tone::White, Tone::DarkGray)
    }
}

/// One key.
pub open spec fn key_view(k: Keyboard, row: int, column: int) -> SpanView {
    SpanView {
        text: centered(key_label(key_on(k.page, row, column)), key_width(row)),
        style: key_style(k.row == row && k.column == column),
    }
}

/// One row of keys, `y` rows down.
pub open spec fn key_row_view(k: Keyboard, row: int, y: int) -> WidgetView {
    WidgetView::Spans {
        area: row_area(y + row),
        spans: Seq::new(keys_in_row(row) as nat, |column: int| key_view(k, row, column)),
    }
}

/// The keyboard.
pub open spec fn keyboard_view(k: Keyboard, y: int) -> Seq<WidgetView> {
    Seq::new(4, |row: int| key_row_view(k, row, y))
}

fn draw_key_row(out: &mut Vec<Widget>, keyboard: &Keyboard, row_index: usize, y: u16)
    requires
        row_index < 4,
        y <= 8,
    ensures
        drawn(final(out)@) == drawn(old(out)@).push(
            key_row_view(*keyboard, row_index as int, y as int),
        ),
{
    let mut spans: Vec<Span> = Vec::new();
    let count: usize = keyboard.row_len(row_index);
    let width: usize = if row_index < 3 { 3 } else { 5 };
    for column in 0..count
        invariant
            count == keys_in_row(row_index as int),
            width == key_width(row_index as int),
            spans@.len() == column,
            forall|c: int|
                0 <= c < column ==> #[trigger] spans@[c]@ == key_view(
                    *keyboard,
                    row_index as int,
                    c,
                ),
    {
        let label = keyboard.label(row_index, column);
        let style = if keyboard.row == row_index && keyboard.column == column {
            Style { fg: Some(Tone::Black), bg: Some(Tone::Green), bold: true }
        } else {
            style_on(Tone::White, Tone::DarkGray)
        };
        spans.push(Span { text: center(label.as_str(), width), style });
    }
    assert(span_views(spans@) =~= Seq::new(
        keys_in_row(row_index as int) as nat,
        |column: int| key_view(*keyboard, row_index as int, column),
    ));
    show(out, Widget::Spans { area: row(y + row_index as u16), spans });
}

fn draw_keyboard(out: &mut Vec<Widget>, keyboard: &Keyboard, y: u16)
    requires
        y <= 8,
    ensures
        drawn(final(out)@) == drawn(old(out)@) + keyboard_view(*keyboard, y as int),
{
    let ghost before = drawn(out@);
    draw_key_row(out, keyboard, 0, y);
    draw_key_row(out, keyboard, 1, y);
    draw_key_row(out, keyboard, 2, y);
    draw_key_row(out, keyboard, 3, y);
    assert(drawn(out@) =~= before + keyboard_view(*keyboard, y as int));
}

/// The title, the suffix and the name of the action for a name.
pub open spec fn name_labels(mode: NameMode) -> (Seq<char>, Seq<char>, Seq<char>) {
    match mode {
        NameMode::NewText => ("NEW TEXT FILE"@, ".txt"@, "CREATE"@),
        NameMode::NewFolder => ("NEW FOLDER"@, ""@, "CREATE"@),
        NameMode::Rename => ("RENAME"@, ""@, "DONE"@),
    }
}

/// The part of a name that is shown, with a mark for the cursor.
pub open spec fn shown_name(name: Seq<char>, cursor: int) -> Seq<char> {
    window(name.insert(cursor, '|'), if cursor <= 28 { 0 } else { cursor - 28 }, 31)
}

/// The row for a message.
pub open spec fn status_view(status: Option<Notice>, y: int) -> Seq<WidgetView> {
    match status {
        Some(notice) => seq![
            line(row_area(y), truncated(notice_text(notice), 32), colored(Tone::Red), Align::Left),
        ],
        None => Seq::empty(),
    }
}

/// Entering a name.
pub open spec fn name_entry_view(n: NameView, battery_shown: bool) -> Seq<WidgetView> {
    let labels = name_labels(n.mode);
    header_view(labels.0, labels.1, battery_shown) + seq![
        line(row_area(2), "Name:"@, plain(), Align::Left),
        line(row_area(3), shown_name(n.name, n.cursor), colored(Tone::Cyan), Align::Left),
    ] + status_view(n.status, 5) + (if n.keyboard_visible {
        keyboard_view(n.keyboard, 6)
    } else {
        seq![line(row_area(7), "Keyboard hidden; CLICK to show"@, plain(), Align::Center)]
    }) + footer_view("CANCEL"@, "KEYBOARD"@, labels.2)
}

fn draw_status(out: &mut Vec<Widget>, status: &Option<Notice>, y: u16)
    ensures
        drawn(final(out)@) == drawn(old(out)@) + status_view(*status, y as int),
{
    let ghost before = drawn(out@);
    if let Some(notice) = status {
        let text = notice.text();
        show_line(
            out,
            row(y),
            truncate(text.as_str(), 32).as_str(),
            colored_style(Tone::Red),
            Align::Left,
        );
    }
    assert(drawn(out@) =~= before + status_view(*status, y as int));
}

fn name_with_cursor(name: &Vec<char>, cursor: usize) -> (shown: String)
    requires
        cursor <= name@.len(),
    ensures
        shown@ == shown_name(name@, cursor as int),
{
    let mut chars: Vec<char> = Vec::new();
    for i in 0..name.len()
        invariant
            chars@ == name@.take(i as int),
    {
        chars.push(name[i]);
        assert(name@.take(i as int).push(name@[i as int]) =~= name@.take(i + 1));
    }
    assert(name@.take(name@.len() as int) =~= name@);
    chars.insert(cursor, '|');
    let start: usize = cursor.saturating_sub(28);
    let len: usize = chars.len();
    let from: usize = if start <= len { start } else { len };
    let to: usize = if 31 <= len - from { from + 31 } else { len };
    text_of(&chars, from, to)
}

fn draw_name_entry(out: &mut Vec<Widget>, entry: &NameEntry, battery_shown: bool)
    requires
        entry.wf(),
    ensures
        drawn(final(out)@) == drawn(old(out)@) + name_entry_view(entry@, battery_shown),
{
    let ghost before = drawn(out@);
    let (title, suffix, action) = match entry.mode {
        NameMode::NewText => ("NEW TEXT FILE", ".txt", "CREATE"),
        NameMode::NewFolder => ("NEW FOLDER", "", "CREATE"),
        NameMode::Rename => ("RENAME", "", "DONE"),
    };
    header(out, title, suffix, battery_shown);
    show_line(out, row(2), "Name:", plain_style(), Align::Left);
    let shown = name_with_cursor(&entry.name, entry.cursor);
    show_line(out, row(3), shown.as_str(), colored_style(Tone::Cyan), Align::Left);
    draw_status(out, &entry.status, 5);
    if entry.keyboard_visible {
        draw_keyboard(out, &entry.keyboard, 6);
    } else {
        show_line(
            out,
            row(7),
            "Keyboard hidden; CLICK to show",
            plain_style(),
            Align::Center,
        );
    }
    footer(out, "CANCEL", "KEYBOARD", action);
    assert(drawn(out@) =~= before + name_entry_view(entry@, battery_shown));
}

/// One folder of the picker.
pub open spec fn folder_view(item: ItemView, index: int, selected: int) -> WidgetView {
    line(
        row_area(2 + index),
        "> "@ + truncated(item.name, 28),
        if index == selected { on(Tone::Black, Tone::Cyan) } else { colored(Tone::Yellow) },
        Align::Left,
    )
}

/// The rows of the picker.
pub open spec fn folders_view(items: Seq<ItemView>, selected: int) -> Seq<WidgetView> {
    Seq::new(items.len(), |i: int| folder_view(items[i], i, selected))
}

/// The folder picker.
pub open spec fn picker_view(p: PickerView, battery_shown: bool) -> Seq<WidgetView> {
    header_view("MOVE"@, "FOLDERS"@, battery_shown) + seq![
        line(row_area(1), truncated(p.path, 32), colored(Tone::DarkGray), Align::Left),
    ] + folders_view(p.entries, p.selected) + (if p.entries.len() == 0 {
        seq![line(row_area(5), "(no subfolders)"@, plain(), Align::Center)]
    } else {
        Seq::empty()
    }) + status_view(p.status, 10) + footer_view("CANCEL"@, "MOVE HERE"@, "REFRESH"@)
}

fn draw_folders(out: &mut Vec<Widget>, entries: &Vec<DirectoryItem>, selected: usize)
    requires
        entries@.len() <= 8,
    ensures
        drawn(final(out)@) == drawn(old(out)@) + folders_view(
            crate::card::item_views(entries@),
            selected as int,
        ),
{
    let ghost before = drawn(out@);
    let ghost items = crate::card::item_views(entries@);
    let ghost rows = folders_view(items, selected as int);
    assert(before + rows.take(0) =~= before);
    for i in 0..entries.len()
        invariant
            entries@.len() <= 8,
            items == crate::card::item_views(entries@),
            rows == folders_view(items, selected as int),
            drawn(out@) == before + rows.take(i as int),
    {
        let style = if i == selected {
            style_on(Tone::Black, Tone::Cyan)
        } else {
            colored_style(Tone::Yellow)
        };
        let name = truncate(entries[i].name.as_str(), 28);
        show_line(
            out,
            row(2 + i as u16),
            joined("> ", name.as_str()).as_str(),
            style,
            Align::Left,
        );
        assert((before + rows.take(i as int)).push(rows[i as int]) =~= before + rows.take(i + 1));
    }
    assert(rows.take(rows.len() as int) =~= rows);
}

fn draw_move_picker(out: &mut Vec<Widget>, picker: &MovePicker, battery_shown: bool)
    requires
        picker.wf(),
    ensures
        drawn(final(out)@) == drawn(old(out)@) + picker_view(picker@, battery_shown),
{
    let ghost before = drawn(out@);
    header(out, "MOVE", "FOLDERS", battery_shown);
    show_line(
        out,
        row(1),
        truncate(picker.path.as_str(), 32).as_str(),
        colored_style(Tone::DarkGray),
        Align::Left,
    );
    draw_folders(out, &picker.entries, picker.selected);
    if picker.entries.len() == 0 {
        show_line(out, row(5), "(no subfolders)", plain_style(), Align::Center);
    }
    draw_status(out, &picker.status, 10);
    footer(out, "CANCEL", "MOVE HERE", "REFRESH");
    assert(drawn(out@) =~= before + picker_view(picker@, battery_shown));
}

/// The question whether to delete an entry.
pub open spec fn delete_prompt_view(
    item: ItemView,
    choice: DeleteChoice,
    battery_shown: bool,
) -> Seq<WidgetView> {
    header_view("DELETE?"@, if item.is_dir { "FOLDER"@ } else { "FILE"@ }, battery_shown) + seq![
        line(row_area(2), truncated(item.name, 32), colored(Tone::Yellow), Align::Center),
        line(
            row_area(4),
            if item.is_dir { "All contents will be deleted"@ } else { "This cannot be undone"@ },
            colored(Tone::Red),
            Align::Center,
        ),
        menu_item_view(6, "Cancel"@, choice == DeleteChoice::Cancel),
        menu_item_view(8, "Delete"@, choice == DeleteChoice::Delete),
    ] + footer_view("CANCEL"@, "SELECT"@, "SELECT"@)
}

fn draw_delete_prompt(
    out: &mut Vec<Widget>,
    item: &DirectoryItem,
    choice: DeleteChoice,
    battery_shown: bool,
)
    ensures
        drawn(final(out)@) == drawn(old(out)@) + delete_prompt_view(item@, choice, battery_shown),
{
    let ghost before = drawn(out@);
    header(out, "DELETE?", if item.is_dir { "FOLDER" } else { "FILE" }, battery_shown);
    show_line(
        out,
        row(2),
        truncate(item.name.as_str(), 32).as_str(),
        colored_style(Tone::Yellow),
        Align::Center,
    );
    let warning = if item.is_dir {
        "All contents will be deleted"
    } else {
        "This cannot be undone"
    };
    show_line(out, row(4), warning, colored_style(Tone::Red), Align::Center);
    draw_menu_item(out, 6, "Cancel", choice == DeleteChoice::Cancel);
    draw_menu_item(out, 8, "Delete", choice == DeleteChoice::Delete);
    footer(out, "CANCEL", "SELECT", "SELECT");
    assert(drawn(out@) =~= before + delete_prompt_view(item@, choice, battery_shown));
}

/// `text` with a mark for the cursor at `at`, behind spaces where it is shorter.
pub open spec fn with_mark(text: Seq<char>, at: int) -> Seq<char> {
    (if text.len() <= at { text + spaces(at + 1 - text.len()) } else { text }).update(at, '|')
}

/// Line and cell of the cursor.
pub open spec fn cursor_line(editor: Editor) -> int {
    newlines(editor.buffer.before()) as int
}

pub open spec fn cursor_cell(editor: Editor) -> int {
    cells(last_line(editor.buffer.before()))
}

/// Row `r` of the text in the editor.
pub open spec fn editor_row(editor: Editor, r: int) -> WidgetView {
    let index = editor.scroll_line + r;
    let shown = window(
        expanded(line_of(editor.buffer.text(), index)),
        editor.horizontal as int,
        32,
    );
    let at = cursor_cell(editor) - editor.horizontal;
    line(
        row_area(1 + r),
        if index == cursor_line(editor) && 0 <= at < 32 { with_mark(shown, at) } else { shown },
        colored(if index == cursor_line(editor) { Tone::Cyan } else { Tone::White }),
        Align::Left,
    )
}

/// Rows of text in the editor: as many as there are lines, and room for.
pub open spec fn editor_row_count(editor: Editor) -> int {
    let left = 1 + newlines(editor.buffer.text()) - editor.scroll_line;
    let room = visible_lines(editor.keyboard_visible);
    if left <= 0 {
        0
    } else if left < room {
        left
    } else {
        room
    }
}

pub open spec fn editor_rows(editor: Editor) -> Seq<WidgetView> {
    Seq::new(editor_row_count(editor) as nat, |r: int| editor_row(editor, r))
}

/// The row for messages in the editor: the position and the size where there is
/// none.
pub open spec fn editor_status_text(editor: Editor) -> Seq<char> {
    match editor.status {
        Some(notice) => notice_text(notice),
        None => "Ln "@ + decimal_text((cursor_line(editor) + 1) as nat) + " Col "@ + decimal_text(
            (cursor_cell(editor) + 1) as nat,
        ) + "  "@ + decimal_text(vstd::utf8::encode_utf8(editor.buffer.text()).len()) + "/"@
            + decimal_text(MAX_DOCUMENT_BYTES as nat),
    }
}

/// A warning over the text while the document's card is not there.
pub open spec fn media_view(media: EditorMedia) -> Seq<WidgetView> {
    let area = Area { x: 2, y: 4, width: 28, height: 3 };
    if media == EditorMedia::Ready {
        Seq::empty()
    } else {
        seq![
            WidgetView::Clear(area),
            line(
                area,
                if media == EditorMedia::Removed {
                    "SD removed\nReinsert original to save"@
                } else {
                    "Different SD card\nSave disabled; exit/discard"@
                },
                Style { fg: Some(Tone::White), bg: Some(Tone::Red), bold: true },
                Align::Center,
            ),
        ]
    }
}

/// The name in the editor's title; its mark for changes is not cut off.
pub open spec fn editor_title(editor: Editor) -> Seq<char> {
    if editor.buffer.dirty() {
        truncated(editor.name@, 15) + "*"@
    } else {
        truncated(editor.name@, 16)
    }
}

/// The editor.
pub open spec fn editor_view(
    editor: Editor,
    show_status: bool,
    battery_shown: bool,
) -> Seq<WidgetView> {
    header_view(
        editor_title(editor),
        if editor.keyboard_visible { "KEYS"@ } else { "MOVE"@ },
        battery_shown,
    ) + editor_rows(editor) + (if show_status {
        seq![
            line(
                row_area(if editor.keyboard_visible { 6 } else { 10 }),
                truncated(editor_status_text(editor), 32),
                colored(Tone::DarkGray),
                Align::Left,
            ),
        ]
    } else {
        Seq::empty()
    }) + (if editor.keyboard_visible {
        keyboard_view(editor.keyboard, 7)
    } else {
        Seq::empty()
    }) + footer_view("EXIT"@, "KEYBOARD"@, "SAVE"@) + media_view(editor.media)
}

fn mark_cursor(text: &str, at: usize) -> (marked: String)
    requires
        at < 32,
    ensures
        marked@ == with_mark(text@, at as int),
{
    let mut chars = chars_of(text);
    let ghost start = chars@;
    assert(start + spaces(0) =~= start);
    while chars.len() <= at
        invariant
            at < 32,
            chars@.len() >= start.len(),
            chars@.len() > start.len() ==> chars@.len() <= at + 1,
            chars@ == start + spaces(chars@.len() - start.len()),
        decreases at + 1 - chars@.len(),
    {
        let ghost before = chars@;
        chars.push(' ');
        assert(chars@ =~= start + spaces(chars@.len() - start.len()));
    }
    chars[at] = '|';
    let len: usize = chars.len();
    assert(chars@.subrange(0, len as int) =~= chars@);
    let marked = text_of(&chars, 0, len);
    assert(marked@ =~= with_mark(text@, at as int));
    marked
}

fn draw_editor_rows(out: &mut Vec<Widget>, editor: &Editor)
    requires
        editor.wf(),
    ensures
        drawn(final(out)@) == drawn(old(out)@) + editor_rows(*editor),
{
    let ghost before = drawn(out@);
    let ghost rows = editor_rows(*editor);
    let room: usize = if editor.keyboard_visible { 5 } else { 9 };
    let count: usize = editor.buffer.line_count();
    let left: usize = if editor.scroll_line < count { count - editor.scroll_line } else { 0 };
    let shown: usize = if left < room { left } else { room };
    let (at_line, at_cell) = editor.buffer.display_position();
    assert(before + rows.take(0) =~= before);
    for r in 0..shown
        invariant
            editor.wf(),
            shown <= 9,
            shown == editor_row_count(*editor),
            shown > 0 ==> editor.scroll_line + shown <= count,
            rows == editor_rows(*editor),
            at_line == cursor_line(*editor),
            at_cell == cursor_cell(*editor),
            drawn(out@) == before + rows.take(r as int),
    {
        let index: usize = editor.scroll_line + r;
        let mut text = editor.buffer.display_line(index, editor.horizontal, 32);
        if index == at_line && at_cell >= editor.horizontal && at_cell - editor.horizontal < 32 {
            text = mark_cursor(text.as_str(), at_cell - editor.horizontal);
        }
        let style = if index == at_line {
            colored_style(Tone::Cyan)
        } else {
            colored_style(Tone::White)
        };
        show_line(out, row(1 + r as u16), text.as_str(), style, Align::Left);
        assert((before + rows.take(r as int)).push(rows[r as int]) =~= before + rows.take(r + 1));
    }
    assert(rows.take(rows.len() as int) =~= rows);
}

fn editor_status(editor: &Editor) -> (text: String)
    requires
        editor.wf(),
    ensures
        text@ == editor_status_text(*editor),
{
    match &editor.status {
        Some(notice) => notice.text(),
        None => {
            let (at_line, at_cell) = editor.buffer.display_position();
            let size: usize = editor.buffer.bytes().len();
            let text = joined("Ln ", decimal(at_line as u64 + 1).as_str());
            let text = joined(text.as_str(), " Col ");
            let text = joined(text.as_str(), decimal(at_cell as u64 + 1).as_str());
            let text = joined(text.as_str(), "  ");
            let text = joined(text.as_str(), decimal(size as u64).as_str());
            let text = joined(text.as_str(), "/");
            joined(text.as_str(), decimal(MAX_DOCUMENT_BYTES as u64).as_str())
        },
    }
}

fn draw_media(out: &mut Vec<Widget>, media: EditorMedia)
    ensures
        drawn(final(out)@) == drawn(old(out)@) + media_view(media),
{
    let ghost before = drawn(out@);
    let area = Area { x: 2, y: 4, width: 28, height: 3 };
    if media != EditorMedia::Ready {
        let message = match media {
            EditorMedia::Removed => "SD removed\nReinsert original to save",
            _ => "Different SD card\nSave disabled; exit/discard",
        };
        show(out, Widget::Clear(area));
        show_line(
            out,
            area,
            message,
            Style { fg: Some(Tone::White), bg: Some(Tone::Red), bold: true },
            Align::Center,
        );
    }
    assert(drawn(out@) =~= before + media_view(media));
}

fn draw_editor(out: &mut Vec<Widget>, editor: &Editor, show_status: bool, battery_shown: bool)
    requires
        editor.wf(),
    ensures
        drawn(final(out)@) == drawn(old(out)@) + editor_view(*editor, show_status, battery_shown),
{
    let ghost before = drawn(out@);
    let title = if editor.buffer.is_dirty() {
        joined(truncate(editor.name.as_str(), 15).as_str(), "*")
    } else {
        truncate(editor.name.as_str(), 16)
    };
    let hint = if editor.keyboard_visible { "KEYS" } else { "MOVE" };
    header(out, title.as_str(), hint, battery_shown);
    draw_editor_rows(out, editor);
    if show_status {
        let y: u16 = if editor.keyboard_visible { 6 } else { 10 };
        let status = editor_status(editor);
        show_line(
            out,
            row(y),
            truncate(status.as_str(), 32).as_str(),
            colored_style(Tone::DarkGray),
            Align::Left,
        );
    }
    if editor.keyboard_visible {
        draw_keyboard(out, &editor.keyboard, 7);
    }
    footer(out, "EXIT", "KEYBOARD", "SAVE");
    draw_media(out, editor.media);
    assert(drawn(out@) =~= before + editor_view(*editor, show_status, battery_shown));
}

pub open spec fn exit_option_view(label: Seq<char>, selected: bool) -> SpanView {
    SpanView {
        text: label,
        style: if selected { on(Tone::Black, Tone::Yellow) } else { on(Tone::White, Tone::DarkGray) },
    }
}

/// The question how to leave the editor, over its text.
pub open spec fn exit_prompt_view(choice: ExitChoice, status: Option<Notice>) -> Seq<WidgetView> {
    let area = Area { x: 1, y: 3, width: 30, height: 5 };
    seq![
        WidgetView::Clear(area),
        WidgetView::Fill { area, bg: Tone::Blue },
        line(
            Area { x: 1, y: 3, width: 30, height: 1 },
            "Exit editor?"@,
            Style { fg: Some(Tone::White), bg: Some(Tone::Blue), bold: true },
            Align::Center,
        ),
        WidgetView::Spans {
            area: Area { x: 1, y: 5, width: 30, height: 1 },
            spans: seq![
                exit_option_view(" SAVE "@, choice == ExitChoice::Save),
                exit_option_view(" DISCARD "@, choice == ExitChoice::Discard),
                exit_option_view(" CANCEL "@, choice == ExitChoice::Cancel),
            ],
        },
    ] + (match status {
        Some(notice) => seq![
            line(
                Area { x: 1, y: 6, width: 30, height: 1 },
                truncated(notice_text(notice), 30),
                on(Tone::Yellow, Tone::Blue),
                Align::Center,
            ),
        ],
        None => Seq::empty(),
    }) + seq![
        line(
            Area { x: 1, y: 7, width: 30, height: 1 },
            "Joystick + CLICK"@,
            Style { fg: None, bg: Some(Tone::Blue), bold: false },
            Align::Center,
        ),
    ]
}

fn exit_option(label: &str, selected: bool) -> (span: Span)
    ensures
        span@ == exit_option_view(label@, selected),
{
    let style = if selected {
        style_on(Tone::Black, Tone::Yellow)
    } else {
        style_on(Tone::White, Tone::DarkGray)
    };
    Span { text: label.to_owned(), style }
}

fn draw_exit_prompt(out: &mut Vec<Widget>, choice: ExitChoice, status: &Option<Notice>)
    ensures
        drawn(final(out)@) == drawn(old(out)@) + exit_prompt_view(choice, *status),
{
    let ghost before = drawn(out@);
    let area = Area { x: 1, y: 3, width: 30, height: 5 };
    show(out, Widget::Clear(area));
    show(out, Widget::Fill { area, bg: Tone::Blue });
    show_line(
        out,
        Area { x: 1, y: 3, width: 30, height: 1 },
        "Exit editor?",
        Style { fg: Some(Tone::White), bg: Some(Tone::Blue), bold: true },
        Align::Center,
    );
    let mut spans: Vec<Span> = Vec::new();
    spans.push(exit_option(" SAVE ", choice == ExitChoice::Save));
    spans.push(exit_option(" DISCARD ", choice == ExitChoice::Discard));
    spans.push(exit_option(" CANCEL ", choice == ExitChoice::Cancel));
    assert(span_views(spans@) =~= seq![
        exit_option_view(" SAVE "@, choice == ExitChoice::Save),
        exit_option_view(" DISCARD "@, choice == ExitChoice::Discard),
        exit_option_view(" CANCEL "@, choice == ExitChoice::Cancel),
    ]);
    show(out, Widget::Spans { area: Area { x: 1, y: 5, width: 30, height: 1 }, spans });
    if let Some(notice) = status {
        let text = notice.text();
        show_line(
            out,
            Area { x: 1, y: 6, width: 30, height: 1 },
            truncate(text.as_str(), 30).as_str(),
            style_on(Tone::Yellow, Tone::Blue),
            Align::Center,
        );
    }
    show_line(
        out,
        Area { x: 1, y: 7, width: 30, height: 1 },
        "Joystick + CLICK",
        Style { fg: None, bg: Some(Tone::Blue), bold: false },
        Align::Center,
    );
    assert(drawn(out@) =~= before + exit_prompt_view(choice, *status));
}

/// Shown while an operation holds the card busy.
pub const CARD_BUSY_WARNING: &'static str = "Do not remove the card";

/// What is on a screen, without the background and the battery. The question how to
/// leave shows the message itself, so the editor under it does not.
pub open spec fn content_view(screen: Screen, battery_shown: bool) -> Seq<WidgetView> {
    match screen {
        Screen::Missing => center_view("SD CARD"@, "Insert an SD card"@),
        Screen::Mounting => center_view("SD CARD"@, "Mounting..."@),
        Screen::Formatting => center_view("FORMATTING"@, CARD_BUSY_WARNING@),
        Screen::Fatal(message) => center_view("ERROR"@, message@),
        Screen::FormatPrompt { reason, cancelled, .. } => format_prompt_view(reason@, cancelled),
        Screen::Explorer(explorer) => explorer_view(explorer@, battery_shown),
        Screen::NewMenu(menu) => new_menu_view(menu.choice, battery_shown),
        Screen::ActionMenu(menu) => action_menu_view(menu_name(menu), menu.choice, battery_shown),
        Screen::Naming(entry) => name_entry_view(entry@, battery_shown),
        Screen::MovePicker(picker) => picker_view(picker@, battery_shown),
        Screen::DeletePrompt { item, choice, .. } => delete_prompt_view(
            item@,
            choice,
            battery_shown,
        ),
        Screen::Editor(editor) => editor_view(editor, true, battery_shown),
        Screen::ExitPrompt { editor, choice } => editor_view(editor, false, battery_shown)
            + exit_prompt_view(choice, editor.status),
    }
}

/// A whole picture: a black background, the content, and the battery over it.
pub open spec fn frame_view(content: Seq<WidgetView>, battery: Option<BatteryStatus>) -> Seq<
    WidgetView,
> {
    seq![
        WidgetView::Fill {
            area: Area { x: 0, y: 0, width: DISPLAY_COLUMNS, height: DISPLAY_ROWS },
            bg: Tone::Black,
        },
    ] + content + (match battery {
        Some(status) => seq![battery_view(status)],
        None => Seq::empty(),
    })
}

fn draw_content(out: &mut Vec<Widget>, screen: &Screen, battery_shown: bool)
    requires
        screen.wf(),
    ensures
        drawn(final(out)@) == drawn(old(out)@) + content_view(*screen, battery_shown),
{
    match screen {
        Screen::Missing => draw_center(out, "SD CARD", "Insert an SD card"),
        Screen::Mounting => draw_center(out, "SD CARD", "Mounting..."),
        Screen::Formatting => draw_center(out, "FORMATTING", CARD_BUSY_WARNING),
        Screen::Fatal(message) => draw_center(out, "ERROR", *message),
        Screen::FormatPrompt { reason, cancelled, .. } => draw_format_prompt(
            out,
            *reason,
            *cancelled,
        ),
        Screen::Explorer(explorer) => draw_explorer(out, explorer, battery_shown),
        Screen::NewMenu(menu) => draw_new_menu(out, menu, battery_shown),
        Screen::ActionMenu(menu) => draw_action_menu(out, menu, battery_shown),
        Screen::Naming(entry) => draw_name_entry(out, entry, battery_shown),
        Screen::MovePicker(picker) => draw_move_picker(out, picker, battery_shown),
        Screen::DeletePrompt { item, choice, .. } => draw_delete_prompt(
            out,
            item,
            *choice,
            battery_shown,
        ),
        Screen::Editor(editor) => draw_editor(out, editor, true, battery_shown),
        Screen::ExitPrompt { editor, choice } => {
            let ghost before = drawn(out@);
            draw_editor(out, editor, false, battery_shown);
            draw_exit_prompt(out, *choice, &editor.status);
            assert(drawn(out@) =~= before + content_view(*screen, battery_shown));
        },
    }
}

fn start_frame() -> (out: Vec<Widget>)
    ensures
        drawn(out@) == seq![
            WidgetView::Fill {
                area: Area { x: 0, y: 0, width: DISPLAY_COLUMNS, height: DISPLAY_ROWS },
                bg: Tone::Black,
            },
        ],
{
    let mut out: Vec<Widget> = Vec::new();
    assert(drawn(out@) =~= Seq::empty());
    show(
        &mut out,
        Widget::Fill {
            area: Area { x: 0, y: 0, width: DISPLAY_COLUMNS, height: DISPLAY_ROWS },
            bg: Tone::Black,
        },
    );
    assert(drawn(out@) =~= seq![
        WidgetView::Fill {
            area: Area { x: 0, y: 0, width: DISPLAY_COLUMNS, height: DISPLAY_ROWS },
            bg: Tone::Black,
        },
    ]);
    out
}

/// Draw a screen.
pub fn draw(screen: &Screen, battery: Option<BatteryStatus>) -> (widgets: Vec<Widget>)
    requires
        screen.wf(),
    ensures
        drawn(widgets@) == frame_view(content_view(*screen, battery is Some), battery),
{
    let mut out = start_frame();
    draw_content(&mut out, screen, battery.is_some());
    if let Some(status) = battery {
        draw_battery(&mut out, status);
    }
    assert(drawn(out@) =~= frame_view(content_view(*screen, battery is Some), battery));
    out
}

/// Draw the notice that an operation holds the card busy.
pub fn draw_busy(title: &str, battery: Option<BatteryStatus>) -> (widgets: Vec<Widget>)
    ensures
        drawn(widgets@) == frame_view(center_view(title@, CARD_BUSY_WARNING@), battery),
{
    let mut out = start_frame();
    draw_center(&mut out, title, CARD_BUSY_WARNING);
    if let Some(status) = battery {
        draw_battery(&mut out, status);
    }
    assert(drawn(out@) =~= frame_view(center_view(title@, CARD_BUSY_WARNING@), battery));
    out
}

/// A text that was cut fits its width.
pub proof fn truncated_text_fits(text: Seq<char>, width: int)
    requires
        width >= 0,
    ensures
        truncated(text, width).len() <= width,
        text.len() <= width ==> truncated(text, width) == text,
{
}

} // verus!
