//! What holds of every picture.
use vstd::prelude::*;

use crate::device::BatteryStatus;
use crate::explorer::ExplorerView;
use crate::keyboard::Keyboard;
use crate::naming::NameView;
use crate::picker::PickerView;
use crate::screens::{Editor, Screen};
use crate::view::{
    action_menu_view, content_view, delete_prompt_view, editor_rows, editor_view, entries_view,
    exit_prompt_view, explorer_status_view, explorer_view, folders_view, format_prompt_view,
    frame_view, keyboard_view, media_view, name_entry_view, new_menu_view, picker_view,
    status_view, Area, WidgetView, DISPLAY_COLUMNS, DISPLAY_ROWS,
};

verus! {

/// Where a widget is drawn.
pub open spec fn area_of(widget: WidgetView) -> Area {
    match widget {
        WidgetView::Clear(area) => area,
        WidgetView::Fill { area, .. } => area,
        WidgetView::Text { area, .. } => area,
        WidgetView::Spans { area, .. } => area,
    }
}

/// The area lies on the display.
pub open spec fn on_display(area: Area) -> bool {
    area.x + area.width <= DISPLAY_COLUMNS && area.y + area.height <= DISPLAY_ROWS
}

/// Everything is drawn on the display.
pub open spec fn all_on_display(widgets: Seq<WidgetView>) -> bool {
    forall|i: int| 0 <= i < widgets.len() ==> on_display(area_of(#[trigger] widgets[i]))
}

proof fn explorer_fits(e: ExplorerView, battery_shown: bool)
    requires
        e.entries.len() <= 8,
    ensures
        all_on_display(explorer_view(e, battery_shown)),
{
    assert(all_on_display(entries_view(e.entries, e.selected)));
    assert(all_on_display(explorer_status_view(e)));
}

proof fn keyboard_fits(k: Keyboard, y: int)
    requires
        0 <= y <= 8,
    ensures
        all_on_display(keyboard_view(k, y)),
{
}

proof fn name_entry_fits(n: NameView, battery_shown: bool)
    ensures
        all_on_display(name_entry_view(n, battery_shown)),
{
    keyboard_fits(n.keyboard, 6);
    assert(all_on_display(status_view(n.status, 5)));
}

proof fn picker_fits(p: PickerView, battery_shown: bool)
    requires
        p.entries.len() <= 8,
    ensures
        all_on_display(picker_view(p, battery_shown)),
{
    assert(all_on_display(folders_view(p.entries, p.selected)));
    assert(all_on_display(status_view(p.status, 10)));
}

proof fn editor_fits(editor: Editor, show_status: bool, battery_shown: bool)
    ensures
        all_on_display(editor_view(editor, show_status, battery_shown)),
{
    keyboard_fits(editor.keyboard, 7);
    assert(all_on_display(editor_rows(editor)));
    assert(all_on_display(media_view(editor.media)));
}

/// Whatever is shown lies on the display: nothing is drawn beyond its edges.
pub proof fn pictures_fit_the_display(screen: Screen, battery: Option<BatteryStatus>)
    requires
        screen.wf(),
    ensures
        all_on_display(frame_view(content_view(screen, battery is Some), battery)),
{
    let shown = battery is Some;
    match screen {
        Screen::Explorer(explorer) => explorer_fits(explorer@, shown),
        Screen::Naming(entry) => name_entry_fits(entry@, shown),
        Screen::MovePicker(picker) => picker_fits(picker@, shown),
        Screen::Editor(editor) => editor_fits(editor, true, shown),
        Screen::ExitPrompt { editor, choice } => {
            editor_fits(editor, false, shown);
            assert(all_on_display(exit_prompt_view(choice, editor.status)));
        },
        Screen::FormatPrompt { reason, cancelled, .. } => {
            assert(all_on_display(format_prompt_view(reason@, cancelled)));
        },
        Screen::NewMenu(menu) => {
            assert(all_on_display(new_menu_view(menu.choice, shown)));
        },
        Screen::ActionMenu(menu) => {
            assert(all_on_display(
                action_menu_view(crate::view::menu_name(menu), menu.choice, shown),
            ));
        },
        Screen::DeletePrompt { item, choice, .. } => {
            assert(all_on_display(delete_prompt_view(item@, choice, shown)));
        },
        _ => {},
    }
    assert(all_on_display(content_view(screen, shown)));
}

} // verus!
