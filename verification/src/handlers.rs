//! What the buttons do on each screen.
use vstd::prelude::*;

use crate::card::{document_loaded, CardFs, DirectoryItem};
use crate::editor::TextBuffer;
use crate::errors::LoadError;
use crate::explorer::{entering, gone_up, mark_listing, refreshed, Explorer, ExplorerView};
use crate::input::Button;
use crate::keyboard::{Keyboard, KeyboardPage};
use crate::names::{is_txt_file, leaf_name, leaf_of, names_txt};
use crate::notice::Notice;
use crate::picker::{picker_for, picker_refreshed, MovePicker};
use crate::screens::{
    ActionChoice, ActionMenu, DeleteChoice, Editor, EditorMedia, MediaIdentity, NameEntry, NameMode,
    NewChoice, NewMenu, Screen,
};
use crate::text::chars_of;
use crate::volume::VolumeAccess;

verus! {

/// A mounted card, if there is one, is sound.
pub open spec fn card_sound<M: VolumeAccess>(card: Option<CardFs<M>>) -> bool {
    card matches Some(fs) ==> fs.wf()
}

/// A copy of an item.
pub fn copy_item(item: &DirectoryItem) -> (copy: DirectoryItem)
    ensures
        copy == *item,
{
    DirectoryItem {
        name: item.name.clone(),
        path: item.path.clone(),
        is_dir: item.is_dir,
        size: item.size,
        hidden: item.hidden,
        system: item.system,
    }
}

/// The selected item of a listing.
pub open spec fn selected_item(entries: Seq<DirectoryItem>, selected: int) -> Option<DirectoryItem> {
    if 0 <= selected < entries.len() { Some(entries[selected]) } else { None }
}

fn copy_selected(entries: &Vec<DirectoryItem>, selected: usize) -> (item: Option<DirectoryItem>)
    ensures
        item == selected_item(entries@, selected as int),
{
    if selected < entries.len() {
        Some(copy_item(&entries[selected]))
    } else {
        None
    }
}

/// The screen is the explorer, as `e` says.
pub open spec fn is_explorer(screen: Screen, e: ExplorerView) -> bool {
    screen matches Screen::Explorer(explorer) && explorer@ == e
}

/// A document was just opened or created.
pub open spec fn is_fresh_editor(
    screen: Screen,
    explorer: Explorer,
    path: Seq<char>,
    name: Seq<char>,
    identity: MediaIdentity,
) -> bool {
    screen matches Screen::Editor(editor) && {
        &&& editor.explorer == explorer
        &&& editor.path@ == path
        &&& editor.name@ == name
        &&& editor.keyboard == fresh_keyboard()
        &&& editor.keyboard_visible
        &&& editor.scroll_line == 0
        &&& editor.horizontal == 0
        &&& editor.status is None
        &&& editor.media == EditorMedia::Ready
        &&& editor.identity == identity
    }
}

pub open spec fn fresh_keyboard() -> Keyboard {
    Keyboard { page: KeyboardPage::Lower, row: 0, column: 0 }
}

pub fn open_editor(
    explorer: Explorer,
    path: String,
    name: String,
    buffer: TextBuffer,
    identity: MediaIdentity,
) -> (screen: Screen)
    requires
        buffer.wf(),
        explorer.wf(),
    ensures
        is_fresh_editor(screen, explorer, path@, name@, identity),
        screen matches Screen::Editor(editor) && editor.buffer == buffer,
        screen.wf(),
{
    Screen::Editor(
        Editor {
            explorer,
            path,
            name,
            buffer,
            keyboard: Keyboard::new(),
            keyboard_visible: true,
            scroll_line: 0,
            horizontal: 0,
            status: None,
            media: EditorMedia::Ready,
            identity,
        },
    )
}

/// The notice for a document that could not be opened.
pub open spec fn load_notice(error: LoadError) -> Notice {
    match error {
        LoadError::TooLarge => Notice::FileTooLarge,
        LoadError::InvalidUtf8 => Notice::FileNotText,
        LoadError::Filesystem(_) => Notice::FileNotOpened,
    }
}

/// Opening the document `item`.
pub open spec fn document_opened<M: VolumeAccess>(
    before: CardFs<M>,
    after: CardFs<M>,
    explorer: Explorer,
    item: DirectoryItem,
    identity: Option<MediaIdentity>,
    screen: Screen,
) -> bool {
    &&& after.looked(&before)
    &&& exists|loaded: Result<TextBuffer, LoadError>| #[trigger]
        document_loaded(after.steps_since(&before), item.path@, loaded) && match loaded {
            Ok(buffer) => {
                &&& is_fresh_editor(screen, explorer, item.path@, item.name@, identity->0)
                &&& screen matches Screen::Editor(editor) && editor.buffer == buffer
            },
            Err(error) => is_explorer(
                screen,
                ExplorerView { status: Some(load_notice(error)), ..explorer@ },
            ),
        }
}

/// Activating the selected entry of the explorer: a folder is entered, a document
/// opened.
pub open spec fn entry_activated<M: VolumeAccess>(
    before: CardFs<M>,
    after: CardFs<M>,
    explorer: Explorer,
    identity: Option<MediaIdentity>,
    screen: Screen,
) -> bool {
    match selected_item(explorer.entries@, explorer.selected as int) {
        None => after == before && is_explorer(screen, explorer@),
        Some(item) => if item.is_dir {
            screen matches Screen::Explorer(shown) && refreshed(
                before,
                after,
                entering(explorer@, item.path@),
                shown@,
            )
        } else if !names_txt(item.name@) {
            after == before && is_explorer(
                screen,
                ExplorerView { status: Some(Notice::OnlyTextFiles), ..explorer@ },
            )
        } else {
            document_opened(before, after, explorer, item, identity, screen)
        },
    }
}

/// The last row of a page.
pub open spec fn last_row(e: ExplorerView) -> int {
    if e.entries.len() == 0 { 0 } else { e.entries.len() - 1 }
}

/// A button on the explorer.
pub open spec fn explorer_pressed<M: VolumeAccess>(
    before: CardFs<M>,
    after: CardFs<M>,
    explorer: Explorer,
    button: Button,
    identity: Option<MediaIdentity>,
    screen: Screen,
) -> bool {
    let e = explorer@;
    match button {
        Button::Up => if e.selected > 0 {
            after == before && is_explorer(
                screen,
                ExplorerView { selected: e.selected - 1, ..e },
            )
        } else if e.offset > 0 {
            screen matches Screen::Explorer(shown) && refreshed(
                before,
                after,
                ExplorerView { offset: e.offset - 1, ..e },
                shown@,
            )
        } else {
            after == before && is_explorer(screen, e)
        },
        Button::Down => if e.selected + 1 < e.entries.len() {
            after == before && is_explorer(
                screen,
                ExplorerView { selected: e.selected + 1, ..e },
            )
        } else if e.offset + e.entries.len() < e.total {
            exists|read: ExplorerView| #[trigger]
                mark_listing(read) && refreshed(
                    before,
                    after,
                    ExplorerView { offset: e.offset + 1, ..e },
                    read,
                ) && is_explorer(screen, ExplorerView { selected: last_row(read), ..read })
        } else {
            after == before && is_explorer(screen, e)
        },
        Button::Left | Button::TopLeft => screen matches Screen::Explorer(shown) && gone_up(
            before,
            after,
            e,
            shown@,
        ),
        Button::TopMiddle => after == before && screen == Screen::NewMenu(
            NewMenu { explorer, choice: NewChoice::TextFile },
        ),
        Button::TopRight => after == before && screen == Screen::ActionMenu(
            ActionMenu {
                explorer,
                item: selected_item(explorer.entries@, e.selected),
                choice: ActionChoice::Rename,
            },
        ),
        Button::Right | Button::Click => entry_activated(
            before,
            after,
            explorer,
            identity,
            screen,
        ),
    }
}

fn activate_entry<M: VolumeAccess>(
    explorer: Explorer,
    card: &mut CardFs<M>,
    identity: Option<MediaIdentity>,
) -> (screen: Screen)
    requires
        explorer.wf(),
        old(card).wf(),
        identity is Some,
    ensures
        final(card).wf(),
        entry_activated(*old(card), *final(card), explorer, identity, screen),
        screen.wf(),
{
    let ghost first = explorer;
    let ghost before = *card;
    let item = match copy_selected(&explorer.entries, explorer.selected) {
        Some(item) => item,
        None => return Screen::Explorer(explorer),
    };
    let mut explorer = explorer;
    if item.is_dir {
        explorer.path = item.path;
        explorer.offset = 0;
        explorer.selected = 0;
        explorer.refresh(card);
        return Screen::Explorer(explorer);
    }
    if !is_txt_file(item.name.as_str()) {
        explorer.status = Some(Notice::OnlyTextFiles);
        return Screen::Explorer(explorer);
    }
    let loaded = card.load_text(item.path.as_str());
    let ghost outcome = loaded;
    assert(document_loaded(card.steps_since(&before), item.path@, outcome));
    match loaded {
        Ok(buffer) => open_editor(explorer, item.path, item.name, buffer, identity.unwrap()),
        Err(error) => {
            explorer.status = Some(
                match error {
                    LoadError::TooLarge => Notice::FileTooLarge,
                    LoadError::InvalidUtf8 => Notice::FileNotText,
                    LoadError::Filesystem(_) => Notice::FileNotOpened,
                },
            );
            assert(explorer@ =~= ExplorerView { status: Some(load_notice(error)), ..first@ });
            Screen::Explorer(explorer)
        },
    }
}

fn press_on_explorer<M: VolumeAccess>(
    explorer: Explorer,
    button: Button,
    card: &mut CardFs<M>,
    identity: Option<MediaIdentity>,
) -> (screen: Screen)
    requires
        explorer.wf(),
        old(card).wf(),
        identity is Some,
    ensures
        final(card).wf(),
        explorer_pressed(*old(card), *final(card), explorer, button, identity, screen),
        screen.wf(),
{
    let mut explorer = explorer;
    match button {
        Button::Up => {
            if explorer.selected > 0 {
                explorer.selected = explorer.selected - 1;
            } else if explorer.offset > 0 {
                explorer.offset = explorer.offset - 1;
                explorer.refresh(card);
            }
        },
        Button::Down => {
            let rows: usize = explorer.entries.len();
            if rows >= 1 && explorer.selected < rows - 1 {
                explorer.selected = explorer.selected + 1;
            } else if rows < explorer.total && explorer.offset < explorer.total - rows {
                explorer.offset = explorer.offset + 1;
                explorer.refresh(card);
                let ghost read = explorer@;
                explorer.selected = explorer.entries.len().saturating_sub(1);
                assert(mark_listing(read));
            }
        },
        Button::Left | Button::TopLeft => explorer.go_parent(card),
        Button::TopMiddle => {
            return Screen::NewMenu(NewMenu { explorer, choice: NewChoice::TextFile });
        },
        Button::TopRight => {
            let item = copy_selected(&explorer.entries, explorer.selected);
            return Screen::ActionMenu(ActionMenu { explorer, item, choice: ActionChoice::Rename });
        },
        Button::Right | Button::Click => return activate_entry(explorer, card, identity),
    }
    Screen::Explorer(explorer)
}

/// A button on the explorer, if the card is still there.
pub fn handle_explorer<M: VolumeAccess>(
    explorer: Explorer,
    button: Button,
    card: &mut Option<CardFs<M>>,
    identity: Option<MediaIdentity>,
) -> (screen: Screen)
    requires
        explorer.wf(),
        card_sound(*old(card)),
        *old(card) is Some ==> identity is Some,
    ensures
        card_sound(*final(card)),
        screen.wf(),
        match *old(card) {
            None => *final(card) is None && screen is Missing,
            Some(before) => *final(card) matches Some(after) && explorer_pressed(
                before,
                after,
                explorer,
                button,
                identity,
                screen,
            ),
        },
{
    match card {
        Some(fs) => press_on_explorer(explorer, button, fs, identity),
        None => Screen::Missing,
    }
}

/// A button on the menu for new entries.
pub open spec fn new_menu_pressed(menu: NewMenu, button: Button, screen: Screen) -> bool {
    match button {
        Button::TopLeft => screen == Screen::Explorer(menu.explorer),
        Button::Up | Button::Down | Button::Left | Button::Right => screen == Screen::NewMenu(
            NewMenu { choice: menu.choice.other(), ..menu },
        ),
        Button::Click | Button::TopMiddle | Button::TopRight => screen matches Screen::Naming(entry)
            && {
            &&& entry.explorer == menu.explorer
            &&& entry.mode == (match menu.choice {
                NewChoice::TextFile => NameMode::NewText,
                NewChoice::Folder => NameMode::NewFolder,
            })
            &&& entry.source is None
            &&& is_fresh_name(entry, Seq::empty())
        },
    }
}

/// Entering a name begins with `name`, the cursor behind it.
pub open spec fn is_fresh_name(entry: NameEntry, name: Seq<char>) -> bool {
    &&& entry.name@ == name
    &&& entry.cursor == name.len()
    &&& entry.keyboard == fresh_keyboard()
    &&& entry.keyboard_visible
    &&& entry.status is None
}

/// A button on the menu for new entries.
pub fn handle_new_menu(menu: NewMenu, button: Button) -> (screen: Screen)
    requires
        menu.explorer.wf(),
    ensures
        new_menu_pressed(menu, button, screen),
        screen.wf(),
{
    let mut menu = menu;
    match button {
        Button::TopLeft => Screen::Explorer(menu.explorer),
        Button::Up | Button::Down | Button::Left | Button::Right => {
            menu.choice = menu.choice.next();
            Screen::NewMenu(menu)
        },
        Button::Click | Button::TopMiddle | Button::TopRight => {
            let mode = match menu.choice {
                NewChoice::TextFile => NameMode::NewText,
                NewChoice::Folder => NameMode::NewFolder,
            };
            Screen::Naming(
                NameEntry {
                    explorer: menu.explorer,
                    mode,
                    source: None,
                    name: Vec::new(),
                    cursor: 0,
                    keyboard: Keyboard::new(),
                    keyboard_visible: true,
                    status: None,
                },
            )
        },
    }
}

/// Carrying out the chosen action. Deleting asks first, and offers to cancel.
pub open spec fn action_taken<M: VolumeAccess>(
    before: Option<CardFs<M>>,
    after: Option<CardFs<M>>,
    menu: ActionMenu,
    screen: Screen,
) -> bool {
    let e = menu.explorer@;
    match menu.choice {
        ActionChoice::Refresh => match before {
            None => after is None && is_explorer(screen, e),
            Some(b) => after matches Some(a) && screen matches Screen::Explorer(shown) && refreshed(
                b,
                a,
                e,
                shown@,
            ),
        },
        _ => match menu.item {
            None => after == before && is_explorer(
                screen,
                ExplorerView { status: Some(Notice::NoItemSelected), ..e },
            ),
            Some(item) => match menu.choice {
                ActionChoice::Rename => {
                    &&& after == before
                    &&& screen matches Screen::Naming(entry) && {
                        &&& entry.explorer == menu.explorer
                        &&& entry.mode == NameMode::Rename
                        &&& entry.source == Some(item)
                        &&& is_fresh_name(entry, leaf_of(item.path@))
                    }
                },
                ActionChoice::Move => screen matches Screen::MovePicker(picker) && {
                    &&& picker.origin == menu.explorer
                    &&& picker.source == item
                    &&& match before {
                        None => after is None && picker@ == picker_for(item@),
                        Some(b) => after matches Some(a) && picker_refreshed(
                            b,
                            a,
                            picker_for(item@),
                            picker@,
                        ),
                    }
                },
                _ => after == before && screen == (Screen::DeletePrompt {
                    explorer: menu.explorer,
                    item,
                    choice: DeleteChoice::Cancel,
                }),
            },
        },
    }
}

/// A button on the menu of actions.
pub open spec fn action_menu_pressed<M: VolumeAccess>(
    before: Option<CardFs<M>>,
    after: Option<CardFs<M>>,
    menu: ActionMenu,
    button: Button,
    screen: Screen,
) -> bool {
    match button {
        Button::TopLeft => after == before && screen == Screen::Explorer(menu.explorer),
        Button::Up | Button::Left => after == before && screen == Screen::ActionMenu(
            ActionMenu { choice: menu.choice.above(), ..menu },
        ),
        Button::Down | Button::Right => after == before && screen == Screen::ActionMenu(
            ActionMenu { choice: menu.choice.below(), ..menu },
        ),
        Button::Click | Button::TopMiddle | Button::TopRight => action_taken(
            before,
            after,
            menu,
            screen,
        ),
    }
}

fn take_action<M: VolumeAccess>(menu: ActionMenu, card: &mut Option<CardFs<M>>) -> (screen: Screen)
    requires
        menu.explorer.wf(),
        card_sound(*old(card)),
    ensures
        card_sound(*final(card)),
        screen.wf(),
        action_taken(*old(card), *final(card), menu, screen),
{
    let ActionMenu { explorer, item, choice } = menu;
    let mut explorer = explorer;
    if let ActionChoice::Refresh = choice {
        if let Some(fs) = card {
            explorer.refresh(fs);
        }
        return Screen::Explorer(explorer);
    }
    let item = match item {
        Some(item) => item,
        None => {
            explorer.status = Some(Notice::NoItemSelected);
            return Screen::Explorer(explorer);
        },
    };
    match choice {
        ActionChoice::Rename => {
            let name = chars_of(leaf_name(item.path.as_str()));
            Screen::Naming(
                NameEntry {
                    explorer,
                    mode: NameMode::Rename,
                    source: Some(item),
                    cursor: name.len(),
                    name,
                    keyboard: Keyboard::new(),
                    keyboard_visible: true,
                    status: None,
                },
            )
        },
        ActionChoice::Move => {
            let mut picker = MovePicker::new(explorer, item);
            if let Some(fs) = card {
                picker.refresh(fs);
            }
            Screen::MovePicker(picker)
        },
        _ => Screen::DeletePrompt { explorer, item, choice: DeleteChoice::Cancel },
    }
}

/// A button on the menu of actions.
pub fn handle_action_menu<M: VolumeAccess>(
    menu: ActionMenu,
    button: Button,
    card: &mut Option<CardFs<M>>,
) -> (screen: Screen)
    requires
        menu.explorer.wf(),
        card_sound(*old(card)),
    ensures
        card_sound(*final(card)),
        screen.wf(),
        action_menu_pressed(*old(card), *final(card), menu, button, screen),
{
    let mut menu = menu;
    match button {
        Button::TopLeft => return Screen::Explorer(menu.explorer),
        Button::Up | Button::Left => {
            menu.choice = menu.choice.previous();
        },
        Button::Down | Button::Right => {
            menu.choice = menu.choice.next();
        },
        Button::Click | Button::TopMiddle | Button::TopRight => return take_action(menu, card),
    }
    Screen::ActionMenu(menu)
}

} // verus!
