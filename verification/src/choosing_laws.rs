//! What is created, renamed, moved and deleted: always what was chosen, where it was chosen.
use vstd::prelude::*;

use crate::card::{page_rule, CardFs, DirectoryItem, ItemView};
use crate::carrying_laws::{
    move_leaves, moves_carry_everything, rooted, same_name, walks_tell, Order,
};
use crate::contents::{place_of, run, Card, Naming};
use crate::contents_runs::lies_under;
use crate::errors::FsOpError;
use crate::explorer::{
    is_past_the_end, mark_listing, page_read, refreshed_at, Explorer, ExplorerView,
};
use crate::handlers::{action_menu_pressed, explorer_pressed, new_menu_pressed};
use crate::input::Button;
use crate::moving::{entry_deleted_verified, entry_moved};
use crate::names::{
    components_of, joined_path, joining_adds_a_component, leaf_of, leaf_of_joined, lies_inside,
    parent_of, parent_of_joined, short_form, NameFault,
};
use crate::naming::{name_entry_pressed, name_problem, NameView};
use crate::notice::{MoveVerb, Notice};
use crate::operations::{delete_made, delete_prompt_pressed, move_made, op_run, picker_pressed};
use crate::picker::{
    excluded_from, mark_folders, picker_for, picker_refreshed, picker_refreshed_further,
    picker_with_page, MovePicker, PickerView,
};
use crate::removal_laws::{deletes_are_reported_truly, deletion_leaves, directory_at};
use crate::screens::{
    ActionChoice, ActionMenu, DeleteChoice, HandleResult, MediaIdentity, NameEntry, NameMode,
    NewChoice, NewMenu, PendingFsOp, Screen,
};
use crate::session::Step;
use crate::storage::since;
use crate::text::same_but_for_case;
use crate::volume::{scanned, EntryRecord, VolumeAccess};

verus! {

/// A name as it can be typed for an entry.
pub open spec fn is_plain(name: Seq<char>) -> bool {
    name.len() > 0 && !name.contains('/')
}

/// The entry at `path` is in the folder at `folder`, under the name `name`.
pub open spec fn stands_in(path: Seq<char>, folder: Seq<char>, name: Seq<char>) -> bool {
    &&& parent_of(path) == folder
    &&& leaf_of(path) == name
    &&& components_of(path) == components_of(folder).push(name)
}

proof fn joined_paths_stand(folder: Seq<char>, name: Seq<char>)
    requires
        folder.len() > 0,
        is_plain(name),
    ensures
        stands_in(joined_path(folder, name), folder, name),
{
    parent_of_joined(folder, name);
    leaf_of_joined(folder, name);
    joining_adds_a_component(folder, name);
}

/// A rename keeps the entry in its folder: the new path has the parent of the old one, and
/// ends in the name that was typed. It is the entry that was asked about that is renamed.
pub proof fn renames_stay_in_the_folder<M: VolumeAccess>(
    before: Option<CardFs<M>>,
    after: Option<CardFs<M>>,
    entry: NameEntry,
    verdict: Result<(), &'static str>,
    identity: Option<MediaIdentity>,
    result: HandleResult,
)
    requires
        name_entry_pressed(before, after, entry, Button::TopRight, verdict, identity, result),
        entry.mode == NameMode::Rename,
        entry.source matches Some(source) && parent_of(source.path@) == entry.explorer.path@,
        entry.explorer.path@.len() > 0,
        is_plain(entry.name@),
    ensures
        after == before,
        result matches HandleResult::Op(op) ==> {
            &&& op matches PendingFsOp::Rename { entry: asked, destination } && {
                &&& asked == entry
                &&& stands_in(destination@, parent_of(entry.source->0.path@), entry.name@)
            }
        },
        verdict is Ok && before is Some ==> result is Op,
        verdict is Err ==> (result matches HandleResult::Screen(screen)
            && screen matches Screen::Naming(shown) && shown.name@ == entry.name@ && shown.source
            == entry.source && shown.status is Some),
{
    joined_paths_stand(entry.explorer.path@, entry.name@);
}

/// A new document is created in the folder that is shown, under the name that was typed with
/// `.txt` behind it, and the editor opens empty on that very path.
pub proof fn new_documents_stand_in_the_folder<M: VolumeAccess>(
    before: CardFs<M>,
    after: Option<CardFs<M>>,
    entry: NameEntry,
    identity: Option<MediaIdentity>,
    result: HandleResult,
)
    requires
        name_entry_pressed(
            Some(before),
            after,
            entry,
            Button::TopRight,
            Ok(()),
            identity,
            result,
        ),
        entry.mode == NameMode::NewText,
        entry.explorer.path@.len() > 0,
        is_plain(entry.name@),
    ensures
        after matches Some(card) && {
            let t = card.steps_since(&before);
            &&& card.follows(&before)
            &&& t.len() == 1
            &&& t[0] matches Step::CreateFile { path, reply } && {
                &&& stands_in(path, entry.explorer.path@, entry.name@ + ".txt"@)
                &&& reply is Ok ==> (result matches HandleResult::Screen(screen)
                    && screen matches Screen::Editor(editor) && editor.path@ == path
                    && editor.buffer.text() == Seq::<char>::empty() && editor.explorer
                    == entry.explorer)
                &&& reply is Err ==> (result matches HandleResult::Screen(screen)
                    && screen matches Screen::Naming(shown) && shown.name@ == entry.name@
                    && shown.status is Some)
            }
        },
{
    reveal_strlit(".txt");
    let name = entry.name@ + ".txt"@;
    assert(!name.contains('/')) by {
        if name.contains('/') {
            let i = choose|i: int| 0 <= i < name.len() && name[i] == '/';
            if i < entry.name@.len() {
                assert(entry.name@.contains(entry.name@[i]));
            }
        }
    }
    joined_paths_stand(entry.explorer.path@, name);
}

/// A new folder is created in the folder that is shown, under the name that was typed, and
/// that folder is then listed.
pub proof fn new_folders_stand_in_the_folder<M: VolumeAccess>(
    before: CardFs<M>,
    after: Option<CardFs<M>>,
    entry: NameEntry,
    identity: Option<MediaIdentity>,
    result: HandleResult,
)
    requires
        name_entry_pressed(
            Some(before),
            after,
            entry,
            Button::TopRight,
            Ok(()),
            identity,
            result,
        ),
        entry.mode == NameMode::NewFolder,
        entry.explorer.path@.len() > 0,
        is_plain(entry.name@),
    ensures
        exists|made: CardFs<M>, path: Seq<char>, reply: Result<(), FsOpError>|
            {
                &&& made.follows(&before)
                &&& #[trigger] made.steps_since(&before) == seq![
                    #[trigger] folder_creation(path, reply),
                ]
                &&& stands_in(path, entry.explorer.path@, entry.name@)
                &&& reply is Err ==> after == Some(made) && (result matches HandleResult::Screen(
                    screen,
                ) && screen matches Screen::Naming(shown) && shown.name@ == entry.name@
                    && shown.status is Some)
                &&& reply is Ok ==> (result matches HandleResult::Screen(screen)
                    && screen matches Screen::Explorer(shown) && shown.status == Some(
                    Notice::FolderCreated,
                ) && shown.path@ == entry.explorer.path@)
            },
{
    let path = joined_path(entry.explorer.path@, entry.name@);
    joined_paths_stand(entry.explorer.path@, entry.name@);
    let (made, reply) = choose|made: CardFs<M>, reply: Result<(), FsOpError>|
        {
            &&& #[trigger] crate::naming::folder_step(before, made, path, reply)
            &&& match reply {
                Ok(_) => exists|read: ExplorerView| #[trigger]
                    mark_listing(read) && refreshed_at(
                        made,
                        after->0,
                        entry.explorer@,
                        path,
                        read,
                    ) && (result matches HandleResult::Screen(screen)
                        && crate::handlers::is_explorer(
                        screen,
                        ExplorerView { status: Some(Notice::FolderCreated), ..read },
                    )),
                Err(FsOpError::AlreadyExists) => after == Some(made) && crate::naming::asks_again(
                    result,
                    entry,
                    Notice::NameExists,
                ),
                Err(error) => after == Some(made) && crate::naming::asks_again(
                    result,
                    entry,
                    Notice::CreateFailed(error),
                ),
            }
        };
    assert(made.steps_since(&before) == seq![folder_creation(path, reply)]);
    if reply is Ok {
        let read = choose|read: ExplorerView| #[trigger]
            mark_listing(read) && refreshed_at(made, after->0, entry.explorer@, path, read) && (
            result matches HandleResult::Screen(screen) && crate::handlers::is_explorer(
                screen,
                ExplorerView { status: Some(Notice::FolderCreated), ..read },
            ));
        let (found, place) = choose|found: CardFs<M>, place: Result<Option<usize>, FsOpError>| #[trigger]
            crate::explorer::place_asked(made, found, entry.explorer@.path, path, place)
                && crate::explorer::refreshed(
                found,
                after->0,
                crate::explorer::turned_to(entry.explorer@, place),
                read,
            );
        crate::typing_laws::refreshing_keeps_the_path(
            found,
            after->0,
            crate::explorer::turned_to(entry.explorer@, place),
            read,
        );
    }
}

/// The step that creates a folder.
pub open spec fn folder_creation(path: Seq<char>, reply: Result<(), FsOpError>) -> Step {
    Step::CreateFolder { path, reply }
}

/// Leaving the name without finishing it, and everything that is typed before, asks the card
/// to change nothing.
pub proof fn only_done_acts_on_a_name<M: VolumeAccess>(
    before: Option<CardFs<M>>,
    after: Option<CardFs<M>>,
    entry: NameEntry,
    button: Button,
    verdict: Result<(), &'static str>,
    identity: Option<MediaIdentity>,
    result: HandleResult,
)
    requires
        name_entry_pressed(before, after, entry, button, verdict, identity, result),
        button != Button::TopRight,
        entry.explorer.offset >= 0,
    ensures
        !(result is Op),
        button != Button::TopLeft ==> after == before && (result matches HandleResult::Screen(screen)
            && screen matches Screen::Naming(shown) && shown.explorer == entry.explorer
            && shown.source == entry.source && shown.mode == entry.mode),
        button == Button::TopMiddle ==> (result matches HandleResult::Screen(screen)
            && screen matches Screen::Naming(shown) && shown.name@ == entry.name@
            && shown.keyboard_visible != entry.keyboard_visible),
        button == Button::TopLeft && before is Some ==> (result matches HandleResult::Screen(screen)
            && screen matches Screen::Explorer(shown) && shown.path@ == entry.explorer.path@),
{
    if button == Button::TopLeft && before is Some {
        crate::typing_laws::refreshing_keeps_the_path(
            before->0,
            after->0,
            entry.explorer@,
            result->Screen_0->Explorer_0@,
        );
    }
}

/// The menu for new entries asks for the name of what was chosen, in the folder that is shown.
pub proof fn new_entries_are_named_as_chosen(menu: NewMenu, button: Button, screen: Screen)
    requires
        new_menu_pressed(menu, button, screen),
    ensures
        screen matches Screen::Naming(entry) ==> {
            &&& entry.explorer == menu.explorer
            &&& entry.name@.len() == 0
            &&& entry.source is None
            &&& menu.choice == NewChoice::TextFile <==> entry.mode == NameMode::NewText
            &&& menu.choice == NewChoice::Folder <==> entry.mode == NameMode::NewFolder
        },
        button == Button::TopLeft ==> screen == Screen::Explorer(menu.explorer),
        button == Button::Click || button == Button::TopMiddle || button == Button::TopRight
            ==> screen is Naming,
        button == Button::Up || button == Button::Down || button == Button::Left || button
            == Button::Right ==> (screen matches Screen::NewMenu(next) && next.explorer
            == menu.explorer && next.choice != menu.choice),
{
}

/// Each action is for the entry that the menu was opened for, and does what it says: rename
/// asks for a new name and offers the old one, move asks for a folder, delete asks whether to
/// delete and offers to cancel. None of them changes anything yet.
pub proof fn actions_do_what_they_say<M: VolumeAccess>(
    before: Option<CardFs<M>>,
    after: Option<CardFs<M>>,
    menu: ActionMenu,
    button: Button,
    screen: Screen,
)
    requires
        action_menu_pressed(before, after, menu, button, screen),
    ensures
        button == Button::TopLeft ==> after == before && screen == Screen::Explorer(menu.explorer),
        button == Button::Click || button == Button::TopMiddle || button == Button::TopRight ==> (
        menu.item matches Some(item) ==> {
            &&& menu.choice == ActionChoice::Rename ==> after == before && (
            screen matches Screen::Naming(entry) && entry.mode == NameMode::Rename && entry.source
                == Some(item) && entry.name@ == leaf_of(item.path@) && entry.cursor
                == entry.name@.len() && entry.explorer == menu.explorer)
            &&& menu.choice == ActionChoice::Move ==> (screen matches Screen::MovePicker(picker)
                && picker.source == item && picker.origin == menu.explorer)
            &&& menu.choice == ActionChoice::Delete ==> after == before && (
            screen matches Screen::DeletePrompt { explorer, item: asked, choice } && asked == item
                && explorer == menu.explorer && choice == DeleteChoice::Cancel)
        }),
        button == Button::Up || button == Button::Down || button == Button::Left || button
            == Button::Right ==> after == before && (screen matches Screen::ActionMenu(next)
            && next.item == menu.item && next.explorer == menu.explorer),
{
}

/// The actions are offered in the order rename, move, delete, refresh; down goes to the next
/// one and up to the one before, round the ends.
pub proof fn actions_come_in_order<M: VolumeAccess>(
    before: Option<CardFs<M>>,
    after: Option<CardFs<M>>,
    menu: ActionMenu,
    button: Button,
    screen: Screen,
)
    requires
        action_menu_pressed(before, after, menu, button, screen),
    ensures
        button == Button::Down || button == Button::Right ==> (screen matches Screen::ActionMenu(next)
            && action_place(next.choice) == (action_place(menu.choice) + 1) % 4),
        button == Button::Up || button == Button::Left ==> (screen matches Screen::ActionMenu(next)
            && action_place(next.choice) == (action_place(menu.choice) + 3) % 4),
{
}

/// Place of an action in the menu.
pub open spec fn action_place(choice: ActionChoice) -> int {
    match choice {
        ActionChoice::Rename => 0,
        ActionChoice::Move => 1,
        ActionChoice::Delete => 2,
        ActionChoice::Refresh => 3,
    }
}

/// Only a confirmed question deletes, and only the entry that the question named.
pub proof fn confirmed_deletes_name_their_entry(
    explorer: Explorer,
    item: DirectoryItem,
    choice: DeleteChoice,
    button: Button,
    result: HandleResult,
)
    requires
        delete_prompt_pressed(explorer, item, choice, button, result),
    ensures
        result matches HandleResult::Op(op) ==> {
            &&& op matches PendingFsOp::Delete { explorer: e, item: asked } && asked == item && e
                == explorer
            &&& choice == DeleteChoice::Delete
            &&& button == Button::Click || button == Button::TopMiddle || button == Button::TopRight
        },
        choice == DeleteChoice::Delete && (button == Button::Click || button == Button::TopMiddle
            || button == Button::TopRight) ==> result is Op,
        button == Button::Left || button == Button::Right || button == Button::Up || button
            == Button::Down ==> (result matches HandleResult::Screen(screen)
            && screen matches Screen::DeletePrompt { explorer: e, item: asked, choice: next }
            && asked == item && e == explorer && next != choice),
        choice == DeleteChoice::Cancel && !(button == Button::Left || button == Button::Right
            || button == Button::Up || button == Button::Down) ==> result == HandleResult::Screen(
            Screen::Explorer(explorer),
        ),
        button == Button::TopLeft ==> result == HandleResult::Screen(Screen::Explorer(explorer)),
{
}

/// From the row that is selected to the delete: what a confirmed delete is asked of the card
/// is exactly the path of the row that was highlighted, as the kind of entry that it is.
pub proof fn the_highlighted_entry_is_deleted<M: VolumeAccess>(
    card: CardFs<M>,
    after: CardFs<M>,
    explorer: Explorer,
    identity: Option<MediaIdentity>,
    menu: ActionMenu,
    confirm: Button,
    op: PendingFsOp,
    screen: Screen,
)
    requires
        explorer.selected < explorer.entries@.len(),
        explorer_pressed(
            card,
            card,
            explorer,
            Button::TopRight,
            identity,
            Screen::ActionMenu(menu),
        ),
        action_menu_pressed(
            Some(card),
            Some(card),
            ActionMenu { choice: ActionChoice::Delete, ..menu },
            Button::Click,
            Screen::DeletePrompt {
                explorer,
                item: explorer.entries@[explorer.selected as int],
                choice: DeleteChoice::Cancel,
            },
        ),
        delete_prompt_pressed(
            explorer,
            explorer.entries@[explorer.selected as int],
            DeleteChoice::Delete,
            confirm,
            HandleResult::Op(op),
        ),
        op_run(card, after, op, screen),
    ensures
        menu.item == Some(explorer.entries@[explorer.selected as int]),
        exists|deleted: CardFs<M>, result: Result<(), FsOpError>|
            {
                &&& deleted.follows(&card)
                &&& #[trigger] entry_deleted_verified(
                    deleted.steps_since(&card),
                    explorer.entries@[explorer.selected as int].path@,
                    explorer.entries@[explorer.selected as int].is_dir,
                    result,
                )
                &&& screen matches Screen::Explorer(shown) && match result {
                    Ok(_) => shown.status == Some(
                        if explorer.entries@[explorer.selected as int].is_dir {
                            Notice::FolderDeleted
                        } else {
                            Notice::FileDeleted
                        },
                    ),
                    Err(error) => shown.status == Some(Notice::DeleteFailed(error)),
                }
            },
{
    let item = explorer.entries@[explorer.selected as int];
    assert(op == (PendingFsOp::Delete { explorer, item }));
    let (deleted, result, read) = choose|
        deleted: CardFs<M>,
        result: Result<(), FsOpError>,
        read: ExplorerView,
    |
        {
            &&& #[trigger] delete_made(card, deleted, item, result)
            &&& #[trigger] mark_listing(read)
            &&& crate::explorer::refreshed(deleted, after, explorer@, read)
            &&& crate::handlers::is_explorer(
                screen,
                ExplorerView {
                    status: Some(crate::operations::delete_notice(result, item.is_dir)),
                    ..read
                },
            )
        };
    assert(entry_deleted_verified(deleted.steps_since(&card), item.path@, item.is_dir, result));
}

/// A delete that is run leaves nothing of the entry that was named when it reports success,
/// and touches nothing else on the card, whatever it reports.
pub proof fn run_deletes_touch_their_entry_alone<M: VolumeAccess>(
    id: Naming,
    cs: Seq<Card<M::Dir, M::File>>,
    before: CardFs<M>,
    after: CardFs<M>,
    item: DirectoryItem,
    result: Result<(), FsOpError>,
)
    requires
        delete_made(before, after, item, result),
        run(id, cs, since(before.volume().calls(), after.volume().calls())),
        item.path@.len() > 0,
        item.path@.last() != '/',
    ensures
        deletion_leaves(id, cs[0], cs.last(), item.path@, item.is_dir, result),
        result is Ok ==> !cs.last().entries.contains_key(place_of(id, item.path@)),
{
    deletes_are_reported_truly(
        id,
        cs,
        before.volume(),
        after.volume(),
        item.path@,
        item.is_dir,
        result,
    );
}

/// A rename that is run moves the entry that was asked about to the destination, carries all
/// of it, and touches nothing else. What is shown afterwards says how it ended.
pub proof fn run_moves_carry_their_entry<M: VolumeAccess>(
    id: Naming,
    order: Order,
    cs: Seq<Card<M::Dir, M::File>>,
    before: CardFs<M>,
    after: CardFs<M>,
    from: Seq<char>,
    to: Seq<char>,
    result: Result<(), FsOpError>,
)
    requires
        move_made(before, after, from, to, result),
        run(id, cs, since(before.volume().calls(), after.volume().calls())),
        walks_tell(id, order, cs, since(before.volume().calls(), after.volume().calls())),
        rooted(cs[0]),
        from.len() > 0 && from.last() != '/',
        to.len() > 0 && to.last() != '/',
        lies_under(place_of(id, to), directory_at(id, from)) ==> lies_inside(from, to),
        !same_name(from, to, short_form(leaf_of(from)), short_form(leaf_of(to))),
    ensures
        move_leaves(id, cs[0], cs.last(), from, to, result),
{
    moves_carry_everything(
        id,
        order,
        cs,
        before.volume(),
        after.volume(),
        from,
        to,
        short_form(leaf_of(from)),
        short_form(leaf_of(to)),
        result,
    );
}

/// Running what was asked: a rename moves its source to its destination, a move the picked
/// entry to the picked folder, a delete its entry. Afterwards the folder is shown, or the
/// question again with the reason.
pub proof fn operations_run_on_what_was_chosen<M: VolumeAccess>(
    before: CardFs<M>,
    after: CardFs<M>,
    op: PendingFsOp,
    screen: Screen,
)
    requires
        op_run(before, after, op, screen),
    ensures
        op matches PendingFsOp::Rename { entry, destination } ==> exists|
            moved: CardFs<M>,
            result: Result<(), FsOpError>,
        |
            {
                &&& moved.follows(&before)
                &&& #[trigger] entry_moved(
                    moved.steps_since(&before),
                    entry.source->0.path@,
                    destination@,
                    short_form(leaf_of(entry.source->0.path@)),
                    short_form(leaf_of(destination@)),
                    result,
                )
                &&& move_report(MoveVerb::Rename, result, screen)
                &&& screen matches Screen::Naming(shown) ==> shown.source == entry.source
                    && shown.name@ == entry.name@ && shown.explorer == entry.explorer
            },
        op matches PendingFsOp::Move { picker, destination } ==> exists|
            moved: CardFs<M>,
            result: Result<(), FsOpError>,
        |
            {
                &&& moved.follows(&before)
                &&& #[trigger] entry_moved(
                    moved.steps_since(&before),
                    picker.source.path@,
                    destination@,
                    short_form(leaf_of(picker.source.path@)),
                    short_form(leaf_of(destination@)),
                    result,
                )
                &&& move_report(MoveVerb::Move, result, screen)
                &&& screen matches Screen::MovePicker(shown) ==> shown.source == picker.source
                    && shown.path@ == picker.path@
            },
{
    match op {
        PendingFsOp::Rename { entry, destination } => {
            let (moved, result) = choose|moved: CardFs<M>, result: Result<(), FsOpError>|
                {
                    &&& #[trigger] move_made(
                        before,
                        moved,
                        (entry.source->0).path@,
                        destination@,
                        result,
                    )
                    &&& match crate::operations::outcome_of(result, MoveVerb::Rename) {
                        crate::operations::MoveOutcome::Done { source_remains } =>
                            crate::operations::landing_shown(
                            moved,
                            after,
                            entry.explorer@,
                            destination@,
                            Notice::Landed { verb: MoveVerb::Rename, source_remains },
                            screen,
                        ),
                        crate::operations::MoveOutcome::Rejected(notice) => after == moved
                            && crate::naming::asks_again(
                            HandleResult::Screen(screen),
                            entry,
                            notice,
                        ),
                    }
                };
            assert(entry_moved(
                moved.steps_since(&before),
                entry.source->0.path@,
                destination@,
                short_form(leaf_of(entry.source->0.path@)),
                short_form(leaf_of(destination@)),
                result,
            ));
            assert(move_report(MoveVerb::Rename, result, screen));
        },
        PendingFsOp::Move { picker, destination } => {
            let (moved, result) = choose|moved: CardFs<M>, result: Result<(), FsOpError>|
                {
                    &&& #[trigger] move_made(
                        before,
                        moved,
                        picker.source.path@,
                        destination@,
                        result,
                    )
                    &&& match crate::operations::outcome_of(result, MoveVerb::Move) {
                        crate::operations::MoveOutcome::Done { source_remains } =>
                            crate::operations::landing_shown(
                            moved,
                            after,
                            ExplorerView { path: picker.path@, ..crate::explorer::root_view() },
                            destination@,
                            Notice::Landed { verb: MoveVerb::Move, source_remains },
                            screen,
                        ),
                        crate::operations::MoveOutcome::Rejected(notice) => after == moved
                            && crate::operations::is_picker(
                            HandleResult::Screen(screen),
                            picker,
                            crate::picker::PickerView { status: Some(notice), ..picker@ },
                        ),
                    }
                };
            assert(entry_moved(
                moved.steps_since(&before),
                picker.source.path@,
                destination@,
                short_form(leaf_of(picker.source.path@)),
                short_form(leaf_of(destination@)),
                result,
            ));
            assert(move_report(MoveVerb::Move, result, screen));
        },
        _ => {},
    }
}

/// What is said of a rename or move: it landed, with or without its old entry, or the name was
/// taken, or it failed and why. Only what landed leads back to the explorer.
pub open spec fn move_report(verb: MoveVerb, result: Result<(), FsOpError>, screen: Screen) -> bool {
    match result {
        Ok(_) => screen matches Screen::Explorer(shown) && shown.status == Some(
            Notice::Landed { verb, source_remains: false },
        ),
        Err(FsOpError::DeleteIncomplete(_)) | Err(FsOpError::SourceRemains(_)) =>
            screen matches Screen::Explorer(shown) && shown.status == Some(
            Notice::Landed { verb, source_remains: true },
        ),
        Err(FsOpError::AlreadyExists) => !(screen is Explorer) && told(screen) == Some(
            Notice::Taken(verb),
        ),
        Err(error) => !(screen is Explorer) && told(screen) == Some(
            Notice::MoveFailed { verb, error },
        ),
    }
}

/// The message on a screen that asks something.
pub open spec fn told(screen: Screen) -> Option<Notice> {
    match screen {
        Screen::Naming(entry) => entry.status,
        Screen::MovePicker(picker) => picker.status,
        _ => None,
    }
}

/// A move goes into the folder that the picker shows, and the entry keeps its name. An entry
/// that is in that folder already is not moved.
pub proof fn moves_go_to_the_folder_shown<M: VolumeAccess>(
    before: CardFs<M>,
    after: CardFs<M>,
    picker: MovePicker,
    button: Button,
    result: HandleResult,
)
    requires
        picker_pressed(before, after, picker, button, result),
        picker.path@.len() > 0,
        is_plain(leaf_of(picker.source.path@)),
    ensures
        result matches HandleResult::Op(op) ==> {
            &&& button == Button::TopMiddle
            &&& after == before
            &&& op matches PendingFsOp::Move { picker: asked, destination } && asked == picker
                && stands_in(destination@, picker.path@, leaf_of(picker.source.path@))
        },
        button == Button::TopMiddle ==> after == before && (result is Op <==> !same_but_for_case(
            parent_of(picker.source.path@),
            picker.path@,
        )),
        result matches HandleResult::Screen(screen) ==> (screen matches Screen::MovePicker(shown)
            ==> shown.source == picker.source && shown.origin == picker.origin),
{
    joined_paths_stand(picker.path@, leaf_of(picker.source.path@));
}

proof fn picking_keeps_the_path<M: VolumeAccess>(
    before: CardFs<M>,
    after: CardFs<M>,
    p: PickerView,
    r: PickerView,
)
    requires
        picker_refreshed(before, after, p, r),
        p.offset >= 0,
    ensures
        r.path == p.path,
        r.source == p.source,
        0 <= r.offset <= p.offset,
    decreases p.offset,
{
    let (read, page) = choose|read: CardFs<M>, page: Result<(Seq<ItemView>, int), FsOpError>|
        {
            &&& #[trigger] page_read(
                before,
                read,
                p.path,
                p.offset,
                true,
                excluded_from(p.source),
                page,
            )
            &&& if is_past_the_end(p.offset, page) && p.offset > 0 {
                picker_refreshed_further(read, after, picker_with_page(p, page), r)
            } else {
                after == read && r == picker_with_page(p, page)
            }
        };
    if is_past_the_end(p.offset, page) && p.offset > 0 {
        let middle = picker_with_page(p, page);
        let inner = choose|inner: PickerView| #[trigger]
            mark_folders(inner) && picker_refreshed(read, after, middle, inner) && r == (
            PickerView { status: None, ..inner });
        picking_keeps_the_path(read, after, middle, inner);
    }
}

/// The entries that a picker offers for `source` in the folder at `path`: folders of that
/// folder, and not the source itself.
pub open spec fn offers_folders(path: Seq<char>, source: ItemView, rows: Seq<ItemView>) -> bool {
    forall|i: int|
        0 <= i < rows.len() ==> (#[trigger] rows[i]).is_dir && (source.is_dir
            ==> !same_but_for_case(rows[i].path, source.path)) && (exists|name: Seq<char>|
            rows[i].path == #[trigger] joined_path(path, name))
}

proof fn kept_folders_are_offered(
    path: Seq<char>,
    offset: usize,
    excluded: Option<Seq<char>>,
    visited: Seq<EntryRecord>,
)
    ensures
        ({
            let kept = scanned(page_rule(path, offset, 8, true, excluded), visited).kept;
            &&& kept.len() <= 8
            &&& forall|i: int|
                0 <= i < kept.len() ==> (#[trigger] kept[i]).directory && (excluded matches Some(
                    own,
                ) ==> !same_but_for_case(joined_path(path, kept[i].name@), own))
        }),
    decreases visited.len(),
{
    if visited.len() > 0 {
        kept_folders_are_offered(path, offset, excluded, visited.drop_last());
    }
}

/// The picker offers folders of the folder that it shows, and never the folder that is being
/// moved.
pub proof fn pickers_offer_folders<M: VolumeAccess>(
    before: CardFs<M>,
    after: CardFs<M>,
    p: PickerView,
    r: PickerView,
)
    requires
        picker_refreshed(before, after, p, r),
        p.offset >= 0,
        p.offset <= usize::MAX,
    ensures
        r.path == p.path,
        r.entries.len() <= 8,
        offers_folders(p.path, p.source, r.entries),
        r.entries.len() > 0 && p.selected >= 0 ==> 0 <= r.selected < r.entries.len(),
    decreases p.offset,
{
    picking_keeps_the_path(before, after, p, r);
    let (read, page) = choose|read: CardFs<M>, page: Result<(Seq<ItemView>, int), FsOpError>|
        {
            &&& #[trigger] page_read(
                before,
                read,
                p.path,
                p.offset,
                true,
                excluded_from(p.source),
                page,
            )
            &&& if is_past_the_end(p.offset, page) && p.offset > 0 {
                picker_refreshed_further(read, after, picker_with_page(p, page), r)
            } else {
                after == read && r == picker_with_page(p, page)
            }
        };
    if is_past_the_end(p.offset, page) && p.offset > 0 {
        let middle = picker_with_page(p, page);
        let inner = choose|inner: PickerView| #[trigger]
            mark_folders(inner) && picker_refreshed(read, after, middle, inner) && r == (
            PickerView { status: None, ..inner });
        pickers_offer_folders(read, after, middle, inner);
    } else if let Ok((rows, total)) = page {
        let step = read.steps_since(&before)[0];
        let visited = step->Scan_reply->Ok_0;
        kept_folders_are_offered(
            p.path,
            p.offset as usize,
            excluded_from(p.source),
            visited,
        );
        let kept = scanned(
            page_rule(p.path, p.offset as usize, 8, true, excluded_from(p.source)),
            visited,
        ).kept;
        assert forall|i: int| 0 <= i < rows.len() implies (#[trigger] rows[i]).is_dir && (
        p.source.is_dir ==> !same_but_for_case(rows[i].path, p.source.path)) && (exists|
            name: Seq<char>,
        |
            rows[i].path == #[trigger] joined_path(p.path, name)) by {
            assert(kept[i].directory);
            assert(rows[i].path == joined_path(p.path, kept[i].name@));
        }
    }
}

/// In the picker, going into a row shows the folder of that row, going up the parent folder,
/// and leaving goes back to the folder that the move began in. Nothing but the middle button
/// asks for the move.
pub proof fn pickers_go_where_they_are_led<M: VolumeAccess>(
    before: CardFs<M>,
    after: CardFs<M>,
    picker: MovePicker,
    button: Button,
    result: HandleResult,
)
    requires
        picker_pressed(before, after, picker, button, result),
    ensures
        (button == Button::Right || button == Button::Click) && picker.selected
            < picker.entries@.len() ==> (result matches HandleResult::Screen(screen)
            && screen matches Screen::MovePicker(shown) && shown.path@
            == picker.entries@[picker.selected as int].path@ && shown.offset == 0),
        button == Button::Left ==> (result matches HandleResult::Screen(screen)
            && screen matches Screen::MovePicker(shown) && (forall|p: Seq<char>, name: Seq<char>|
            #![trigger joined_path(p, name)]
            p.len() > 0 && is_plain(name) && picker.path@ == joined_path(p, name) ==> shown.path@
                == p)),
        button == Button::TopLeft ==> (result matches HandleResult::Screen(screen)
            && screen matches Screen::Explorer(shown) && shown.path@ == picker.origin.path@),
        button == Button::TopRight ==> (result matches HandleResult::Screen(screen)
            && screen matches Screen::MovePicker(shown) && shown.path@ == picker.path@),
        button == Button::Down && picker.selected + 1 < picker.entries@.len() ==> after == before
            && shown_same(result, picker, 1),
        button == Button::Up && picker.selected > 0 ==> after == before && shown_same(
            result,
            picker,
            -1,
        ),
        button != Button::TopMiddle ==> !(result is Op),
{
    let p = picker@;
    assert(p.entries.len() == picker.entries@.len());
    if (button == Button::Right || button == Button::Click) && picker.selected
        < picker.entries@.len() {
        let item = picker.entries@[picker.selected as int];
        picking_keeps_the_path(
            before,
            after,
            PickerView { path: item.path@, offset: 0, selected: 0, ..p },
            result->Screen_0->MovePicker_0@,
        );
    }
    if button == Button::TopRight {
        picking_keeps_the_path(before, after, p, result->Screen_0->MovePicker_0@);
    }
    if button == Button::TopLeft {
        crate::typing_laws::refreshing_keeps_the_path(
            before,
            after,
            picker.origin@,
            result->Screen_0->Explorer_0@,
        );
    }
    if button == Button::Left {
        let shown = result->Screen_0->MovePicker_0;
        assert forall|q: Seq<char>, name: Seq<char>|
            #![trigger joined_path(q, name)]
            q.len() > 0 && is_plain(name) && picker.path@ == joined_path(q, name) implies shown.path@
            == q by {
            parent_of_joined(q, name);
            reveal_strlit("/");
            assert(picker.path@.len() > 1);
            picking_keeps_the_path(
                before,
                after,
                PickerView { path: parent_of(p.path), offset: 0, selected: 0, ..p },
                shown@,
            );
        }
    }
}

/// The same picker with another row selected.
pub open spec fn shown_same(result: HandleResult, picker: MovePicker, by: int) -> bool {
    result matches HandleResult::Screen(screen) && screen matches Screen::MovePicker(shown) && {
        &&& shown.selected == picker.selected + by
        &&& shown@.offset == picker@.offset
        &&& shown@.entries == picker@.entries
        &&& shown@.path == picker@.path
    }
}

/// A move begins in the folder of the entry that is to be moved.
pub proof fn moves_begin_in_the_folder_of_the_entry<M: VolumeAccess>(
    before: Option<CardFs<M>>,
    after: Option<CardFs<M>>,
    menu: ActionMenu,
    button: Button,
    screen: Screen,
)
    requires
        action_menu_pressed(before, after, menu, button, screen),
        button == Button::Click || button == Button::TopMiddle || button == Button::TopRight,
        menu.choice == ActionChoice::Move || menu.choice == ActionChoice::Refresh,
    ensures
        menu.choice == ActionChoice::Move ==> (menu.item matches Some(item) ==> (
        screen matches Screen::MovePicker(picker) && picker.path@ == parent_of(item.path@))),
        menu.choice == ActionChoice::Refresh ==> (screen matches Screen::Explorer(shown)
            && shown.path@ == menu.explorer.path@),
{
    if before is Some {
        if menu.choice == ActionChoice::Move && menu.item is Some {
            let item = menu.item->0;
            picking_keeps_the_path(
                before->0,
                after->0,
                picker_for(item@),
                screen->MovePicker_0@,
            );
        }
        if menu.choice == ActionChoice::Refresh {
            crate::typing_laws::refreshing_keeps_the_path(
                before->0,
                after->0,
                menu.explorer@,
                screen->Explorer_0@,
            );
        }
    }
}

/// What was renamed, moved or deleted is followed by a look at the folder where it happened:
/// the one that the name was entered in, the one that was picked, the one that was shown.
pub proof fn operations_end_in_their_folder<M: VolumeAccess>(
    before: CardFs<M>,
    after: CardFs<M>,
    op: PendingFsOp,
    screen: Screen,
)
    requires
        op_run(before, after, op, screen),
        screen is Explorer,
    ensures
        match op {
            PendingFsOp::Rename { entry, .. } => screen->Explorer_0.path@ == entry.explorer.path@,
            PendingFsOp::Move { picker, .. } => screen->Explorer_0.path@ == picker.path@,
            PendingFsOp::Delete { explorer, .. } => screen->Explorer_0.path@ == explorer.path@,
        },
{
    match op {
        PendingFsOp::Rename { entry, destination } => {
            let (moved, result) = choose|moved: CardFs<M>, result: Result<(), FsOpError>|
                {
                    &&& #[trigger] move_made(
                        before,
                        moved,
                        (entry.source->0).path@,
                        destination@,
                        result,
                    )
                    &&& match crate::operations::outcome_of(result, MoveVerb::Rename) {
                        crate::operations::MoveOutcome::Done { source_remains } =>
                            crate::operations::landing_shown(
                            moved,
                            after,
                            entry.explorer@,
                            destination@,
                            Notice::Landed { verb: MoveVerb::Rename, source_remains },
                            screen,
                        ),
                        crate::operations::MoveOutcome::Rejected(notice) => after == moved
                            && crate::naming::asks_again(
                            HandleResult::Screen(screen),
                            entry,
                            notice,
                        ),
                    }
                };
            let notice = screen->Explorer_0.status->0;
            landings_stay(moved, after, entry.explorer@, destination@, notice, screen);
        },
        PendingFsOp::Move { picker, destination } => {
            let (moved, result) = choose|moved: CardFs<M>, result: Result<(), FsOpError>|
                {
                    &&& #[trigger] move_made(
                        before,
                        moved,
                        picker.source.path@,
                        destination@,
                        result,
                    )
                    &&& match crate::operations::outcome_of(result, MoveVerb::Move) {
                        crate::operations::MoveOutcome::Done { source_remains } =>
                            crate::operations::landing_shown(
                            moved,
                            after,
                            ExplorerView { path: picker.path@, ..crate::explorer::root_view() },
                            destination@,
                            Notice::Landed { verb: MoveVerb::Move, source_remains },
                            screen,
                        ),
                        crate::operations::MoveOutcome::Rejected(notice) => after == moved
                            && crate::operations::is_picker(
                            HandleResult::Screen(screen),
                            picker,
                            PickerView { status: Some(notice), ..picker@ },
                        ),
                    }
                };
            let notice = screen->Explorer_0.status->0;
            landings_stay(
                moved,
                after,
                ExplorerView { path: picker.path@, ..crate::explorer::root_view() },
                destination@,
                notice,
                screen,
            );
        },
        PendingFsOp::Delete { explorer, item } => {
            let (deleted, result, read) = choose|
                deleted: CardFs<M>,
                result: Result<(), FsOpError>,
                read: ExplorerView,
            |
                {
                    &&& #[trigger] delete_made(before, deleted, item, result)
                    &&& #[trigger] mark_listing(read)
                    &&& crate::explorer::refreshed(deleted, after, explorer@, read)
                    &&& crate::handlers::is_explorer(
                        screen,
                        ExplorerView {
                            status: Some(crate::operations::delete_notice(result, item.is_dir)),
                            ..read
                        },
                    )
                };
            crate::typing_laws::refreshing_keeps_the_path(deleted, after, explorer@, read);
        },
    }
}

proof fn landings_stay<M: VolumeAccess>(
    before: CardFs<M>,
    after: CardFs<M>,
    e: ExplorerView,
    destination: Seq<char>,
    notice: Notice,
    screen: Screen,
)
    requires
        crate::operations::landing_shown(before, after, e, destination, notice, screen),
        e.offset >= 0,
    ensures
        screen matches Screen::Explorer(shown) && shown.path@ == e.path,
{
    let read = choose|read: ExplorerView| #[trigger]
        mark_listing(read) && refreshed_at(before, after, e, destination, read)
            && crate::handlers::is_explorer(
            screen,
            ExplorerView { status: Some(notice), ..read },
        );
    let (found, place) = choose|found: CardFs<M>, place: Result<Option<usize>, FsOpError>| #[trigger]
        crate::explorer::place_asked(before, found, e.path, destination, place)
            && crate::explorer::refreshed(
            found,
            after,
            crate::explorer::turned_to(e, place),
            read,
        );
    crate::typing_laws::refreshing_keeps_the_path(
        found,
        after,
        crate::explorer::turned_to(e, place),
        read,
    );
}

/// A name that is refused leaves the card alone, whatever it was for, and can be corrected.
pub proof fn refused_names_change_nothing<M: VolumeAccess>(
    before: Option<CardFs<M>>,
    after: Option<CardFs<M>>,
    entry: NameEntry,
    message: &'static str,
    identity: Option<MediaIdentity>,
    result: HandleResult,
)
    requires
        name_entry_pressed(
            before,
            after,
            entry,
            Button::TopRight,
            Err(message),
            identity,
            result,
        ),
    ensures
        after == before,
        result matches HandleResult::Screen(screen) && screen matches Screen::Naming(shown)
            && shown.name@ == entry.name@ && shown.cursor == entry.cursor && shown.mode == entry.mode
            && shown.source == entry.source && shown.status == Some(Notice::NameProblem(message)),
{
}

/// Which names are accepted: not empty, without a space, not ending in a dot, and stored by
/// the card as they were typed, letter case aside. The name of a new document has at most
/// eight characters and no dot.
pub proof fn accepted_names_are_stored_as_typed(
    n: NameView,
    form: Result<Seq<char>, NameFault>,
)
    ensures
        name_problem(n, form) is None <==> {
            &&& n.name.len() > 0
            &&& !n.name.contains(' ')
            &&& n.name.last() != '.'
            &&& form matches Ok(stored) && same_but_for_case(stored, n.name)
            &&& n.mode == NameMode::NewText ==> n.name.len() <= 8 && !n.name.contains('.')
        },
{
    reveal_strlit(".");
    reveal_strlit("..");
}

proof fn top_selections_stay<M: VolumeAccess>(
    before: CardFs<M>,
    after: CardFs<M>,
    p: PickerView,
    r: PickerView,
)
    requires
        picker_refreshed(before, after, p, r),
        p.offset >= 0,
        p.selected == 0,
    ensures
        r.selected == 0,
        0 <= r.offset <= p.offset,
        r.offset == p.offset || r.offset + 8 <= p.offset || r.offset == 0,
    decreases p.offset,
{
    let (read, page) = choose|read: CardFs<M>, page: Result<(Seq<ItemView>, int), FsOpError>|
        {
            &&& #[trigger] crate::explorer::page_read(
                before,
                read,
                p.path,
                p.offset,
                true,
                crate::picker::excluded_from(p.source),
                page,
            )
            &&& if crate::explorer::is_past_the_end(p.offset, page) && p.offset > 0 {
                crate::picker::picker_refreshed_further(
                    read,
                    after,
                    crate::picker::picker_with_page(p, page),
                    r,
                )
            } else {
                after == read && r == crate::picker::picker_with_page(p, page)
            }
        };
    if crate::explorer::is_past_the_end(p.offset, page) && p.offset > 0 {
        let middle = crate::picker::picker_with_page(p, page);
        let inner = choose|inner: PickerView| #[trigger]
            crate::picker::mark_folders(inner) && picker_refreshed(read, after, middle, inner) && r
                == (PickerView { status: None, ..inner });
        top_selections_stay(read, after, middle, inner);
    }
}

/// Past the last row of the picker the next folder is the last row of the new page, and past
/// the first row the one before is its first. Where there is none, nothing changes.
pub proof fn pickers_turn_the_page<M: VolumeAccess>(
    before: CardFs<M>,
    after: CardFs<M>,
    picker: MovePicker,
    button: Button,
    result: HandleResult,
)
    requires
        picker_pressed(before, after, picker, button, result),
        picker.selected < picker.entries@.len(),
    ensures
        button == Button::Down && picker.selected + 1 == picker.entries@.len() && picker.offset
            + picker.entries@.len() < picker.total ==> (result matches HandleResult::Screen(screen)
            && screen matches Screen::MovePicker(shown) && (shown.entries@.len() > 0
            ==> shown.selected == shown.entries@.len() - 1)),
        button == Button::Down && picker.selected + 1 == picker.entries@.len() && picker.offset
            + picker.entries@.len() >= picker.total ==> after == before && shown_same(
            result,
            picker,
            0,
        ),
        button == Button::Up && picker.selected == 0 && picker.offset > 0 ==> (
        result matches HandleResult::Screen(screen) && screen matches Screen::MovePicker(shown)
            && shown.selected == 0 && shown.offset < picker.offset && (shown.offset
            == picker.offset - 1 || shown.offset + 9 <= picker.offset || shown.offset == 0)),
        button == Button::Up && picker.selected == 0 && picker.offset == 0 ==> after == before
            && shown_same(result, picker, 0),
{
    let p = picker@;
    assert(p.entries.len() == picker.entries@.len());
    if button == Button::Up && picker.selected == 0 && picker.offset > 0 {
        let shown = result->Screen_0->MovePicker_0;
        assert(shown@.entries.len() == shown.entries@.len());
        top_selections_stay(before, after, PickerView { offset: p.offset - 1, ..p }, shown@);
    }
    if button == Button::Down && picker.selected + 1 == picker.entries@.len() && picker.offset
        + picker.entries@.len() < picker.total {
        let shown = result->Screen_0->MovePicker_0;
        assert(shown@.entries.len() == shown.entries@.len());
    }
}

/// Refreshing from the menu stays in the folder. Without an entry there is nothing else to do,
/// and the explorer says so.
pub proof fn actions_need_an_entry<M: VolumeAccess>(
    before: Option<CardFs<M>>,
    after: Option<CardFs<M>>,
    menu: ActionMenu,
    button: Button,
    screen: Screen,
)
    requires
        action_menu_pressed(before, after, menu, button, screen),
        button == Button::Click || button == Button::TopMiddle || button == Button::TopRight,
    ensures
        menu.choice == ActionChoice::Refresh ==> (screen matches Screen::Explorer(shown)
            && shown.path@ == menu.explorer.path@),
        menu.choice != ActionChoice::Refresh && menu.item is None ==> after == before && (
        screen matches Screen::Explorer(shown) && shown.path@ == menu.explorer.path@
            && shown.selected == menu.explorer.selected && shown.status == Some(
            Notice::NoItemSelected,
        )),
{
    if menu.choice == ActionChoice::Refresh {
        let shown = screen->Explorer_0;
        if before is Some {
            crate::typing_laws::refreshing_keeps_the_path(
                before->0,
                after->0,
                menu.explorer@,
                shown@,
            );
        }
        assert(shown@.path == shown.path@ && menu.explorer@.path == menu.explorer.path@);
    } else if menu.item is None {
        let shown = screen->Explorer_0;
        assert(shown@.path == shown.path@ && menu.explorer@.path == menu.explorer.path@);
        assert(shown@.selected == shown.selected && menu.explorer@.selected == menu.explorer.selected);
        assert(shown@.status == shown.status);
    }
}

} // verus!
