//! Choosing and running moves, renames and deletes.
use vstd::prelude::*;

use crate::card::{CardFs, DirectoryItem};
use crate::errors::FsOpError;
use crate::explorer::{
    mark_listing, refreshed, refreshed_at, root_view, Explorer, ExplorerView,
};
use crate::handlers::{card_sound, is_explorer, selected_item};
use crate::input::Button;
use crate::moving::{entry_deleted_verified, entry_moved};
use crate::names::{join_path, joined_path, leaf_name, leaf_of, parent_of, parent_path, short_form};
use crate::notice::{MoveVerb, Notice};
use crate::naming::asks_again;
use crate::picker::{
    picker_entering, picker_gone_up, picker_refreshed, mark_folders, MovePicker, PickerView,
};
use crate::screens::{DeleteChoice, HandleResult, NameEntry, PendingFsOp, Screen};
use crate::text::{chars_of, equal_ignoring_case, same_but_for_case};
use crate::volume::VolumeAccess;

verus! {

/// The result is the picker for the same move, as `p` says.
pub open spec fn is_picker(result: HandleResult, picker: MovePicker, p: PickerView) -> bool {
    result matches HandleResult::Screen(screen) && (screen matches Screen::MovePicker(shown) && {
        &&& shown.origin == picker.origin
        &&& shown.source == picker.source
        &&& shown@ == p
    })
}

/// The result is the picker for the same move, read anew from `p`.
pub open spec fn is_read_picker<M: VolumeAccess>(
    before: CardFs<M>,
    after: CardFs<M>,
    result: HandleResult,
    picker: MovePicker,
    p: PickerView,
) -> bool {
    result matches HandleResult::Screen(screen) && (screen matches Screen::MovePicker(shown) && {
        &&& shown.origin == picker.origin
        &&& shown.source == picker.source
        &&& picker_refreshed(before, after, p, shown@)
    })
}

/// A button on the folder picker.
pub open spec fn picker_pressed<M: VolumeAccess>(
    before: CardFs<M>,
    after: CardFs<M>,
    picker: MovePicker,
    button: Button,
    result: HandleResult,
) -> bool {
    let p = picker@;
    match button {
        Button::TopLeft => result matches HandleResult::Screen(screen) && (
        screen matches Screen::Explorer(shown) && refreshed(
            before,
            after,
            picker.origin@,
            shown@,
        )),
        Button::Up => if p.selected > 0 {
            after == before && is_picker(
                result,
                picker,
                PickerView { selected: p.selected - 1, ..p },
            )
        } else if p.offset > 0 {
            is_read_picker(
                before,
                after,
                result,
                picker,
                PickerView { offset: p.offset - 1, ..p },
            )
        } else {
            after == before && is_picker(result, picker, p)
        },
        Button::Down => if p.selected + 1 < p.entries.len() {
            after == before && is_picker(
                result,
                picker,
                PickerView { selected: p.selected + 1, ..p },
            )
        } else if p.offset + p.entries.len() < p.total {
            exists|read: PickerView| #[trigger]
                mark_folders(read) && picker_refreshed(
                    before,
                    after,
                    PickerView { offset: p.offset + 1, ..p },
                    read,
                ) && is_picker(
                    result,
                    picker,
                    PickerView {
                        selected: if read.entries.len() == 0 { 0 } else { read.entries.len() - 1 },
                        ..read
                    },
                )
        } else {
            after == before && is_picker(result, picker, p)
        },
        Button::Left => result matches HandleResult::Screen(screen) && (
        screen matches Screen::MovePicker(shown) && {
            &&& shown.origin == picker.origin
            &&& shown.source == picker.source
            &&& picker_gone_up(before, after, p, shown@)
        }),
        Button::Right | Button::Click => match selected_item(picker.entries@, p.selected) {
            Some(item) => is_read_picker(
                before,
                after,
                result,
                picker,
                picker_entering(p, item.path@),
            ),
            None => after == before && is_picker(result, picker, p),
        },
        Button::TopRight => is_read_picker(before, after, result, picker, p),
        Button::TopMiddle => if same_but_for_case(parent_of(p.source.path), p.path) {
            after == before && is_picker(
                result,
                picker,
                PickerView { status: Some(Notice::AlreadyInFolder), ..p },
            )
        } else {
            after == before && (result matches HandleResult::Op(op) && (
            op matches PendingFsOp::Move { picker: asked, destination } && asked == picker
                && destination@ == joined_path(p.path, leaf_of(p.source.path))))
        },
    }
}

fn press_on_picker<M: VolumeAccess>(
    picker: MovePicker,
    button: Button,
    card: &mut CardFs<M>,
) -> (result: HandleResult)
    requires
        picker.wf(),
        old(card).wf(),
    ensures
        final(card).wf(),
        result.wf(),
        picker_pressed(*old(card), *final(card), picker, button, result),
{
    let mut picker = picker;
    match button {
        Button::TopLeft => {
            let mut origin = picker.origin;
            origin.refresh(card);
            return HandleResult::Screen(Screen::Explorer(origin));
        },
        Button::Up => {
            if picker.selected > 0 {
                picker.selected = picker.selected - 1;
            } else if picker.offset > 0 {
                picker.offset = picker.offset - 1;
                picker.refresh(card);
            }
        },
        Button::Down => {
            let rows: usize = picker.entries.len();
            if rows >= 1 && picker.selected < rows - 1 {
                picker.selected = picker.selected + 1;
            } else if rows < picker.total && picker.offset < picker.total - rows {
                picker.offset = picker.offset + 1;
                picker.refresh(card);
                let ghost read = picker@;
                picker.selected = picker.entries.len().saturating_sub(1);
                assert(mark_folders(read));
            }
        },
        Button::Left => picker.go_parent(card),
        Button::Right | Button::Click => {
            if picker.selected < picker.entries.len() {
                picker.path = picker.entries[picker.selected].path.clone();
                picker.offset = 0;
                picker.selected = 0;
                picker.refresh(card);
            }
        },
        Button::TopRight => picker.refresh(card),
        Button::TopMiddle => {
            let parent = parent_path(picker.source.path.as_str());
            if equal_ignoring_case(&chars_of(parent.as_str()), &chars_of(picker.path.as_str())) {
                picker.status = Some(Notice::AlreadyInFolder);
            } else {
                let destination = join_path(
                    picker.path.as_str(),
                    leaf_name(picker.source.path.as_str()),
                );
                return HandleResult::Op(PendingFsOp::Move { picker, destination });
            }
        },
    }
    HandleResult::Screen(Screen::MovePicker(picker))
}

/// A button on the folder picker, if the card is still there.
pub fn handle_move_picker<M: VolumeAccess>(
    picker: MovePicker,
    button: Button,
    card: &mut Option<CardFs<M>>,
) -> (result: HandleResult)
    requires
        picker.wf(),
        card_sound(*old(card)),
    ensures
        card_sound(*final(card)),
        result.wf(),
        match *old(card) {
            None => *final(card) is None && result == HandleResult::Screen(Screen::Missing),
            Some(before) => *final(card) matches Some(after) && picker_pressed(
                before,
                after,
                picker,
                button,
                result,
            ),
        },
{
    match card {
        Some(fs) => press_on_picker(picker, button, fs),
        None => HandleResult::Screen(Screen::Missing),
    }
}

/// A button on the question whether to delete.
pub open spec fn delete_prompt_pressed(
    explorer: Explorer,
    item: DirectoryItem,
    choice: DeleteChoice,
    button: Button,
    result: HandleResult,
) -> bool {
    match button {
        Button::Left | Button::Right | Button::Up | Button::Down => result == HandleResult::Screen(
            Screen::DeletePrompt {
                explorer,
                item,
                choice: match choice {
                    DeleteChoice::Cancel => DeleteChoice::Delete,
                    DeleteChoice::Delete => DeleteChoice::Cancel,
                },
            },
        ),
        Button::TopLeft => result == HandleResult::Screen(Screen::Explorer(explorer)),
        Button::Click | Button::TopMiddle | Button::TopRight => match choice {
            DeleteChoice::Cancel => result == HandleResult::Screen(Screen::Explorer(explorer)),
            DeleteChoice::Delete => result == HandleResult::Op(
                PendingFsOp::Delete { explorer, item },
            ),
        },
    }
}

/// A button on the question whether to delete.
pub fn handle_delete_prompt(
    explorer: Explorer,
    item: DirectoryItem,
    choice: DeleteChoice,
    button: Button,
) -> (result: HandleResult)
    requires
        explorer.wf(),
    ensures
        delete_prompt_pressed(explorer, item, choice, button, result),
        result.wf(),
{
    match button {
        Button::Left | Button::Right | Button::Up | Button::Down => {
            let choice = match choice {
                DeleteChoice::Cancel => DeleteChoice::Delete,
                DeleteChoice::Delete => DeleteChoice::Cancel,
            };
            HandleResult::Screen(Screen::DeletePrompt { explorer, item, choice })
        },
        Button::TopLeft => HandleResult::Screen(Screen::Explorer(explorer)),
        Button::Click | Button::TopMiddle | Button::TopRight => match choice {
            DeleteChoice::Cancel => HandleResult::Screen(Screen::Explorer(explorer)),
            DeleteChoice::Delete => HandleResult::Op(PendingFsOp::Delete { explorer, item }),
        },
    }
}

/// How a rename or move ended.
pub enum MoveOutcome {
    /// The destination holds the verified entry; the source may have survived.
    Done { source_remains: bool },
    /// It did not land; this is shown where it was asked for.
    Rejected(Notice),
}

/// How a rename or move ended, by its result. A source that could not be removed
/// is no failure.
pub open spec fn outcome_of(result: Result<(), FsOpError>, verb: MoveVerb) -> MoveOutcome {
    match result {
        Ok(_) => MoveOutcome::Done { source_remains: false },
        Err(FsOpError::DeleteIncomplete(_)) => MoveOutcome::Done { source_remains: true },
        Err(FsOpError::SourceRemains(_)) => MoveOutcome::Done { source_remains: true },
        Err(FsOpError::AlreadyExists) => MoveOutcome::Rejected(Notice::Taken(verb)),
        Err(error) => MoveOutcome::Rejected(Notice::MoveFailed { verb, error }),
    }
}

fn move_outcome(result: Result<(), FsOpError>, verb: MoveVerb) -> (outcome: MoveOutcome)
    ensures
        outcome == outcome_of(result, verb),
{
    match result {
        Ok(()) => MoveOutcome::Done { source_remains: false },
        Err(FsOpError::DeleteIncomplete(_)) => MoveOutcome::Done { source_remains: true },
        Err(FsOpError::SourceRemains(_)) => MoveOutcome::Done { source_remains: true },
        Err(FsOpError::AlreadyExists) => MoveOutcome::Rejected(Notice::Taken(verb)),
        Err(error) => MoveOutcome::Rejected(Notice::MoveFailed { verb, error }),
    }
}

/// A move of an entry, as one exchange with the card.
pub open spec fn move_made<M: VolumeAccess>(
    before: CardFs<M>,
    after: CardFs<M>,
    from: Seq<char>,
    to: Seq<char>,
    result: Result<(), FsOpError>,
) -> bool {
    &&& after.changed(&before)
    &&& entry_moved(
        after.steps_since(&before),
        from,
        to,
        short_form(leaf_of(from)),
        short_form(leaf_of(to)),
        result,
    )
}

/// A delete of an entry, as one exchange with the card.
pub open spec fn delete_made<M: VolumeAccess>(
    before: CardFs<M>,
    after: CardFs<M>,
    item: DirectoryItem,
    result: Result<(), FsOpError>,
) -> bool {
    &&& after.changed(&before)
    &&& entry_deleted_verified(after.steps_since(&before), item.path@, item.is_dir, result)
}

/// Showing a moved entry at its destination.
pub open spec fn landing_shown<M: VolumeAccess>(
    before: CardFs<M>,
    after: CardFs<M>,
    e: ExplorerView,
    destination: Seq<char>,
    notice: Notice,
    screen: Screen,
) -> bool {
    exists|read: ExplorerView| #[trigger]
        mark_listing(read) && refreshed_at(before, after, e, destination, read) && is_explorer(
            screen,
            ExplorerView { status: Some(notice), ..read },
        )
}

fn complete_move_op<M: VolumeAccess>(
    card: &mut CardFs<M>,
    explorer: Explorer,
    destination: &str,
    verb: MoveVerb,
    source_remains: bool,
) -> (screen: Screen)
    requires
        old(card).wf(),
    ensures
        final(card).wf(),
        screen.wf(),
        landing_shown(
            *old(card),
            *final(card),
            explorer@,
            destination@,
            Notice::Landed { verb, source_remains },
            screen,
        ),
{
    let mut explorer = explorer;
    explorer.refresh_select_path(card, destination);
    let ghost read = explorer@;
    explorer.status = Some(Notice::Landed { verb, source_remains });
    assert(mark_listing(read));
    Screen::Explorer(explorer)
}

/// Running a rename.
pub open spec fn rename_run<M: VolumeAccess>(
    before: CardFs<M>,
    after: CardFs<M>,
    entry: NameEntry,
    destination: Seq<char>,
    screen: Screen,
) -> bool {
    exists|moved: CardFs<M>, result: Result<(), FsOpError>|
        {
            &&& #[trigger] move_made(before, moved, (entry.source->0).path@, destination, result)
            &&& match outcome_of(result, MoveVerb::Rename) {
                MoveOutcome::Done { source_remains } => landing_shown(
                    moved,
                    after,
                    entry.explorer@,
                    destination,
                    Notice::Landed { verb: MoveVerb::Rename, source_remains },
                    screen,
                ),
                MoveOutcome::Rejected(notice) => after == moved && asks_again(
                    HandleResult::Screen(screen),
                    entry,
                    notice,
                ),
            }
        }
}

/// Running a move. Its end is shown in the folder that was picked.
pub open spec fn move_run<M: VolumeAccess>(
    before: CardFs<M>,
    after: CardFs<M>,
    picker: MovePicker,
    destination: Seq<char>,
    screen: Screen,
) -> bool {
    exists|moved: CardFs<M>, result: Result<(), FsOpError>|
        {
            &&& #[trigger] move_made(before, moved, picker.source.path@, destination, result)
            &&& match outcome_of(result, MoveVerb::Move) {
                MoveOutcome::Done { source_remains } => landing_shown(
                    moved,
                    after,
                    ExplorerView { path: picker.path@, ..root_view() },
                    destination,
                    Notice::Landed { verb: MoveVerb::Move, source_remains },
                    screen,
                ),
                MoveOutcome::Rejected(notice) => after == moved && is_picker(
                    HandleResult::Screen(screen),
                    picker,
                    PickerView { status: Some(notice), ..picker@ },
                ),
            }
        }
}

/// The notice for a delete.
pub open spec fn delete_notice(result: Result<(), FsOpError>, is_dir: bool) -> Notice {
    match result {
        Ok(_) => if is_dir {
            Notice::FolderDeleted
        } else {
            Notice::FileDeleted
        },
        Err(error) => Notice::DeleteFailed(error),
    }
}

/// Running a delete; the folder is listed anew whatever came of it.
pub open spec fn delete_run<M: VolumeAccess>(
    before: CardFs<M>,
    after: CardFs<M>,
    explorer: Explorer,
    item: DirectoryItem,
    screen: Screen,
) -> bool {
    exists|deleted: CardFs<M>, result: Result<(), FsOpError>, read: ExplorerView|
        {
            &&& #[trigger] delete_made(before, deleted, item, result)
            &&& #[trigger] mark_listing(read)
            &&& refreshed(deleted, after, explorer@, read)
            &&& is_explorer(
                screen,
                ExplorerView { status: Some(delete_notice(result, item.is_dir)), ..read },
            )
        }
}

/// Running an operation for which a notice was shown.
pub open spec fn op_run<M: VolumeAccess>(
    before: CardFs<M>,
    after: CardFs<M>,
    op: PendingFsOp,
    screen: Screen,
) -> bool {
    match op {
        PendingFsOp::Rename { entry, destination } => rename_run(
            before,
            after,
            entry,
            destination@,
            screen,
        ),
        PendingFsOp::Move { picker, destination } => move_run(
            before,
            after,
            picker,
            destination@,
            screen,
        ),
        PendingFsOp::Delete { explorer, item } => delete_run(before, after, explorer, item, screen),
    }
}

fn run_rename<M: VolumeAccess>(
    entry: NameEntry,
    destination: String,
    card: &mut CardFs<M>,
) -> (screen: Screen)
    requires
        old(card).wf(),
        entry.wf(),
        entry.source is Some,
    ensures
        final(card).wf(),
        screen.wf(),
        rename_run(*old(card), *final(card), entry, destination@, screen),
{
    let ghost before = *card;
    let mut entry = entry;
    let from = match &entry.source {
        Some(source) => source.path.clone(),
        None => String::new(),
    };
    let result = card.move_entry_verified(from.as_str(), destination.as_str());
    let ghost moved = *card;
    assert(move_made(before, moved, (entry.source->0).path@, destination@, result));
    match move_outcome(result, MoveVerb::Rename) {
        MoveOutcome::Done { source_remains } => complete_move_op(
            card,
            entry.explorer,
            destination.as_str(),
            MoveVerb::Rename,
            source_remains,
        ),
        MoveOutcome::Rejected(notice) => {
            entry.status = Some(notice);
            Screen::Naming(entry)
        },
    }
}

fn run_move<M: VolumeAccess>(
    picker: MovePicker,
    destination: String,
    card: &mut CardFs<M>,
) -> (screen: Screen)
    requires
        picker.wf(),
        old(card).wf(),
    ensures
        final(card).wf(),
        screen.wf(),
        move_run(*old(card), *final(card), picker, destination@, screen),
{
    let ghost before = *card;
    let mut picker = picker;
    let result = card.move_entry_verified(picker.source.path.as_str(), destination.as_str());
    let ghost moved = *card;
    assert(move_made(before, moved, picker.source.path@, destination@, result));
    match move_outcome(result, MoveVerb::Move) {
        MoveOutcome::Done { source_remains } => {
            let mut explorer = Explorer::root();
            explorer.path = picker.path;
            complete_move_op(
                card,
                explorer,
                destination.as_str(),
                MoveVerb::Move,
                source_remains,
            )
        },
        MoveOutcome::Rejected(notice) => {
            picker.status = Some(notice);
            Screen::MovePicker(picker)
        },
    }
}

fn run_delete<M: VolumeAccess>(
    explorer: Explorer,
    item: DirectoryItem,
    card: &mut CardFs<M>,
) -> (screen: Screen)
    requires
        old(card).wf(),
    ensures
        final(card).wf(),
        screen.wf(),
        delete_run(*old(card), *final(card), explorer, item, screen),
{
    let ghost before = *card;
    let mut explorer = explorer;
    let result = card.delete_verified(item.path.as_str(), item.is_dir);
    let ghost deleted = *card;
    assert(delete_made(before, deleted, item, result));
    explorer.refresh(card);
    let ghost read = explorer@;
    assert(mark_listing(read));
    explorer.status = Some(
        match result {
            Ok(()) => if item.is_dir {
                Notice::FolderDeleted
            } else {
                Notice::FileDeleted
            },
            Err(error) => Notice::DeleteFailed(error),
        },
    );
    Screen::Explorer(explorer)
}

/// Run an operation for which a notice was shown, if the card is still there.
pub fn run_fs_op<M: VolumeAccess>(op: PendingFsOp, card: &mut Option<CardFs<M>>) -> (screen: Screen)
    requires
        card_sound(*old(card)),
        op.wf(),
    ensures
        card_sound(*final(card)),
        screen.wf(),
        match *old(card) {
            None => *final(card) is None && screen is Missing,
            Some(before) => *final(card) matches Some(after) && op_run(before, after, op, screen),
        },
{
    match card {
        None => Screen::Missing,
        Some(fs) => match op {
            PendingFsOp::Rename { entry, destination } => run_rename(entry, destination, fs),
            PendingFsOp::Move { picker, destination } => run_move(picker, destination, fs),
            PendingFsOp::Delete { explorer, item } => run_delete(explorer, item, fs),
        },
    }
}

/// Deleting is confirmed by choosing it: the question opens on Cancel, and each
/// confirming button then leaves everything as it was.
pub proof fn deleting_takes_a_choice(
    explorer: Explorer,
    item: DirectoryItem,
    button: Button,
    result: HandleResult,
)
    requires
        delete_prompt_pressed(explorer, item, DeleteChoice::Cancel, button, result),
    ensures
        !(result is Op),
{
}

} // verus!
