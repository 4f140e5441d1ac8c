//! What the library refuses, when it stops, and what it says of it.
use vstd::prelude::*;

use crate::card::{
    document_loaded, item_of, space_answered, CardFs, DirectoryItem, FreeSpaceState, ItemView,
};
use crate::creation::{made_folder_verdict, name_taken};
use crate::editing::{editor_saved, EditorView};
use crate::errors::{op_error, FsOpError, LoadError, VolumeError};
use crate::explorer::{explorer_with_page, mark_listing, page_up, turned_to, Explorer, ExplorerView};
use crate::files::first_failure;
use crate::handlers::document_opened;
use crate::moving::{
    checked_tree_deleted, delete_confirmed, entry_deleted_verified, entry_moved, move_confirmed,
    source_file_removed, source_report, source_tree_removed, tree_copy_cleaned_up,
    tree_delete_report, tree_moved,
};
use crate::names::{lies_inside, parent_of, NameFault};
use crate::naming::{file_created, folder_created, folder_step};
use crate::notice::Notice;
use crate::operations::{delete_made, delete_run};
use crate::picker::{picker_with_page, PickerView};
use crate::removal::{delete_attempted, delete_concluded, delete_retried, entry_deleted};
use crate::saving::{backup_path, document_saved, suffix_chosen, temporary_path, SaveOutcome};
use crate::screens::{scrolled, EditorMedia, HandleResult, MediaIdentity, NameEntry, Screen};
use crate::session::Step;
use crate::stream::{transfer_result, SdStreamError};
use crate::text::{digit_char, hex4_text};
use crate::tree::{
    child_of, copy_cleaned_up, file_copied_safely, subtree_checked, tree_copied, tree_deleted,
    MAX_DELETE_ROUNDS,
};
use crate::volume::{Call, EntryFacts, EntryRecord, VolumeAccess};

verus! {

/// An entry that is write-protected, or is not of the kind that was to be deleted, is looked
/// at and left alone. Any other is deleted, a file at once.
pub proof fn deletes_respect_protection(
    t: Seq<Step>,
    path: Seq<char>,
    is_dir: bool,
    result: Result<(), FsOpError>,
)
    requires
        entry_deleted_verified(t, path, is_dir, result),
    ensures
        t.len() >= 1,
        t[0] matches Step::Find { path: p, reply } && p == path && {
            &&& reply is Err ==> t.len() == 1 && result is Err
            &&& reply matches Ok(facts) ==> {
                &&& facts.read_only || facts.directory != is_dir ==> t.len() == 1 && result is Err
                &&& !facts.read_only && !facts.directory && !is_dir ==> t.len() >= 2 && (
                t[1] matches Step::Delete { path: q, .. } && q == path)
            }
        },
{
}

/// A save leaves alone what it must not replace: a folder, a write-protected file, and one
/// larger than any document. It fails after a single look, and says why.
pub proof fn saves_respect_protection(
    t: Seq<Step>,
    path: Seq<char>,
    contents: Seq<u8>,
    outcome: SaveOutcome,
)
    requires
        document_saved(t, path, contents, outcome),
    ensures
        t.len() >= 1,
        t[0] matches Step::Find { path: p, reply } && p == path && (reply is Ok ==> {
            let facts = reply->Ok_0;
            facts.directory || facts.read_only || facts.size > 32 * 1024 ==> t.len() == 1 && (
            outcome matches SaveOutcome::Failed { error, backup_kept: None } && (facts.directory
                ==> error == FsOpError::IsADirectory) && (!facts.directory && facts.read_only ==> error
                == FsOpError::Fs(VolumeError::ReadOnly)) && (!facts.directory && !facts.read_only
                ==> error == FsOpError::TooLarge))
        }),
{
}

/// A move is refused before anything is touched if it would take an entry into itself, and
/// after a look at the entry if it is write-protected or not there. A move to where the entry
/// already is changes nothing.
pub proof fn moves_respect_protection(
    t: Seq<Step>,
    from: Seq<char>,
    to: Seq<char>,
    from_form: Result<Seq<char>, NameFault>,
    to_form: Result<Seq<char>, NameFault>,
    result: Result<(), FsOpError>,
)
    requires
        entry_moved(t, from, to, from_form, to_form, result),
    ensures
        from_form is Err || to_form is Err ==> t.len() == 0 && result is Err,
        from_form is Ok && from_form == to_form && from == to ==> t.len() == 1 && t[0] is Find,
        lies_inside(from, to) && from_form != to_form ==> t.len() == 0 && result is Err,
        t.len() >= 1 ==> (t[0] matches Step::Find { path, reply } && path == from && (reply is Err
            ==> t.len() == 1 && result is Err) && (reply is Ok && reply->Ok_0.read_only ==> t.len() == 1)),
{
}

/// A copy that failed because of the device, or whose failure may be the device's, is left as
/// it is: nothing more is written to the card. After any other failure the unfinished copy is
/// removed, and nothing else is. Either way a failure is reported: that of the copy, or that
/// the unfinished copy was left behind.
pub proof fn broken_copies_are_cleaned_up(
    t: Seq<Step>,
    error: FsOpError,
    to: Seq<char>,
    result: Result<(), FsOpError>,
)
    requires
        copy_cleaned_up(t, error, to, result),
    ensures
        result is Err,
        forall|i: int|
            0 <= i < t.len() ==> #[trigger] t[i] is Probe || (t[i] matches Step::Delete { path, .. }
                && path == to),
        error matches FsOpError::Fs(VolumeError::DeviceError(_)) ==> t.len() == 0 && result == Err::<
            (),
            FsOpError,
        >(error),
        error is DeviceUnresponsive || error is AlreadyExists || (error matches FsOpError::Fs(
            VolumeError::AllocationError,
        )) ==> t.len() == 0,
        error matches FsOpError::Fs(VolumeError::DiskFull) ==> t.len() >= 1 && (
        t[0] matches Step::Probe { answers } && (answers ==> t.len() == 2 && t[1] is Delete) && (
        !answers ==> t.len() == 1 && result == Err::<(), FsOpError>(FsOpError::DeviceUnresponsive))),
        error is VerifyFailed || (error matches FsOpError::Fs(VolumeError::NotEnoughSpace)) ==> t.len()
            == 1 && t[0] is Delete,
        t.len() > 0 && t.last() is Delete ==> match t.last()->Delete_reply {
            Ok(()) => result == Err::<(), FsOpError>(error),
            Err(FsOpError::Fs(VolumeError::NotFound)) => result == Err::<(), FsOpError>(error),
            Err(_) => result == Err::<(), FsOpError>(FsOpError::CleanupIncomplete(Box::new(error))),
        },
{
    let n = crate::tree::probe_steps(error);
    let verdict = choose|verdict: (FsOpError, bool)| #[trigger]
        crate::tree::assessed(t.take(n), error, verdict) && if verdict.1 {
            &&& t.len() == n + 1
            &&& t.last() matches Step::Delete { path, reply: removed } && path == to && result == Err::<
                (),
                FsOpError,
            >(crate::tree::cleanup_report(verdict.0, removed))
        } else {
            t.len() == n && result == Err::<(), FsOpError>(verdict.0)
        };
    if n == 1 {
        assert(t[0] == t.take(n)[0]);
    }
}

proof fn deletes_join<D, F>(a: Seq<Call<D, F>>, b: Seq<Call<D, F>>)
    ensures
        deletes_in(a + b) == deletes_in(a) + deletes_in(b),
    decreases b.len(),
{
    if b.len() == 0 {
        assert(a + b =~= a);
    } else {
        assert((a + b).drop_last() =~= a + b.drop_last());
        deletes_join(a, b.drop_last());
    }
}

/// How many deletes of an entry were tried.
pub open spec fn deletes_in<D, F>(t: Seq<Call<D, F>>) -> int
    decreases t.len(),
{
    if t.len() == 0 {
        0
    } else {
        deletes_in(t.drop_last()) + if t.last() is Delete {
            1int
        } else {
            0
        }
    }
}

proof fn retries_are_used_up<D, F>(
    t: Seq<Call<D, F>>,
    dir: D,
    name: Seq<char>,
    left: int,
    outcome: Result<(), VolumeError>,
    last: Result<(), VolumeError>,
)
    requires
        delete_retried(t, dir, name, left, outcome, last),
        last is Err,
        left >= 0,
    ensures
        deletes_in(t) == left,
    decreases left,
{
    reveal_with_fuel(deletes_in, 4);
    if left > 0 {
        let (k, reply, absent) = choose|k: int, reply: Result<(), VolumeError>, absent: bool|
            {
                &&& 1 <= k <= t.len()
                &&& t[0] == Call::<D, F>::DropCache
                &&& #[trigger] delete_attempted(t.subrange(1, k), dir, name, reply, absent)
                &&& delete_retried(
                    t.skip(k),
                    dir,
                    name,
                    left - 1,
                    if absent {
                        Ok(())
                    } else {
                        reply
                    },
                    last,
                )
            };
        let tried = t.subrange(1, k);
        let drop_first = seq![t[0]];
        one_delete_is_tried(tried, dir, name, reply, absent);
        assert(drop_first.drop_last() =~= Seq::empty());
        assert(deletes_in(drop_first) == 0);
        retries_are_used_up(
            t.skip(k),
            dir,
            name,
            left - 1,
            if absent {
                Ok(())
            } else {
                reply
            },
            last,
        );
        deletes_join(drop_first, tried);
        deletes_join(drop_first + tried, t.skip(k));
        assert(drop_first + tried + t.skip(k) =~= t);
    }
}

proof fn one_delete_is_tried<D, F>(
    t: Seq<Call<D, F>>,
    dir: D,
    name: Seq<char>,
    reply: Result<(), VolumeError>,
    absent: bool,
)
    requires
        delete_attempted(t, dir, name, reply, absent),
    ensures
        deletes_in(t) == 1,
{
    reveal_with_fuel(deletes_in, 4);
    if t.len() == 3 {
        assert(t.drop_last().last() == t[1]);
        assert(t.drop_last().drop_last().last() == t[0]);
        assert(t.drop_last().drop_last().drop_last().len() == 0);
    } else {
        assert(t.drop_last().len() == 0);
    }
}

/// A delete is given up only after three attempts, unless the entry proves not to be there.
pub proof fn deletes_are_tried_three_times<D, F>(
    t: Seq<Call<D, F>>,
    dir: D,
    name: Seq<char>,
    truncated: bool,
    result: Result<(), FsOpError>,
)
    requires
        entry_deleted(t, dir, name, truncated, result),
        result is Err,
    ensures
        deletes_in(t) == 3 || deletes_in(t) == 1 && (result == Err::<(), FsOpError>(
            FsOpError::Fs(VolumeError::NotFound),
        ) || truncated && result->Err_0 is DeleteIncomplete),
{
    reveal_with_fuel(deletes_in, 4);
    let (k, reply, absent) = choose|k: int, reply: Result<(), VolumeError>, absent: bool|
        {
            &&& 0 <= k <= t.len()
            &&& #[trigger] delete_attempted(t.take(k), dir, name, reply, absent)
            &&& if absent {
                &&& k == t.len()
                &&& result == Err::<(), FsOpError>(
                    if truncated {
                        FsOpError::DeleteIncomplete(Box::new(FsOpError::Fs(VolumeError::NotFound)))
                    } else {
                        FsOpError::Fs(VolumeError::NotFound)
                    },
                )
            } else {
                delete_concluded(t.skip(k), dir, name, reply, truncated, result)
            }
        };
    one_delete_is_tried(t.take(k), dir, name, reply, absent);
    if absent {
        assert(t.take(k) =~= t);
    } else {
        let u = t.skip(k);
        let last = choose|last: Result<(), VolumeError>| #[trigger]
            delete_retried(u.drop_last(), dir, name, 2, reply, last) && last is Err;
        retries_are_used_up(u.drop_last(), dir, name, 2, reply, last);
        deletes_join(t.take(k), u);
        assert(t.take(k) + u =~= t);
    }
}

/// Folders are followed for thirty-two levels, counting the one that was named, and no
/// further.
pub proof fn trees_are_followed_for_32_levels(
    t: Seq<Step>,
    path: Seq<char>,
    depth: int,
    result: Result<(), FsOpError>,
)
    requires
        subtree_checked(t, path, depth, result),
        0 <= depth,
    ensures
        depth >= 32 ==> t.len() == 0 && result == Err::<(), FsOpError>(FsOpError::TooDeep),
        depth < 32 ==> t.len() >= 1 && (t[0] matches Step::Scan { path: p, .. } && p == path),
{
}

/// The message after a delete is true: an entry is called deleted only if the delete
/// succeeded, by what it was, and a failure is shown with its reason.
pub proof fn deletes_are_announced_truly<M: VolumeAccess>(
    before: CardFs<M>,
    after: CardFs<M>,
    explorer: Explorer,
    item: DirectoryItem,
    screen: Screen,
)
    requires
        delete_run(before, after, explorer, item, screen),
    ensures
        screen matches Screen::Explorer(shown) && exists|
            deleted: CardFs<M>,
            result: Result<(), FsOpError>,
        |
            {
                &&& #[trigger] delete_made(before, deleted, item, result)
                &&& match result {
                    Ok(()) => shown.status == Some(
                        if item.is_dir {
                            Notice::FolderDeleted
                        } else {
                            Notice::FileDeleted
                        },
                    ),
                    Err(error) => shown.status == Some(Notice::DeleteFailed(error)),
                }
            },
{
    let (deleted, result, read) = choose|
        deleted: CardFs<M>,
        result: Result<(), FsOpError>,
        read: ExplorerView,
    |
        {
            &&& #[trigger] delete_made(before, deleted, item, result)
            &&& #[trigger] mark_listing(read)
            &&& crate::explorer::refreshed(deleted, after, explorer@, read)
            &&& crate::handlers::is_explorer(
                screen,
                ExplorerView {
                    status: Some(crate::operations::delete_notice(result, item.is_dir)),
                    ..read
                },
            )
        };
    assert(delete_made(before, deleted, item, result));
    assert(screen->Explorer_0@.status == screen->Explorer_0.status);
}

/// A document is opened at its start, with the keyboard up, and can be saved. One that cannot
/// be opened leaves the explorer where it was, with the reason.
pub proof fn documents_open_at_their_start<M: VolumeAccess>(
    before: CardFs<M>,
    after: CardFs<M>,
    explorer: Explorer,
    item: DirectoryItem,
    identity: MediaIdentity,
    screen: Screen,
)
    requires
        document_opened(before, after, explorer, item, Some(identity), screen),
    ensures
        screen is Editor || screen is Explorer,
        screen matches Screen::Editor(editor) ==> {
            &&& editor.buffer.before().len() == 0
            &&& !editor.buffer.dirty()
            &&& editor.keyboard_visible
            &&& editor.scroll_line == 0 && editor.horizontal == 0
            &&& editor.media == EditorMedia::Ready
            &&& editor.identity == identity
            &&& editor.path@ == item.path@
            &&& editor.name@ == item.name@
            &&& editor.explorer == explorer
        },
        screen matches Screen::Explorer(shown) ==> {
            &&& shown.path@ == explorer.path@
            &&& shown.offset == explorer.offset
            &&& shown.selected == explorer.selected
            &&& exists|error: LoadError|
                {
                    &&& #[trigger] document_loaded(
                        after.steps_since(&before),
                        item.path@,
                        Err(error),
                    )
                    &&& shown.status == Some(
                        match error {
                            LoadError::TooLarge => Notice::FileTooLarge,
                            LoadError::InvalidUtf8 => Notice::FileNotText,
                            LoadError::Filesystem(_) => Notice::FileNotOpened,
                        },
                    )
                }
        },
{
    let loaded = choose|loaded: Result<crate::editor::TextBuffer, LoadError>| #[trigger]
        document_loaded(after.steps_since(&before), item.path@, loaded) && match loaded {
            Ok(buffer) => {
                &&& crate::handlers::is_fresh_editor(
                    screen,
                    explorer,
                    item.path@,
                    item.name@,
                    identity,
                )
                &&& screen matches Screen::Editor(editor) && editor.buffer == buffer
            },
            Err(error) => crate::handlers::is_explorer(
                screen,
                ExplorerView { status: Some(crate::handlers::load_notice(error)), ..explorer@ },
            ),
        };
    if let Err(error) = loaded {
        assert(document_loaded(after.steps_since(&before), item.path@, Err(error)));
        let shown = screen->Explorer_0;
        assert(shown@.status == shown.status);
        assert(shown@.path == explorer@.path);
        assert(shown@.offset == shown.offset && explorer@.offset == explorer.offset);
        assert(shown@.selected == shown.selected && explorer@.selected == explorer.selected);
    }
}

/// After anything that may have changed the card, no figure of its free space counts as
/// current.
pub proof fn changes_make_the_figure_stale<M: VolumeAccess>(before: CardFs<M>, after: CardFs<M>)
    requires
        after.changed(&before),
    ensures
        after.space().1 != FreeSpaceState::Clean,
        after.space().1 != FreeSpaceState::FlushFailed,
        before.space().1 == FreeSpaceState::VolumeDead ==> after.space().1
            == FreeSpaceState::VolumeDead,
{
}

/// After a change on FAT32 the volume is closed and opened again before its free space is
/// measured, since the count on the card is brought up to date only then. On FAT16, where the
/// entries are counted, it is not closed.
pub proof fn stale_figures_are_measured_anew(
    t: Seq<Step>,
    fat32: bool,
    figure: Option<u64>,
    after: (Option<u64>, FreeSpaceState),
    answer: Option<u64>,
)
    requires
        space_answered(t, fat32, (figure, FreeSpaceState::Stale), after, answer),
    ensures
        fat32 ==> t.len() >= 1 && t[0] is CloseVolume,
        fat32 && answer is Some ==> t.len() == 3 && (t[1] matches Step::OpenVolume { reply }
            && reply is Ok) && t[2] == (Step::Measure { reply: answer }),
        !fat32 ==> t == seq![Step::Measure { reply: answer }],
        answer is Some ==> after == (answer, FreeSpaceState::Clean),
{
    if fat32 && t.len() == 3 {
        assert(t[2] == t.skip(2)[0]);
    }
}

/// The message after a new document could not be made is true: a name that is taken is called
/// taken, and any other failure is shown with its reason. The name is kept for another try.
pub proof fn refused_documents_are_announced_truly<M: VolumeAccess>(
    before: CardFs<M>,
    after: CardFs<M>,
    entry: NameEntry,
    identity: Option<MediaIdentity>,
    result: HandleResult,
)
    requires
        file_created(before, after, entry, identity, result),
    ensures
        after.steps_since(&before).len() == 1,
        after.steps_since(&before)[0] matches Step::CreateFile { reply, .. } && match reply {
            Ok(()) => result matches HandleResult::Screen(screen) && screen is Editor,
            Err(error) => result matches HandleResult::Screen(screen) && (
            screen matches Screen::Naming(shown) && shown.name@ == entry.name@ && shown.cursor
                == entry.cursor && shown.status == Some(
                if error == FsOpError::AlreadyExists {
                    Notice::FileExists
                } else {
                    Notice::CreateFailed(error)
                },
            )),
        },
{
    if after.steps_since(&before)[0]->CreateFile_reply is Err {
        let shown = result->Screen_0->Naming_0;
        assert(shown@.status == shown.status);
        assert(shown@.name == entry@.name);
        assert(shown@.cursor == shown.cursor && entry@.cursor == entry.cursor);
    }
}

/// The message after a new folder is true, too: it is called made only if it was, and a name
/// that is taken is called taken.
pub proof fn new_folders_are_announced_truly<M: VolumeAccess>(
    before: CardFs<M>,
    after: CardFs<M>,
    entry: NameEntry,
    result: HandleResult,
)
    requires
        folder_created(before, after, entry, result),
    ensures
        exists|made: CardFs<M>, path: Seq<char>, reply: Result<(), FsOpError>|
            {
                &&& #[trigger] folder_step(before, made, path, reply)
                &&& match reply {
                    Ok(()) => result matches HandleResult::Screen(screen) && (
                    screen matches Screen::Explorer(shown) && shown.status == Some(
                        Notice::FolderCreated,
                    )),
                    Err(error) => after == made && (result matches HandleResult::Screen(screen) && (
                    screen matches Screen::Naming(shown) && shown.name@ == entry.name@
                        && shown.status == Some(
                        if error == FsOpError::AlreadyExists {
                            Notice::NameExists
                        } else {
                            Notice::CreateFailed(error)
                        },
                    ))),
                }
            },
{
    let path = crate::names::joined_path(entry.explorer.path@, entry.name@);
    let (made, reply) = choose|made: CardFs<M>, reply: Result<(), FsOpError>|
        {
            &&& #[trigger] folder_step(before, made, path, reply)
            &&& match reply {
                Ok(_) => exists|read: ExplorerView| #[trigger]
                    mark_listing(read) && crate::explorer::refreshed_at(
                        made,
                        after,
                        entry.explorer@,
                        path,
                        read,
                    ) && (result matches HandleResult::Screen(screen)
                        && crate::handlers::is_explorer(
                        screen,
                        ExplorerView { status: Some(Notice::FolderCreated), ..read },
                    )),
                Err(FsOpError::AlreadyExists) => after == made && crate::naming::asks_again(
                    result,
                    entry,
                    Notice::NameExists,
                ),
                Err(error) => after == made && crate::naming::asks_again(
                    result,
                    entry,
                    Notice::CreateFailed(error),
                ),
            }
        };
    assert(folder_step(before, made, path, reply));
    if reply is Ok {
        let shown = result->Screen_0->Explorer_0;
        assert(shown@.status == shown.status);
    } else {
        let shown = result->Screen_0->Naming_0;
        assert(shown@.status == shown.status);
        assert(shown@.name == entry@.name);
    }
}

/// An entry is shown by its long name where it has one, with its own size and marks, and is
/// reached by its short name in the folder.
pub proof fn entries_are_shown_as_they_are(directory: Seq<char>, entry: EntryRecord)
    ensures
        ({
            let item = item_of(directory, entry);
            &&& entry.long_name is Some && entry.long_name->0@.len() > 0 ==> item.name
                == entry.long_name->0@
            &&& entry.long_name is None ==> item.name == entry.name@
            &&& item.size == entry.size
            &&& item.is_dir == entry.directory
            &&& item.hidden == entry.hidden
            &&& item.system == entry.system
            &&& directory != seq!['/'] ==> item.path == directory.push('/') + entry.name@
            &&& directory == seq!['/'] ==> item.path == seq!['/'] + entry.name@
        }),
{
    crate::path_laws::paths_are_joined_by_a_slash(directory, entry.name@);
}

/// A page that was read keeps the selection, or selects its last row where the selection lay
/// beyond it. One that could not be read is shown empty, and says so.
pub proof fn selections_stay_on_the_page(
    e: ExplorerView,
    p: PickerView,
    free: Option<u64>,
    page: Result<(Seq<ItemView>, int), FsOpError>,
)
    ensures
        ({
            let shown = explorer_with_page(e, free, page);
            let picked = picker_with_page(p, page);
            &&& shown.path == e.path && picked.path == p.path && picked.source == p.source
            &&& shown.free_bytes == free
            &&& page matches Ok((items, total)) ==> {
                &&& shown.entries == items && shown.total == total && shown.status is None
                &&& picked.entries == items && picked.total == total && picked.status is None
                &&& items.len() > 0 && e.selected < items.len() ==> shown.selected == e.selected
                &&& items.len() > 0 && e.selected >= items.len() ==> shown.selected == items.len()
                    - 1
                &&& items.len() > 0 && p.selected < items.len() ==> picked.selected == p.selected
                &&& items.len() > 0 && p.selected >= items.len() ==> picked.selected == items.len()
                    - 1
                &&& items.len() > 0 ==> shown.offset == e.offset && picked.offset == p.offset
            }
            &&& page is Err ==> shown.entries.len() == 0 && shown.status == Some(
                Notice::FolderUnreadable,
            ) && picked.entries.len() == 0 && picked.status == Some(Notice::FolderUnreadable)
        }),
{
}

/// A name that is taken is reported as taken, by whichever name the card has for it; any other
/// report of the card is passed on as it is.
pub proof fn reports_are_passed_on(report: VolumeError)
    ensures
        op_error(report) == FsOpError::AlreadyExists <==> report is FileAlreadyExists || report
            is DirAlreadyExists,
        !(report is FileAlreadyExists) && !(report is DirAlreadyExists) ==> op_error(report)
            == FsOpError::Fs(report),
{
}

/// A transfer that got anywhere reports how far; only one that got nowhere reports why.
pub proof fn progress_is_never_hidden(done: int, stop: Option<SdStreamError>)
    requires
        0 <= done <= usize::MAX,
    ensures
        done > 0 || stop is None ==> transfer_result(done, stop) == Ok::<usize, SdStreamError>(
            done as usize,
        ),
        done == 0 && stop is Some ==> transfer_result(done, stop) == Err::<usize, SdStreamError>(
            stop->0,
        ),
{
}

/// A folder counts as made only if a folder of that name was seen.
pub proof fn made_folders_were_seen(seen: Result<EntryFacts, VolumeError>)
    ensures
        made_folder_verdict(seen) is Ok <==> seen is Ok && seen->Ok_0.directory,
{
}

/// What is found in a folder is taken for what it is: by its short name, as a file or a folder,
/// write-protected or not.
pub proof fn children_are_seen_as_they_are(entry: EntryRecord)
    ensures
        child_of(entry).name == entry.name,
        child_of(entry).is_dir == entry.directory,
        child_of(entry).read_only == entry.read_only,
{
}

/// Scrolling goes no further than it must: no other place that shows the position is nearer.
pub proof fn scrolling_is_least(first: int, size: int, at: int, other: int)
    requires
        0 <= first,
        1 <= size,
        0 <= at,
        other <= at < other + size,
    ensures
        scrolled(first, size, at) <= at < scrolled(first, size, at) + size,
        other <= first ==> first - scrolled(first, size, at) <= first - other,
        other >= first ==> scrolled(first, size, at) - first <= other - first,
        first <= at < first + size ==> scrolled(first, size, at) == first,
{
}

/// An entry that was looked for is turned to on the page of eight on which it stands.
pub proof fn targets_stand_on_whole_pages(e: ExplorerView, index: usize)
    ensures
        ({
            let turned = turned_to(e, Ok(Some(index)));
            &&& turned.offset % 8 == 0
            &&& 0 <= turned.selected < 8
            &&& turned.offset + turned.selected == index
            &&& turned.path == e.path
            &&& turned_to(e, Ok(None)) == e
        }),
{
}

/// The value of a hexadecimal digit.
pub open spec fn hex_value(c: char) -> int {
    if '0' <= c <= '9' {
        c as u32 - '0' as u32
    } else {
        c as u32 - 'A' as u32 + 10
    }
}

/// The four digits of a staging name read back as its number, so that two numbers never share
/// a name.
pub proof fn staging_numbers_read_back(n: u16)
    ensures
        hex4_text(n).len() == 4,
        0x1000 * hex_value(hex4_text(n)[0]) + 0x100 * hex_value(hex4_text(n)[1]) + 0x10 * hex_value(
            hex4_text(n)[2],
        ) + hex_value(hex4_text(n)[3]) == n,
        forall|i: int|
            0 <= i < 4 ==> ('0' <= #[trigger] hex4_text(n)[i] <= '9' || 'A' <= hex4_text(n)[i] <= 'F'),
{
    let a = (n / 0x1000) as int;
    let b = (n / 0x100 % 0x10) as int;
    let c = (n / 0x10 % 0x10) as int;
    let d = (n % 0x10) as int;
    digits_have_their_value(a);
    digits_have_their_value(b);
    digits_have_their_value(c);
    digits_have_their_value(d);
    let digits = hex4_text(n);
    assert(digits[0] == digit_char(a));
    assert(digits[1] == digit_char(b));
    assert(digits[2] == digit_char(c));
    assert(digits[3] == digit_char(d));
    four_digits_add_up(n);
    assert forall|i: int| 0 <= i < 4 implies ('0' <= #[trigger] hex4_text(n)[i] <= '9' || 'A'
        <= hex4_text(n)[i] <= 'F') by {
        assert(i == 0 || i == 1 || i == 2 || i == 3);
    }
}

proof fn four_digits_add_up(n: u16)
    ensures
        0x1000 * (n / 0x1000) + 0x100 * (n / 0x100 % 0x10) + 0x10 * (n / 0x10 % 0x10) + (n % 0x10)
            == n,
        n / 0x1000 < 16,
{
    let tens = n as int / 0x10;
    let hundreds = n as int / 0x100;
    let thousands = n as int / 0x1000;
    assert(hundreds == tens / 0x10);
    assert(thousands == hundreds / 0x10);
    assert(n == 0x10 * tens + n as int % 0x10);
    assert(tens == 0x10 * hundreds + tens % 0x10);
    assert(hundreds == 0x10 * thousands + hundreds % 0x10);
}

proof fn digits_have_their_value(n: int)
    requires
        0 <= n < 16,
    ensures
        hex_value(digit_char(n)) == n,
        '0' <= digit_char(n) <= '9' || 'A' <= digit_char(n) <= 'F',
{
    assert(digit_char(n) as u32 == if n < 10 {
        48 + n
    } else {
        55 + n
    });
}

/// The staging names of a save stand in the folder of the document, begin with a tilde, and
/// differ from each other.
pub proof fn staging_names_differ(directory: Seq<char>, n: u16, m: u16)
    ensures
        temporary_path(directory, n) != backup_path(directory, m),
        n != m ==> temporary_path(directory, n) != temporary_path(directory, m),
        n != m ==> backup_path(directory, n) != backup_path(directory, m),
{
    reveal_strlit("~WIO");
    reveal_strlit(".TMP");
    reveal_strlit(".BAK");
    reveal_strlit("/");
    staging_numbers_read_back(n);
    staging_numbers_read_back(m);
    let front = if directory == "/"@ {
        "/"@
    } else {
        directory + "/"@
    };
    let k = front.len() as int;
    let a = temporary_path(directory, n);
    let b = backup_path(directory, m);
    let c = temporary_path(directory, m);
    let d = backup_path(directory, n);
    assert(a[k + 9] == 'T' && b[k + 9] == 'B');
    assert forall|i: int| 0 <= i < 4 implies a[k + 4 + i] == #[trigger] hex4_text(n)[i] && d[k + 4 + i]
        == hex4_text(n)[i] by {}
    assert forall|i: int| 0 <= i < 4 implies c[k + 4 + i] == #[trigger] hex4_text(m)[i] && b[k + 4 + i]
        == hex4_text(m)[i] by {}
    if a == c || d == b {
        assert(hex4_text(n)[0] == hex4_text(m)[0]);
        assert(hex4_text(n)[1] == hex4_text(m)[1]);
        assert(hex4_text(n)[2] == hex4_text(m)[2]);
        assert(hex4_text(n)[3] == hex4_text(m)[3]);
    }
}

/// A name counts as free only if the card says that there is no such entry. A lookup that
/// failed in any other way is a failure, never a free name.
pub proof fn names_are_free_only_if_missing(found: Result<EntryFacts, VolumeError>)
    ensures
        name_taken(found) is None <==> found == Err::<EntryFacts, VolumeError>(VolumeError::NotFound),
        found is Ok ==> name_taken(found) == Some(FsOpError::AlreadyExists),
{
}

/// The last two steps of a move that was reported as done: the entry was looked for where it
/// was, and not found, and then where it went, and not found missing.
pub open spec fn arrival_was_seen(t: Seq<Step>, from: Seq<char>, to: Seq<char>) -> bool {
    &&& t.len() >= 2
    &&& t[t.len() - 2] matches Step::Find { path, reply } && path == from && reply is Err
    &&& t.last() matches Step::Find { path: p, reply: seen } && p == to && !(seen is Err
        && seen->Err_0.says_not_found())
}

proof fn confirmed_moves_arrived(
    t: Seq<Step>,
    rest: Seq<Step>,
    from: Seq<char>,
    to: Seq<char>,
    result: Result<(), FsOpError>,
)
    requires
        move_confirmed(rest, from, to, result),
        rest.len() <= t.len(),
        rest == t.skip(t.len() - rest.len()),
    ensures
        result is Ok ==> arrival_was_seen(t, from, to),
        rest.len() == 2 && arrival_was_seen(t, from, to) ==> result is Ok,
{
    let n = t.len() - rest.len();
    assert(rest[0] == t[n]);
    if rest.len() == 2 {
        assert(rest[1] == t[n + 1]);
    }
}

/// A move is reported as done only if its entry was seen to have gone from one place and was
/// not missing from the other.
pub proof fn done_moves_were_looked_at(
    t: Seq<Step>,
    from: Seq<char>,
    to: Seq<char>,
    from_form: Result<Seq<char>, NameFault>,
    to_form: Result<Seq<char>, NameFault>,
)
    requires
        entry_moved(t, from, to, from_form, to_form, Ok(())),
        t.len() > 1,
    ensures
        arrival_was_seen(t, from, to),
{
    let result: Result<(), FsOpError> = Ok(());
    let u = t.skip(2);
    if t[0]->Find_reply->Ok_0.directory {
        let (k, checked) = choose|k: int, checked: Result<(), FsOpError>|
            {
                &&& 0 <= k <= u.len()
                &&& #[trigger] subtree_checked(u.take(k), from, 0, checked)
                &&& if checked is Err {
                    k == u.len() && result == checked
                } else {
                    tree_moved(u.skip(k), from, to, result)
                }
            };
        let v = u.skip(k);
        let (m, copied) = choose|m: int, copied: Result<(), FsOpError>|
            {
                &&& 0 <= m <= v.len()
                &&& #[trigger] tree_copied(v.take(m), from, to, 0, copied)
                &&& match copied {
                    Err(error) => tree_copy_cleaned_up(v.skip(m), error, to, result),
                    Ok(_) => source_tree_removed(v.skip(m), from, to, result),
                }
            };
        let w = v.skip(m);
        let (n, destroyed, removed) = choose|
            n: int,
            destroyed: bool,
            removed: Result<(), FsOpError>,
        |
            {
                &&& 0 <= n <= w.len()
                &&& #[trigger] tree_deleted(
                    w.take(n),
                    from,
                    0,
                    MAX_DELETE_ROUNDS as int,
                    false,
                    destroyed,
                    removed,
                )
                &&& match removed {
                    Err(error) => n == w.len() && result == Err::<(), FsOpError>(
                        source_report(error),
                    ),
                    Ok(_) => move_confirmed(w.skip(n), from, to, result),
                }
            };
        let rest = w.skip(n);
        assert(rest =~= t.skip(2 + k + m + n));
        confirmed_moves_arrived(t, rest, from, to, result);
    } else {
        let (k, copied) = choose|k: int, copied: Result<(), FsOpError>|
            {
                &&& 0 <= k <= u.len()
                &&& #[trigger] file_copied_safely(u.take(k), from, to, copied)
                &&& if copied is Err {
                    k == u.len() && result == copied
                } else {
                    source_file_removed(u.skip(k), from, to, result)
                }
            };
        let rest = u.skip(k).skip(1);
        assert(rest =~= t.skip(3 + k));
        confirmed_moves_arrived(t, rest, from, to, result);
    }
}

/// A delete is reported as done only if the entry was looked for afterwards and was not there.
pub proof fn done_deletes_were_looked_at(t: Seq<Step>, path: Seq<char>, is_dir: bool)
    requires
        entry_deleted_verified(t, path, is_dir, Ok(())),
    ensures
        t.last() matches Step::Find { path: p, reply } && p == path && reply is Err,
{
    let result: Result<(), FsOpError> = Ok(());
    if is_dir {
        let u = t.skip(1);
        let (k, checked) = choose|k: int, checked: Result<(), FsOpError>|
            {
                &&& 0 <= k <= u.len()
                &&& #[trigger] subtree_checked(u.take(k), path, 0, checked)
                &&& if checked is Err {
                    k == u.len() && result == checked
                } else {
                    checked_tree_deleted(u.skip(k), path, result)
                }
            };
        let v = u.skip(k);
        let (n, destroyed, removed) = choose|
            n: int,
            destroyed: bool,
            removed: Result<(), FsOpError>,
        |
            {
                &&& 0 <= n <= v.len()
                &&& #[trigger] tree_deleted(
                    v.take(n),
                    path,
                    0,
                    MAX_DELETE_ROUNDS as int,
                    false,
                    destroyed,
                    removed,
                )
                &&& match removed {
                    Err(error) => n == v.len() && result == Err::<(), FsOpError>(
                        tree_delete_report(error, destroyed),
                    ),
                    Ok(_) => delete_confirmed(v.skip(n), path, result),
                }
            };
        let rest = v.skip(n);
        assert(rest =~= t.skip(1 + k + n));
        assert(rest[0] == t.last());
    } else {
        let rest = t.skip(2);
        assert(rest[0] == t.last());
    }
}

/// A save whose target could not be looked up, for any reason but that it is not there, fails
/// at once and with that reason.
pub proof fn unknown_targets_are_not_replaced(
    t: Seq<Step>,
    path: Seq<char>,
    contents: Seq<u8>,
    outcome: SaveOutcome,
)
    requires
        document_saved(t, path, contents, outcome),
        t[0]->Find_reply is Err,
    ensures
        t[0]->Find_reply->Err_0 != FsOpError::Fs(VolumeError::NotFound) ==> t.len() == 1 && outcome == (
        SaveOutcome::Failed { error: t[0]->Find_reply->Err_0, backup_kept: None }),
        t.len() == 1 ==> t[0]->Find_reply->Err_0 != FsOpError::Fs(VolumeError::NotFound),
{
    if t[0]->Find_reply->Err_0 == FsOpError::Fs(VolumeError::NotFound) {
        let u = t.skip(1);
        let (k, chosen) = choose|k: int, chosen: Result<u16, FsOpError>|
            0 <= k <= u.len() && #[trigger] suffix_chosen(u.take(k), parent_of(path), 0, chosen);
        assert(u.take(k).len() >= 1);
    }
}

/// Of two steps, both must succeed; where both fail, the first failure is reported.
pub proof fn both_steps_must_succeed(
    first: Result<(), FsOpError>,
    second: Result<(), FsOpError>,
)
    ensures
        first_failure(first, second) is Ok <==> first is Ok && second is Ok,
        first is Err ==> first_failure(first, second) == first,
        first is Ok ==> first_failure(first, second) == second,
{
}

/// From an empty page the explorer goes back by eight rows, or to the first.
pub proof fn pages_have_eight_rows(offset: int)
    requires
        0 <= offset,
    ensures
        offset >= 8 ==> page_up(offset) == offset - 8,
        offset < 8 ==> page_up(offset) == 0,
{
}

/// Without its card a document is not saved, and nothing is done to any other card. The message
/// tells a card that is missing from one that is not the document's.
pub proof fn documents_are_saved_to_their_card_alone<M: VolumeAccess>(
    before: Option<CardFs<M>>,
    after: Option<CardFs<M>>,
    v: EditorView,
    w: EditorView,
    done: bool,
)
    requires
        editor_saved(before, after, v, w, done),
    ensures
        w.buffer.before == v.buffer.before && w.buffer.after == v.buffer.after && w.path == v.path,
        v.media != EditorMedia::Ready || before is None ==> after == before && !done
            && w.buffer.dirty == v.buffer.dirty,
        v.media == EditorMedia::Removed ==> w.status == Some(Notice::ReinsertCard),
        v.media == EditorMedia::Different ==> w.status == Some(Notice::DifferentCard),
        v.media == EditorMedia::Ready && before is None ==> w.status == Some(
            Notice::CardUnavailable,
        ),
        done ==> w.status == Some(Notice::Saved) && !w.buffer.dirty,
        !done ==> w.buffer.dirty == v.buffer.dirty && w.status != Some(Notice::Saved),
{
}

} // verus!
