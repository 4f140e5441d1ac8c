//! What a save makes of a card on which nothing fails.
use vstd::prelude::*;

use crate::boot::MediaLayout;
use crate::contents::{
    holds_file, holds_folder, holds_writable, images, place_of, Card, Naming, Place,
};
use crate::contents_laws::{
    first_free, later_suffixes, same_suffixes_free, stages_elsewhere, staging_places, suffix_free,
};
use crate::contents_runs::{found_truly, lookups_are_true};
use crate::editor::MAX_DOCUMENT_BYTES;
use crate::errors::FsOpError;
use crate::files::MAX_CHUNKS;
use crate::names::{components_of, parent_of, parent_of_joined};
use crate::reliable::{
    file_copies_succeed, file_removals_succeed, file_saves_succeed, file_with, files_gone,
    folders_stand, lookups_answer, makings_succeed, may_open, may_remove, may_remove_files,
    reliable_parts, reliable_run, removals_succeed, same_entries_same_folders, walks_succeed,
};
use crate::saving::{
    document_saved, plan_for, presence, save_target, staged_save, suffix_chosen, target_saved,
    SaveOutcome, SavePlan,
};
use crate::session::{explained, step_made, Session, Step};
use crate::storage::since;
use crate::text::hex4_text;
use crate::volume::{Call, OpenMode, VolumeAccess};

verus! {

/// A copy that nothing stands against.
pub open spec fn may_copy<D, F>(
    c: Card<D, F>,
    from: Place,
    to: Place,
    mode: OpenMode,
    stored: Seq<u8>,
) -> bool {
    &&& folders_stand(c, from.directory) && folders_stand(c, to.directory)
    &&& holds_file(c, from, stored) && stored.len() < MAX_CHUNKS
    &&& from != to
    &&& may_open(c, to, mode) && mode != OpenMode::ReadOnly
}

/// What a step leaves on a card on which nothing fails that can succeed.
pub open spec fn succeeds<D, F>(id: Naming, c: Card<D, F>, step: Step, d: Card<D, F>) -> bool {
    match step {
        Step::Find { path, reply } => folders_stand(c, place_of(id, path).directory) ==> {
            &&& d.entries == c.entries
            &&& found_truly(c, place_of(id, path), reply)
            &&& reply matches Err(error) ==> error.says_not_found()
        },
        Step::Save { path, contents, reply } => {
            let place = place_of(id, path);
            folders_stand(c, place.directory) && may_open(
                c,
                place,
                OpenMode::ReadWriteCreateOrTruncate,
            ) ==> reply is Ok && d.entries == c.entries.insert(place, file_with(contents))
        },
        Step::Copy { from, to, mode, reply } => forall|stored: Seq<u8>| #[trigger]
            may_copy(c, place_of(id, from), place_of(id, to), mode, stored) ==> reply is Ok
                && d.entries == c.entries.insert(place_of(id, to), file_with(stored)),
        Step::Delete { path, reply } => {
            let place = place_of(id, path);
            folders_stand(c, place.directory) && may_remove(c, place) ==> reply is Ok
                && d.entries == c.entries.remove(place)
        },
        Step::DeleteFiles { path, children, reply, .. } => {
            let directory = images(id, components_of(path));
            folders_stand(c, directory) && may_remove_files(id, c, directory, children, 0)
                ==> reply is Ok && files_gone(id, c, d, directory, children, 0)
        },
        Step::MakeFolder { path, reply } => folders_stand(c, place_of(id, path).directory)
            && !c.entries.contains_key(place_of(id, path)) ==> reply is Ok,
        Step::Scan { path, reply, .. } => folders_stand(c, images(id, components_of(path)))
            ==> reply is Ok,
        _ => true,
    }
}

pub(crate) proof fn steps_succeed<D, F>(
    id: Naming,
    cs: Seq<Card<D, F>>,
    t: Seq<Call<D, F>>,
    layout: MediaLayout,
    step: Step,
)
    requires
        reliable_run(id, cs, t),
        step_made(t, layout, step),
    ensures
        succeeds(id, cs[0], step, cs.last()),
{
    match step {
        Step::Find { path, reply } => {
            lookups_are_true(id, cs, t, path, reply);
            if folders_stand(cs[0], place_of(id, path).directory) {
                lookups_answer(id, cs, t, path, reply);
            }
        },
        Step::Save { path, contents, reply } => {
            let place = place_of(id, path);
            if folders_stand(cs[0], place.directory) && may_open(
                cs[0],
                place,
                OpenMode::ReadWriteCreateOrTruncate,
            ) {
                file_saves_succeed(id, cs, t, path, contents, reply);
            }
        },
        Step::Copy { from, to, mode, reply } => {
            assert forall|stored: Seq<u8>| #[trigger]
                may_copy(
                    cs[0],
                    place_of(id, from),
                    place_of(id, to),
                    mode,
                    stored,
                ) implies reply is Ok && cs.last().entries == cs[0].entries.insert(
                place_of(id, to),
                file_with(stored),
            ) by {
                file_copies_succeed(id, cs, t, from, to, mode, reply, stored);
            }
        },
        Step::Delete { path, reply } => {
            let place = place_of(id, path);
            if folders_stand(cs[0], place.directory) && may_remove(cs[0], place) {
                removals_succeed(id, cs, t, layout.fat32, path, reply);
            }
        },
        Step::DeleteFiles { path, children, destroyed, reply } => {
            let directory = images(id, components_of(path));
            if folders_stand(cs[0], directory) && may_remove_files(
                id,
                cs[0],
                directory,
                children,
                0,
            ) {
                file_removals_succeed(
                    id,
                    cs,
                    t,
                    layout.fat32,
                    path,
                    children,
                    destroyed,
                    reply,
                );
            }
        },
        Step::MakeFolder { path, reply } => {
            if folders_stand(cs[0], place_of(id, path).directory)
                && !cs[0].entries.contains_key(place_of(id, path)) {
                makings_succeed(id, cs, t, path, reply);
            }
        },
        Step::Scan { path, rule, reply } => {
            if folders_stand(cs[0], images(id, components_of(path))) {
                walks_succeed(id, cs, t, path, rule, reply);
            }
        },
        _ => {},
    }
}

/// The cards before, between and after the steps `t`, none of which fails.
pub open spec fn successes_run<D, F>(id: Naming, ds: Seq<Card<D, F>>, t: Seq<Step>) -> bool {
    &&& ds.len() == t.len() + 1
    &&& forall|i: int| 0 <= i < t.len() ==> #[trigger] succeeds_at(id, ds, t, i)
}

pub open spec fn succeeds_at<D, F>(id: Naming, ds: Seq<Card<D, F>>, t: Seq<Step>, i: int) -> bool {
    succeeds(id, ds[i], t[i], ds[i + 1])
}

pub(crate) proof fn successes_run_parts<D, F>(id: Naming, ds: Seq<Card<D, F>>, t: Seq<Step>, k: int)
    requires
        successes_run(id, ds, t),
        0 <= k <= t.len(),
    ensures
        successes_run(id, ds.take(k + 1), t.take(k)),
        successes_run(id, ds.skip(k), t.skip(k)),
        ds.take(k + 1).last() == ds[k],
        ds.take(k + 1)[0] == ds[0],
        ds.skip(k)[0] == ds[k],
        ds.skip(k).last() == ds.last(),
{
    assert forall|i: int| 0 <= i < k implies #[trigger] succeeds_at(
        id,
        ds.take(k + 1),
        t.take(k),
        i,
    ) by {
        assert(succeeds_at(id, ds, t, i));
    }
    assert forall|i: int| 0 <= i < t.skip(k).len() implies #[trigger] succeeds_at(
        id,
        ds.skip(k),
        t.skip(k),
        i,
    ) by {
        assert(succeeds_at(id, ds, t, k + i));
    }
}

pub(crate) proof fn first_step_succeeds<D, F>(id: Naming, ds: Seq<Card<D, F>>, t: Seq<Step>)
    requires
        successes_run(id, ds, t),
        t.len() > 0,
    ensures
        succeeds(id, ds[0], t[0], ds[1]),
        successes_run(id, ds.skip(1), t.skip(1)),
        ds.skip(1)[0] == ds[1],
        ds.skip(1).last() == ds.last(),
{
    successes_run_parts(id, ds, t, 1);
    assert(succeeds_at(id, ds, t, 0));
}

proof fn calls_run_as_successes<D, F>(
    id: Naming,
    cs: Seq<Card<D, F>>,
    t: Seq<Call<D, F>>,
    layout: MediaLayout,
    steps: Seq<Step>,
) -> (ds: Seq<Card<D, F>>)
    requires
        reliable_run(id, cs, t),
        explained(t, layout, steps),
    ensures
        successes_run(id, ds, steps),
        ds[0] == cs[0],
        ds.last() == cs.last(),
    decreases steps.len(),
{
    reveal(explained);
    if steps.len() == 0 {
        seq![cs[0]]
    } else {
        let k = choose|k: int|
            0 <= k <= t.len() && explained(#[trigger] t.take(k), layout, steps.drop_last())
                && step_made(t.skip(k), layout, steps.last());
        reliable_parts(id, cs, t, k);
        let es = calls_run_as_successes(id, cs.take(k + 1), t.take(k), layout, steps.drop_last());
        steps_succeed(id, cs.skip(k), t.skip(k), layout, steps.last());
        let ds = es.push(cs.last());
        assert forall|i: int| 0 <= i < steps.len() implies #[trigger] succeeds_at(
            id,
            ds,
            steps,
            i,
        ) by {
            if i < steps.len() - 1 {
                assert(succeeds_at(id, es, steps.drop_last(), i));
            }
        }
        ds
    }
}

proof fn hex_has_no_slash(suffix: u16, extension: Seq<char>)
    requires
        !extension.contains('/'),
    ensures
        !("~WIO"@ + hex4_text(suffix) + extension).contains('/'),
{
    reveal_strlit("~WIO");
    let front = "~WIO"@;
    let digits = hex4_text(suffix);
    let name = front + digits + extension;
    if name.contains('/') {
        let i = choose|i: int| 0 <= i < name.len() && name[i] == '/';
        if i < 4 {
            assert(name[i] == front[i]);
        } else if i < 8 {
            assert(name[i] == digits[i - 4]);
        } else {
            assert(name[i] == extension[i - 8]);
            assert(extension.contains(extension[i - 8]));
        }
    }
}

/// Files are staged in the folder of the document.
pub proof fn staging_keeps_to_the_folder(id: Naming, path: Seq<char>, suffix: u16)
    ensures
        staging_places(id, path, suffix).0.directory == place_of(id, path).directory,
        staging_places(id, path, suffix).1.directory == place_of(id, path).directory,
{
    reveal_strlit("/");
    reveal_strlit(".TMP");
    reveal_strlit(".BAK");
    assert(!".TMP"@.contains('/')) by {
        assert forall|i: int| 0 <= i < ".TMP"@.len() implies ".TMP"@[i] != '/' by {}
    }
    assert(!".BAK"@.contains('/')) by {
        assert forall|i: int| 0 <= i < ".BAK"@.len() implies ".BAK"@[i] != '/' by {}
    }
    hex_has_no_slash(suffix, ".TMP"@);
    hex_has_no_slash(suffix, ".BAK"@);
    parent_of_joined(parent_of(path), "~WIO"@ + hex4_text(suffix) + ".TMP"@);
    parent_of_joined(parent_of(path), "~WIO"@ + hex4_text(suffix) + ".BAK"@);
}

proof fn free_suffixes_are_chosen<D, F>(
    id: Naming,
    ds: Seq<Card<D, F>>,
    t: Seq<Step>,
    path: Seq<char>,
    suffix: u16,
    free: u16,
    chosen: Result<u16, FsOpError>,
)
    requires
        successes_run(id, ds, t),
        suffix_chosen(t, parent_of(path), suffix, chosen),
        folders_stand(ds[0], place_of(id, path).directory),
        suffix <= free,
        suffix_free(id, ds[0], path, free),
    ensures
        ds.last().entries == ds[0].entries,
        chosen matches Ok(s) && {
            &&& suffix <= s
            &&& suffix_free(id, ds[0], path, s)
            &&& forall|r: u16| suffix <= r < s ==> !#[trigger] suffix_free(id, ds[0], path, r)
        },
    decreases 0x1_0000 - suffix,
{
    let directory = place_of(id, path).directory;
    staging_keeps_to_the_folder(id, path, suffix);
    first_step_succeeds(id, ds, t);
    same_entries_same_folders(ds[0], ds[1], directory);
    let found = presence(t[0]->Find_reply);
    if found == Ok::<bool, FsOpError>(true) {
        assert(suffix < free);
        free_suffixes_are_chosen(
            id,
            ds.skip(1),
            t.skip(1),
            path,
            (suffix + 1) as u16,
            free,
            chosen,
        );
        later_suffixes(id, ds[0], ds[1], path, suffix, chosen);
    } else {
        first_step_succeeds(id, ds.skip(1), t.skip(1));
        assert(t.skip(1)[0] == t[1]);
        assert(t.skip(1).skip(1) =~= t.skip(2));
        assert(ds.skip(1).skip(1) =~= ds.skip(2));
        assert(ds.skip(1)[1] == ds[2]);
        same_entries_same_folders(ds[1], ds[2], directory);
        if presence(t[1]->Find_reply) == Ok::<bool, FsOpError>(true) {
            assert(suffix < free);
            free_suffixes_are_chosen(
                id,
                ds.skip(2),
                t.skip(2),
                path,
                (suffix + 1) as u16,
                free,
                chosen,
            );
            later_suffixes(id, ds[0], ds[2], path, suffix, chosen);
        }
    }
}

pub(crate) proof fn folders_kept<D, F>(c: Card<D, F>, d: Card<D, F>, directory: Seq<Seq<char>>)
    requires
        folders_stand(c, directory),
        forall|place: Place| #[trigger] holds_folder(c, place) ==> holds_folder(d, place),
    ensures
        folders_stand(d, directory),
{
    assert forall|i: int| 0 <= i < directory.len() implies holds_folder(
        d,
        Place { directory: directory.take(i), name: #[trigger] directory[i] },
    ) by {
        assert(holds_folder(c, Place { directory: directory.take(i), name: directory[i] }));
    }
}

/// Writing the target and clearing up, where both staging files are there.
proof fn target_saves_succeed<D, F>(
    id: Naming,
    c: Card<D, F>,
    ds: Seq<Card<D, F>>,
    t: Seq<Step>,
    plan: SavePlan,
    outcome: SaveOutcome,
    old: Seq<u8>,
)
    requires
        successes_run(id, ds, t),
        target_saved(t, plan, outcome),
        ({
            let target = place_of(id, plan.path);
            let temporary = place_of(id, plan.temporary);
            let backup = place_of(id, plan.backup);
            let staged = c.entries.insert(temporary, file_with(plan.contents));
            &&& folders_stand(c, target.directory)
            &&& temporary.directory == target.directory && backup.directory == target.directory
            &&& target != temporary
            &&& plan.existed ==> target != backup && temporary != backup
            &&& !c.entries.contains_key(temporary) && !c.entries.contains_key(backup)
            &&& may_open(c, target, OpenMode::ReadWriteCreateOrTruncate)
            &&& ds[0].entries == if plan.existed {
                staged.insert(backup, file_with(old))
            } else {
                staged
            }
        }),
    ensures
        outcome == SaveOutcome::Saved,
        ds.last().entries == c.entries.insert(place_of(id, plan.path), file_with(plan.contents)),
{
    let target = place_of(id, plan.path);
    let temporary = place_of(id, plan.temporary);
    let backup = place_of(id, plan.backup);
    let saved = c.entries.insert(target, file_with(plan.contents));
    folders_kept(c, ds[0], target.directory);
    first_step_succeeds(id, ds, t);
    folders_kept(c, ds[1], target.directory);
    first_step_succeeds(id, ds.skip(1), t.skip(1));
    assert(t.skip(1)[0] == t[1]);
    assert(ds.skip(1)[1] == ds[2]);
    folders_kept(c, ds[2], target.directory);
    if plan.existed {
        first_step_succeeds(id, ds.skip(1).skip(1), t.skip(1).skip(1));
        assert(t.skip(1).skip(1)[0] == t[2]);
        assert(ds.skip(1).skip(1)[1] == ds[3]);
        assert(ds.last() == ds[3]);
    } else {
        assert(ds.last() == ds[2]);
    }
    assert(ds.last().entries =~= saved);
}

/// The card has room for a save of `path`: its folder stands, what is there, if anything,
/// is a file that the editor takes and may write, and some suffix is free. The first that is
/// gives the staging names; the document must not bear the one of its new contents.
pub open spec fn ready_for<D, F>(id: Naming, c: Card<D, F>, path: Seq<char>) -> bool {
    let target = place_of(id, path);
    &&& folders_stand(c, target.directory)
    &&& c.entries.contains_key(target) ==> holds_writable(c, target)
        && c.entries[target]->bytes.len() <= MAX_DOCUMENT_BYTES
    &&& exists|suffix: u16| #[trigger] suffix_free(id, c, path, suffix)
    &&& if c.entries.contains_key(target) {
        stages_apart(id, c, path)
    } else {
        stages_elsewhere(id, c, path)
    }
}

/// The names under which a save of `path` stages its two files mean different entries.
pub open spec fn stages_apart<D, F>(id: Naming, c: Card<D, F>, path: Seq<char>) -> bool {
    forall|suffix: u16| #[trigger]
        first_free(id, c, path, suffix) ==> staging_places(id, path, suffix).0 != staging_places(
            id,
            path,
            suffix,
        ).1
}

proof fn staged_saves_succeed<D, F>(
    id: Naming,
    ds: Seq<Card<D, F>>,
    t: Seq<Step>,
    path: Seq<char>,
    contents: Seq<u8>,
    suffix: u16,
    outcome: SaveOutcome,
)
    requires
        successes_run(id, ds, t),
        ready_for(id, ds[0], path),
        first_free(id, ds[0], path, suffix),
        staged_save(
            t,
            plan_for(path, contents, suffix, ds[0].entries.contains_key(place_of(id, path))),
            outcome,
        ),
    ensures
        outcome == SaveOutcome::Saved,
        ds.last().entries == ds[0].entries.insert(place_of(id, path), file_with(contents)),
{
    let c = ds[0];
    let target = place_of(id, path);
    let plan = plan_for(path, contents, suffix, c.entries.contains_key(target));
    let (temporary, backup) = staging_places(id, path, suffix);
    staging_keeps_to_the_folder(id, path, suffix);
    first_step_succeeds(id, ds, t);
    let u = t.skip(1);
    let es = ds.skip(1);
    if plan.existed {
        let old = c.entries[target]->bytes;
        folders_kept(c, ds[1], target.directory);
        first_step_succeeds(id, es, u);
        assert(may_copy(es[0], target, backup, OpenMode::ReadWriteCreate, old));
        target_saves_succeed(id, c, es.skip(1), u.skip(1), plan, outcome, old);
    } else {
        target_saves_succeed(id, c, es, u, plan, outcome, Seq::empty());
    }
}

proof fn still_ready<D, F>(id: Naming, c: Card<D, F>, d: Card<D, F>, path: Seq<char>)
    requires
        ready_for(id, c, path),
        c.entries == d.entries,
    ensures
        ready_for(id, d, path),
{
    same_entries_same_folders(c, d, place_of(id, path).directory);
    same_suffixes_free(id, c, d, path);
    let free = choose|suffix: u16| #[trigger] suffix_free(id, c, path, suffix);
    assert(suffix_free(id, d, path, free));
    assert forall|suffix: u16| #[trigger] first_free(id, d, path, suffix) implies first_free(
        id,
        c,
        path,
        suffix,
    ) by {
        assert(first_free(id, c, path, suffix) == first_free(id, d, path, suffix));
    }
}

proof fn chosen_first<D, F>(
    id: Naming,
    c: Card<D, F>,
    d: Card<D, F>,
    path: Seq<char>,
    suffix: u16,
)
    requires
        c.entries == d.entries,
        suffix_free(id, c, path, suffix),
        forall|r: u16| 0 <= r < suffix ==> !#[trigger] suffix_free(id, c, path, r),
    ensures
        first_free(id, d, path, suffix),
{
    same_suffixes_free(id, c, d, path);
    assert(first_free(id, c, path, suffix));
}

proof fn whole_saves_succeed<D, F>(
    id: Naming,
    ds: Seq<Card<D, F>>,
    t: Seq<Step>,
    path: Seq<char>,
    contents: Seq<u8>,
    outcome: SaveOutcome,
)
    requires
        successes_run(id, ds, t),
        document_saved(t, path, contents, outcome),
        ready_for(id, ds[0], path),
    ensures
        outcome == SaveOutcome::Saved,
        ds.last().entries == ds[0].entries.insert(place_of(id, path), file_with(contents)),
{
    let target = place_of(id, path);
    first_step_succeeds(id, ds, t);
    let existed = ds[0].entries.contains_key(target);
    assert(save_target(t[0]->Find_reply) == Ok::<bool, FsOpError>(existed));
    let u = t.skip(1);
    let es = ds.skip(1);
    let (k, chosen): (int, Result<u16, FsOpError>) = choose|k: int, chosen: Result<u16, FsOpError>|
        {
            &&& 0 <= k <= u.len()
            &&& #[trigger] suffix_chosen(u.take(k), parent_of(path), 0, chosen)
            &&& match chosen {
                Err(error) => k == u.len() && outcome == SaveOutcome::Failed {
                    error,
                    backup_kept: None,
                },
                Ok(suffix) => staged_save(
                    u.skip(k),
                    plan_for(path, contents, suffix, existed),
                    outcome,
                ),
            }
        };
    successes_run_parts(id, es, u, k);
    same_entries_same_folders(ds[0], ds[1], target.directory);
    let free = choose|suffix: u16| #[trigger] suffix_free(id, ds[0], path, suffix);
    assert(suffix_free(id, ds[1], path, free));
    free_suffixes_are_chosen(id, es.take(k + 1), u.take(k), path, 0, free, chosen);
    let suffix = chosen->Ok_0;
    same_entries_same_folders(ds[0], es[k], target.directory);
    chosen_first(id, ds[1], es[k], path, suffix);
    still_ready(id, ds[0], es[k], path);
    staged_saves_succeed(id, es.skip(k), u.skip(k), path, contents, suffix, outcome);
}

/// On a card on which nothing fails, a save succeeds: the document then holds exactly the
/// new contents, and nothing else on the card has changed. No staging file is left behind.
pub proof fn saves_succeed_and_leave_nothing_behind<M: VolumeAccess>(
    id: Naming,
    cs: Seq<Card<M::Dir, M::File>>,
    before: Session<M>,
    after: Session<M>,
    path: Seq<char>,
    contents: Seq<u8>,
    outcome: SaveOutcome,
)
    requires
        after.follows(&before),
        document_saved(since(before.steps(), after.steps()), path, contents, outcome),
        reliable_run(id, cs, since(before.calls(), after.calls())),
        ready_for(id, cs[0], path),
    ensures
        outcome == SaveOutcome::Saved,
        cs.last().entries == cs[0].entries.insert(place_of(id, path), file_with(contents)),
{
    let steps = since(before.steps(), after.steps());
    let calls = since(before.calls(), after.calls());
    reveal(Session::accounts_since);
    let ds = calls_run_as_successes(id, cs, calls, after.layout(), steps);
    whole_saves_succeed(id, ds, steps, path, contents, outcome);
}

} // verus!
