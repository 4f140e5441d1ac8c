//! What a save makes of what a card holds.
use vstd::prelude::*;

use crate::boot::MediaLayout;
use crate::contents::{
    holds_file, holds_folder, images, place_of, run, run_first, run_parts, same_elsewhere, Card,
    Naming, Place,
};
use crate::contents_runs::{
    copied_files_hold_the_same, file_removals_stay_inside, folders_are_made, found_truly,
    lookups_are_true,
    only_under, removal_leaves, removals_are_reported_truly, same_contents,
    saved_files_hold_their_contents, walks_change_nothing,
};
use crate::errors::FsOpError;
use crate::names::{components_of, parent_of};
use crate::saving::{
    after_backup, after_temporary, backup_path, document_saved, plan_for, presence, removes,
    rolled_back, save_target, staged_save, staging_failed, suffix_chosen, target_saved,
    temporary_path, SaveOutcome, SavePlan,
};
use crate::session::{explained, step_made, Session, Step};
use crate::storage::since;
use crate::tree::{assessed, probe_steps};
use crate::volume::{Call, OpenMode, VolumeAccess};

verus! {

/// What a step leaves on the card.
pub open spec fn leaves<D, F>(id: Naming, c: Card<D, F>, step: Step, d: Card<D, F>) -> bool {
    match step {
        Step::Find { path, reply } => d.entries == c.entries && found_truly(
            c,
            place_of(id, path),
            reply,
        ),
        Step::Save { path, contents, reply } => {
            &&& same_elsewhere(c, d, place_of(id, path))
            &&& reply is Ok ==> holds_file(d, place_of(id, path), contents)
        },
        Step::Copy { from, to, mode, reply } => {
            &&& same_elsewhere(c, d, place_of(id, to))
            &&& reply is Ok ==> same_contents(d, place_of(id, from), place_of(id, to))
            &&& reply is Ok && mode == OpenMode::ReadWriteCreate ==> !c.entries.contains_key(
                place_of(id, to),
            )
        },
        Step::Delete { path, reply } => removal_leaves(c, d, place_of(id, path), reply),
        Step::DeleteFiles { path, destroyed, .. } => {
            &&& only_under(c, d, images(id, components_of(path)))
            &&& !destroyed ==> d.entries == c.entries
        },
        Step::MakeFolder { path, reply } => {
            &&& same_elsewhere(c, d, place_of(id, path))
            &&& reply is Ok ==> holds_folder(d, place_of(id, path))
        },
        Step::Scan { .. } => d.entries == c.entries,
        Step::Probe { .. } => d.entries == c.entries,
        _ => true,
    }
}

pub(crate) proof fn steps_leave_the_card<D, F>(
    id: Naming,
    cs: Seq<Card<D, F>>,
    t: Seq<Call<D, F>>,
    layout: MediaLayout,
    step: Step,
)
    requires
        run(id, cs, t),
        step_made(t, layout, step),
    ensures
        leaves(id, cs[0], step, cs.last()),
{
    match step {
        Step::Find { path, reply } => {
            lookups_are_true(id, cs, t, path, reply);
        },
        Step::Save { path, contents, reply } => {
            saved_files_hold_their_contents(id, cs, t, path, contents, reply);
        },
        Step::Copy { from, to, mode, reply } => {
            copied_files_hold_the_same(id, cs, t, from, to, mode, reply);
        },
        Step::Delete { path, reply } => {
            removals_are_reported_truly(id, cs, t, layout.fat32, path, reply);
        },
        Step::DeleteFiles { path, children, destroyed, reply } => {
            file_removals_stay_inside(
                id,
                cs,
                t,
                layout.fat32,
                path,
                children,
                destroyed,
                reply,
            );
        },
        Step::MakeFolder { path, reply } => {
            folders_are_made(id, cs, t, path, reply);
        },
        Step::Scan { path, rule, reply } => {
            walks_change_nothing(id, cs, t, path, rule, reply);
        },
        Step::Probe { .. } => {
            run_first(id, cs, t);
        },
        _ => {},
    }
}

/// The cards before, between and after the steps `t`.
pub open spec fn steps_run<D, F>(id: Naming, ds: Seq<Card<D, F>>, t: Seq<Step>) -> bool {
    &&& ds.len() == t.len() + 1
    &&& forall|i: int| 0 <= i < t.len() ==> #[trigger] leaves_at(id, ds, t, i)
}

pub open spec fn leaves_at<D, F>(id: Naming, ds: Seq<Card<D, F>>, t: Seq<Step>, i: int) -> bool {
    leaves(id, ds[i], t[i], ds[i + 1])
}

pub(crate) proof fn steps_run_parts<D, F>(id: Naming, ds: Seq<Card<D, F>>, t: Seq<Step>, k: int)
    requires
        steps_run(id, ds, t),
        0 <= k <= t.len(),
    ensures
        steps_run(id, ds.take(k + 1), t.take(k)),
        steps_run(id, ds.skip(k), t.skip(k)),
        ds.take(k + 1).last() == ds[k],
        ds.take(k + 1)[0] == ds[0],
        ds.skip(k)[0] == ds[k],
        ds.skip(k).last() == ds.last(),
{
    assert forall|i: int| 0 <= i < k implies #[trigger] leaves_at(
        id,
        ds.take(k + 1),
        t.take(k),
        i,
    ) by {
        assert(leaves_at(id, ds, t, i));
    }
    assert forall|i: int| 0 <= i < t.skip(k).len() implies #[trigger] leaves_at(
        id,
        ds.skip(k),
        t.skip(k),
        i,
    ) by {
        assert(leaves_at(id, ds, t, k + i));
    }
}

pub(crate) proof fn first_step_leaves<D, F>(id: Naming, ds: Seq<Card<D, F>>, t: Seq<Step>)
    requires
        steps_run(id, ds, t),
        t.len() > 0,
    ensures
        leaves(id, ds[0], t[0], ds[1]),
        steps_run(id, ds.skip(1), t.skip(1)),
        ds.skip(1)[0] == ds[1],
        ds.skip(1).last() == ds.last(),
{
    steps_run_parts(id, ds, t, 1);
    assert(leaves_at(id, ds, t, 0));
}

/// A run of the calls of some steps shows the card between those steps.
pub(crate) proof fn calls_run_as_steps<D, F>(
    id: Naming,
    cs: Seq<Card<D, F>>,
    t: Seq<Call<D, F>>,
    layout: MediaLayout,
    steps: Seq<Step>,
) -> (ds: Seq<Card<D, F>>)
    requires
        run(id, cs, t),
        explained(t, layout, steps),
    ensures
        steps_run(id, ds, steps),
        ds[0] == cs[0],
        ds.last() == cs.last(),
    decreases steps.len(),
{
    reveal(explained);
    if steps.len() == 0 {
        seq![cs[0]]
    } else {
        let k = choose|k: int|
            0 <= k <= t.len() && explained(#[trigger] t.take(k), layout, steps.drop_last())
                && step_made(t.skip(k), layout, steps.last());
        run_parts(id, cs, t, k);
        let es = calls_run_as_steps(id, cs.take(k + 1), t.take(k), layout, steps.drop_last());
        steps_leave_the_card(id, cs.skip(k), t.skip(k), layout, steps.last());
        let ds = es.push(cs.last());
        assert forall|i: int| 0 <= i < steps.len() implies #[trigger] leaves_at(
            id,
            ds,
            steps,
            i,
        ) by {
            if i < steps.len() - 1 {
                assert(leaves_at(id, es, steps.drop_last(), i));
            }
        }
        ds
    }
}

proof fn still_holds<D, F>(
    c: Card<D, F>,
    d: Card<D, F>,
    changed: Place,
    place: Place,
    old: Seq<u8>,
)
    requires
        same_elsewhere(c, d, changed),
        changed != place,
        holds_file(c, place, old),
    ensures
        holds_file(d, place, old),
{
    assert(c.entries.remove(changed).contains_key(place));
    assert(c.entries.remove(changed)[place] == d.entries.remove(changed)[place]);
}

/// Removing one entry leaves what another holds.
proof fn removal_spares<D, F>(
    id: Naming,
    c: Card<D, F>,
    step: Step,
    d: Card<D, F>,
    path: Seq<char>,
    place: Place,
    old: Seq<u8>,
)
    requires
        leaves(id, c, step, d),
        removes(step, path),
        place_of(id, path) != place,
        holds_file(c, place, old),
    ensures
        holds_file(d, place, old),
{
    let changed = place_of(id, path);
    assert(c.entries.remove(changed).remove(changed) =~= c.entries.remove(changed));
    still_holds(c, d, changed, place, old);
}

/// Where a save of `path` stages files under `suffix`: new contents first, old ones second.
pub open spec fn staging_places(id: Naming, path: Seq<char>, suffix: u16) -> (Place, Place) {
    (
        place_of(id, temporary_path(parent_of(path), suffix)),
        place_of(id, backup_path(parent_of(path), suffix)),
    )
}

/// Neither staging place is taken.
pub open spec fn suffix_free<D, F>(
    id: Naming,
    c: Card<D, F>,
    path: Seq<char>,
    suffix: u16,
) -> bool {
    let (temporary, backup) = staging_places(id, path, suffix);
    !c.entries.contains_key(temporary) && !c.entries.contains_key(backup)
}

/// The suffix under which a save of `path` stages its files: the first that is free.
pub open spec fn first_free<D, F>(
    id: Naming,
    c: Card<D, F>,
    path: Seq<char>,
    suffix: u16,
) -> bool {
    &&& suffix_free(id, c, path, suffix)
    &&& forall|earlier: u16| earlier < suffix ==> !#[trigger] suffix_free(id, c, path, earlier)
}

/// A save to `path` would not stage its new contents under the name of the document itself.
pub open spec fn stages_elsewhere<D, F>(id: Naming, c: Card<D, F>, path: Seq<char>) -> bool {
    forall|suffix: u16| #[trigger]
        first_free(id, c, path, suffix) ==> staging_places(id, path, suffix).0 != place_of(
            id,
            path,
        )
}

proof fn choosing_names_changes_nothing<D, F>(
    id: Naming,
    ds: Seq<Card<D, F>>,
    t: Seq<Step>,
    path: Seq<char>,
    suffix: u16,
    chosen: Result<u16, FsOpError>,
)
    requires
        steps_run(id, ds, t),
        suffix_chosen(t, parent_of(path), suffix, chosen),
    ensures
        ds.last().entries == ds[0].entries,
        chosen matches Ok(s) ==> {
            &&& suffix <= s
            &&& suffix_free(id, ds[0], path, s)
            &&& forall|r: u16|
                suffix <= r < s ==> !#[trigger] suffix_free(id, ds[0], path, r)
        },
    decreases 0x1_0000 - suffix,
{
    first_step_leaves(id, ds, t);
    let found = presence(t[0]->Find_reply);
    if found == Ok::<bool, FsOpError>(true) {
        if suffix < 0xffff {
            choosing_names_changes_nothing(
                id,
                ds.skip(1),
                t.skip(1),
                path,
                (suffix + 1) as u16,
                chosen,
            );
            later_suffixes(id, ds[0], ds[1], path, suffix, chosen);
        }
    } else if found == Ok::<bool, FsOpError>(false) {
        first_step_leaves(id, ds.skip(1), t.skip(1));
        assert(t.skip(1)[0] == t[1]);
        assert(t.skip(1).skip(1) =~= t.skip(2));
        assert(ds.skip(1).skip(1) =~= ds.skip(2));
        assert(ds.skip(1)[1] == ds[2]);
        if presence(t[1]->Find_reply) == Ok::<bool, FsOpError>(true) && suffix < 0xffff {
            choosing_names_changes_nothing(
                id,
                ds.skip(2),
                t.skip(2),
                path,
                (suffix + 1) as u16,
                chosen,
            );
            later_suffixes(id, ds[0], ds[2], path, suffix, chosen);
        }
    }
}

pub(crate) proof fn later_suffixes<D, F>(
    id: Naming,
    c: Card<D, F>,
    d: Card<D, F>,
    path: Seq<char>,
    suffix: u16,
    chosen: Result<u16, FsOpError>,
)
    requires
        c.entries == d.entries,
        suffix < 0xffff,
        !suffix_free(id, c, path, suffix),
        chosen matches Ok(s) ==> {
            &&& suffix + 1 <= s
            &&& suffix_free(id, d, path, s)
            &&& forall|r: u16| suffix + 1 <= r < s ==> !#[trigger] suffix_free(id, d, path, r)
        },
    ensures
        chosen matches Ok(s) ==> {
            &&& suffix <= s
            &&& suffix_free(id, c, path, s)
            &&& forall|r: u16| suffix <= r < s ==> !#[trigger] suffix_free(id, c, path, r)
        },
{
    if let Ok(s) = chosen {
        assert forall|r: u16| suffix <= r < s implies !#[trigger] suffix_free(id, c, path, r) by {
            if r > suffix {
                assert(!suffix_free(id, d, path, r));
            }
        }
    }
}

pub(crate) proof fn assessing_changes_nothing<D, F>(
    id: Naming,
    ds: Seq<Card<D, F>>,
    t: Seq<Step>,
    error: FsOpError,
    verdict: (FsOpError, bool),
)
    requires
        steps_run(id, ds, t),
        assessed(t, error, verdict),
    ensures
        ds.last().entries == ds[0].entries,
{
    if t.len() == 1 {
        first_step_leaves(id, ds, t);
    }
}

/// Failing before the target was touched leaves it as it was.
proof fn failed_staging_leaves_the_target<D, F>(
    id: Naming,
    ds: Seq<Card<D, F>>,
    t: Seq<Step>,
    error: FsOpError,
    leftovers: spec_fn(FsOpError, bool) -> Seq<Seq<char>>,
    outcome: SaveOutcome,
    place: Place,
    old: Seq<u8>,
)
    requires
        steps_run(id, ds, t),
        staging_failed(t, error, leftovers, outcome),
        forall|e: FsOpError, r: bool|
            (#[trigger] leftovers(e, r)).len() <= 2 && forall|i: int|
                0 <= i < leftovers(e, r).len() ==> place_of(id, #[trigger] leftovers(e, r)[i])
                    != place,
        holds_file(ds[0], place, old),
    ensures
        holds_file(ds.last(), place, old),
        outcome matches SaveOutcome::Failed { backup_kept, .. } && backup_kept is None,
{
    let n = probe_steps(error);
    let verdict = choose|verdict: (FsOpError, bool)| #[trigger]
        assessed(t.take(n), error, verdict) && {
            let gone = leftovers(verdict.0, verdict.1);
            let rest = t.skip(n);
            &&& rest.len() == gone.len()
            &&& forall|i: int| 0 <= i < gone.len() ==> removes(#[trigger] rest[i], gone[i])
            &&& outcome == SaveOutcome::Failed { error: verdict.0, backup_kept: None }
        };
    steps_run_parts(id, ds, t, n);
    assessing_changes_nothing(id, ds.take(n + 1), t.take(n), error, verdict);
    let gone = leftovers(verdict.0, verdict.1);
    let rest = t.skip(n);
    let es = ds.skip(n);
    assert(holds_file(es[0], place, old));
    if gone.len() >= 1 {
        first_step_leaves(id, es, rest);
        assert(removes(rest[0], gone[0]));
        removal_spares(id, es[0], rest[0], es[1], gone[0], place, old);
        if gone.len() == 2 {
            first_step_leaves(id, es.skip(1), rest.skip(1));
            assert(rest.skip(1)[0] == rest[1]);
            assert(es.skip(1)[1] == es[2]);
            assert(removes(rest[1], gone[1]));
            removal_spares(id, es[1], rest[1], es[2], gone[1], place, old);
            assert(es.last() == es[2]);
        } else {
            assert(es.last() == es[1]);
        }
    } else {
        assert(es.last() == es[0]);
    }
}

/// A failed save has accounted for the old contents: the backup that it names holds them,
/// and where it names none the document does.
pub open spec fn accounted_for<D, F>(
    id: Naming,
    c: Card<D, F>,
    path: Seq<char>,
    old: Seq<u8>,
    outcome: SaveOutcome,
) -> bool {
    outcome matches SaveOutcome::Failed { backup_kept, .. } ==> match backup_kept {
        Some(backup) => holds_file(c, place_of(id, backup), old),
        None => holds_file(c, place_of(id, path), old),
    }
}

proof fn rolling_back_accounts<D, F>(
    id: Naming,
    ds: Seq<Card<D, F>>,
    t: Seq<Step>,
    plan: SavePlan,
    verdict: (FsOpError, bool),
    outcome: SaveOutcome,
    old: Seq<u8>,
)
    requires
        steps_run(id, ds, t),
        rolled_back(t, plan, verdict, outcome),
        plan.existed,
        place_of(id, plan.path) != place_of(id, plan.temporary),
        place_of(id, plan.path) != place_of(id, plan.backup),
        place_of(id, plan.temporary) != place_of(id, plan.backup),
        holds_file(ds[0], place_of(id, plan.backup), old),
    ensures
        accounted_for(id, ds.last(), plan.path, old, outcome),
{
    let target = place_of(id, plan.path);
    let backup = place_of(id, plan.backup);
    if !verdict.1 {
        assert(ds.last() == ds[0]);
    } else {
        first_step_leaves(id, ds, t);
        still_holds(ds[0], ds[1], target, backup, old);
        if t[0]->Copy_reply is Err {
            assert(ds.last() == ds[1]);
        } else {
            assert(same_contents(ds[1], backup, target));
            let held = choose|held: Seq<u8>| #[trigger]
                holds_file(ds[1], backup, held) && holds_file(ds[1], target, held);
            assert(held == old);
            first_step_leaves(id, ds.skip(1), t.skip(1));
            assert(t.skip(1)[0] == t[1]);
            assert(ds.skip(1)[1] == ds[2]);
            removal_spares(id, ds[1], t[1], ds[2], plan.temporary, target, old);
            removal_spares(id, ds[1], t[1], ds[2], plan.temporary, backup, old);
            first_step_leaves(id, ds.skip(1).skip(1), t.skip(1).skip(1));
            assert(t.skip(1).skip(1)[0] == t[2]);
            assert(ds.skip(1).skip(1)[1] == ds[3]);
            removal_spares(id, ds[2], t[2], ds[3], plan.backup, target, old);
            assert(ds.last() == ds[3]);
        }
    }
}

proof fn failed_target_accounts<D, F>(
    id: Naming,
    ds: Seq<Card<D, F>>,
    t: Seq<Step>,
    plan: SavePlan,
    outcome: SaveOutcome,
    old: Seq<u8>,
)
    requires
        steps_run(id, ds, t),
        target_saved(t, plan, outcome),
        plan.existed,
        place_of(id, plan.path) != place_of(id, plan.temporary),
        place_of(id, plan.path) != place_of(id, plan.backup),
        place_of(id, plan.temporary) != place_of(id, plan.backup),
        holds_file(ds[0], place_of(id, plan.backup), old),
    ensures
        accounted_for(id, ds.last(), plan.path, old, outcome),
{
    first_step_leaves(id, ds, t);
    if let Err(error) = t[0]->Save_reply {
        let u = t.skip(1);
        let es = ds.skip(1);
        let n = probe_steps(error);
        let verdict = choose|verdict: (FsOpError, bool)| #[trigger]
            assessed(u.take(n), error, verdict) && rolled_back(u.skip(n), plan, verdict, outcome);
        still_holds(
            ds[0],
            ds[1],
            place_of(id, plan.path),
            place_of(id, plan.backup),
            old,
        );
        steps_run_parts(id, es, u, n);
        assessing_changes_nothing(id, es.take(n + 1), u.take(n), error, verdict);
        rolling_back_accounts(id, es.skip(n), u.skip(n), plan, verdict, outcome, old);
    }
}

proof fn staged_save_accounts<D, F>(
    id: Naming,
    ds: Seq<Card<D, F>>,
    t: Seq<Step>,
    plan: SavePlan,
    outcome: SaveOutcome,
    old: Seq<u8>,
)
    requires
        steps_run(id, ds, t),
        staged_save(t, plan, outcome),
        plan.existed,
        holds_file(ds[0], place_of(id, plan.path), old),
        !ds[0].entries.contains_key(place_of(id, plan.temporary)),
        !ds[0].entries.contains_key(place_of(id, plan.backup)),
    ensures
        accounted_for(id, ds.last(), plan.path, old, outcome),
{
    let target = place_of(id, plan.path);
    let temporary = place_of(id, plan.temporary);
    let backup = place_of(id, plan.backup);
    first_step_leaves(id, ds, t);
    still_holds(ds[0], ds[1], temporary, target, old);
    match t[0]->Save_reply {
        Err(error) => {
            failed_staging_leaves_the_target(
                id,
                ds.skip(1),
                t.skip(1),
                error,
                after_temporary(plan),
                outcome,
                target,
                old,
            );
        },
        Ok(_) => {
            let u = t.skip(1);
            let es = ds.skip(1);
            first_step_leaves(id, es, u);
            still_holds(es[0], es[1], backup, target, old);
            match u[0]->Copy_reply {
                Err(error) => {
                    failed_staging_leaves_the_target(
                        id,
                        es.skip(1),
                        u.skip(1),
                        error,
                        after_backup(plan),
                        outcome,
                        target,
                        old,
                    );
                },
                Ok(_) => {
                    assert(temporary != backup);
                    assert(same_contents(es[1], target, backup));
                    let held = choose|held: Seq<u8>| #[trigger]
                        holds_file(es[1], target, held) && holds_file(es[1], backup, held);
                    assert(held == old);
                    failed_target_accounts(id, es.skip(1), u.skip(1), plan, outcome, old);
                },
            }
        },
    }
}

proof fn saves_account<D, F>(
    id: Naming,
    ds: Seq<Card<D, F>>,
    t: Seq<Step>,
    path: Seq<char>,
    contents: Seq<u8>,
    outcome: SaveOutcome,
    old: Seq<u8>,
)
    requires
        steps_run(id, ds, t),
        document_saved(t, path, contents, outcome),
        holds_file(ds[0], place_of(id, path), old),
    ensures
        accounted_for(id, ds.last(), path, old, outcome),
{
    first_step_leaves(id, ds, t);
    match save_target(t[0]->Find_reply) {
        Err(_) => {
            assert(ds.last() == ds[1]);
        },
        Ok(existed) => {
            assert(existed);
            let u = t.skip(1);
            let es = ds.skip(1);
            let (k, chosen): (int, Result<u16, FsOpError>) = choose|
                k: int,
                chosen: Result<u16, FsOpError>,
            |
                {
                    &&& 0 <= k <= u.len()
                    &&& #[trigger] suffix_chosen(u.take(k), parent_of(path), 0, chosen)
                    &&& match chosen {
                        Err(error) => k == u.len() && outcome == SaveOutcome::Failed {
                            error,
                            backup_kept: None,
                        },
                        Ok(suffix) => staged_save(
                            u.skip(k),
                            plan_for(path, contents, suffix, existed),
                            outcome,
                        ),
                    }
                };
            steps_run_parts(id, es, u, k);
            choosing_names_changes_nothing(
                id,
                es.take(k + 1),
                u.take(k),
                path,
                0,
                chosen,
            );
            match chosen {
                Err(_) => {
                    assert(es.last() == es[k]);
                },
                Ok(suffix) => {
                    let plan = plan_for(path, contents, suffix, existed);
                    staged_save_accounts(id, es.skip(k), u.skip(k), plan, outcome, old);
                },
            }
        },
    }
}

/// A save that fails never loses the old contents: where it names a backup, the backup
/// holds exactly what the document held, and where it names none, the document itself still
/// holds it. This is so even on a card that stores wrongly what is written, and whichever
/// calls fail.
pub proof fn failed_saves_keep_the_old_contents<M: VolumeAccess>(
    id: Naming,
    cs: Seq<Card<M::Dir, M::File>>,
    before: Session<M>,
    after: Session<M>,
    path: Seq<char>,
    contents: Seq<u8>,
    outcome: SaveOutcome,
    old: Seq<u8>,
)
    requires
        after.follows(&before),
        document_saved(since(before.steps(), after.steps()), path, contents, outcome),
        run(id, cs, since(before.calls(), after.calls())),
        holds_file(cs[0], place_of(id, path), old),
    ensures
        accounted_for(id, cs.last(), path, old, outcome),
{
    let steps = since(before.steps(), after.steps());
    let calls = since(before.calls(), after.calls());
    reveal(Session::accounts_since);
    let ds = calls_run_as_steps(id, cs, calls, after.layout(), steps);
    saves_account(id, ds, steps, path, contents, outcome, old);
}

proof fn saved_target_holds<D, F>(
    id: Naming,
    ds: Seq<Card<D, F>>,
    t: Seq<Step>,
    plan: SavePlan,
)
    requires
        steps_run(id, ds, t),
        target_saved(t, plan, SaveOutcome::Saved),
        place_of(id, plan.path) != place_of(id, plan.temporary),
        plan.existed ==> place_of(id, plan.path) != place_of(id, plan.backup),
    ensures
        holds_file(ds.last(), place_of(id, plan.path), plan.contents),
{
    let target = place_of(id, plan.path);
    first_step_leaves(id, ds, t);
    if let Err(error) = t[0]->Save_reply {
        let u = t.skip(1);
        let n = probe_steps(error);
        let verdict = choose|verdict: (FsOpError, bool)| #[trigger]
            assessed(u.take(n), error, verdict) && rolled_back(
                u.skip(n),
                plan,
                verdict,
                SaveOutcome::Saved,
            );
        assert(!rolled_back(u.skip(n), plan, verdict, SaveOutcome::Saved));
    } else {
        first_step_leaves(id, ds.skip(1), t.skip(1));
        assert(t.skip(1)[0] == t[1]);
        assert(ds.skip(1)[1] == ds[2]);
        removal_spares(id, ds[1], t[1], ds[2], plan.temporary, target, plan.contents);
        if plan.existed {
            first_step_leaves(id, ds.skip(1).skip(1), t.skip(1).skip(1));
            assert(t.skip(1).skip(1)[0] == t[2]);
            assert(ds.skip(1).skip(1)[1] == ds[3]);
            removal_spares(id, ds[2], t[2], ds[3], plan.backup, target, plan.contents);
            assert(ds.last() == ds[3]);
        } else {
            assert(ds.last() == ds[2]);
        }
    }
}

/// The same suffixes are free on cards that hold the same.
pub(crate) proof fn same_suffixes_free<D, F>(
    id: Naming,
    c: Card<D, F>,
    d: Card<D, F>,
    path: Seq<char>,
)
    requires
        c.entries == d.entries,
    ensures
        forall|suffix: u16| #[trigger]
            suffix_free(id, c, path, suffix) == suffix_free(id, d, path, suffix),
        forall|suffix: u16| #[trigger]
            first_free(id, c, path, suffix) == first_free(id, d, path, suffix),
{
    assert forall|suffix: u16| #[trigger] suffix_free(id, c, path, suffix) == suffix_free(
        id,
        d,
        path,
        suffix,
    ) by {}
    assert forall|suffix: u16| #[trigger] first_free(id, c, path, suffix) == first_free(
        id,
        d,
        path,
        suffix,
    ) by {
        assert forall|earlier: u16| #[trigger] suffix_free(id, d, path, earlier) == suffix_free(
            id,
            c,
            path,
            earlier,
        ) by {}
    }
}

proof fn saved_documents_hold<D, F>(
    id: Naming,
    ds: Seq<Card<D, F>>,
    t: Seq<Step>,
    path: Seq<char>,
    contents: Seq<u8>,
)
    requires
        steps_run(id, ds, t),
        document_saved(t, path, contents, SaveOutcome::Saved),
        ds[0].entries.contains_key(place_of(id, path)) || stages_elsewhere(id, ds[0], path),
    ensures
        holds_file(ds.last(), place_of(id, path), contents),
{
    first_step_leaves(id, ds, t);
    let existed = save_target(t[0]->Find_reply)->Ok_0;
    let u = t.skip(1);
    let es = ds.skip(1);
    let (k, chosen): (int, Result<u16, FsOpError>) = choose|k: int, chosen: Result<u16, FsOpError>|
        {
            &&& 0 <= k <= u.len()
            &&& #[trigger] suffix_chosen(u.take(k), parent_of(path), 0, chosen)
            &&& match chosen {
                Err(error) => k == u.len() && SaveOutcome::Saved == SaveOutcome::Failed {
                    error,
                    backup_kept: None,
                },
                Ok(suffix) => staged_save(
                    u.skip(k),
                    plan_for(path, contents, suffix, existed),
                    SaveOutcome::Saved,
                ),
            }
        };
    steps_run_parts(id, es, u, k);
    choosing_names_changes_nothing(id, es.take(k + 1), u.take(k), path, 0, chosen);
    let suffix = chosen->Ok_0;
    same_suffixes_free(id, ds[0], es[0], path);
    assert(first_free(id, ds[0], path, suffix));
    let plan = plan_for(path, contents, suffix, existed);
    assert(staging_places(id, path, suffix) == (
        place_of(id, plan.temporary),
        place_of(id, plan.backup),
    ));
    let v = u.skip(k);
    let fs = es.skip(k);
    first_step_leaves(id, fs, v);
    if existed {
        first_step_leaves(id, fs.skip(1), v.skip(1));
        saved_target_holds(id, fs.skip(1).skip(1), v.skip(1).skip(1), plan);
    } else {
        saved_target_holds(id, fs.skip(1), v.skip(1), plan);
    }
}

/// A document that was reported as saved is on the card, byte for byte, even on a card that
/// stores wrongly some of what is written. A new document must not bear the very name under
/// which its contents would be staged.
pub proof fn reported_saves_are_on_the_card<M: VolumeAccess>(
    id: Naming,
    cs: Seq<Card<M::Dir, M::File>>,
    before: Session<M>,
    after: Session<M>,
    path: Seq<char>,
    contents: Seq<u8>,
)
    requires
        after.follows(&before),
        document_saved(since(before.steps(), after.steps()), path, contents, SaveOutcome::Saved),
        run(id, cs, since(before.calls(), after.calls())),
        cs[0].entries.contains_key(place_of(id, path)) || stages_elsewhere(id, cs[0], path),
    ensures
        holds_file(cs.last(), place_of(id, path), contents),
{
    let steps = since(before.steps(), after.steps());
    let calls = since(before.calls(), after.calls());
    reveal(Session::accounts_since);
    let ds = calls_run_as_steps(id, cs, calls, after.layout(), steps);
    saved_documents_hold(id, ds, steps, path, contents);
}

} // verus!
