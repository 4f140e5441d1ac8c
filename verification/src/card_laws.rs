//! What the operations on a card promise as a whole, whatever the card replies.
use vstd::prelude::*;

use crate::card::{space_answered, staled, FreeSpaceState};
use crate::errors::{FsOpError, VolumeError};
use crate::moving::{
    checked_tree_deleted, delete_confirmed, entry_moved, file_moved, folder_deleted, folder_moved,
    source_file_removed, source_tree_removed, tree_delete_report,
};
use crate::names::{joined_path, parent_of, NameFault};
use crate::saving::{
    after_backup, after_temporary, backup_path, document_saved, plan_for, presence, removes,
    rolled_back, save_target, staged_save, staging_failed, suffix_chosen, target_failed,
    temporary_path, SaveOutcome, SavePlan,
};
use crate::session::{ChildEntry, Step};
use crate::tree::{
    assessed, assessment, children_checked, children_found, children_listed, cleanup_report,
    mark_end, mark_removal_end, file_copied_safely,
    folders_deleted, probe_steps, subtree_checked, tree_checked, tree_deleted,
    MAX_DELETE_ROUNDS, MAX_TREE_DEPTH,
};
use crate::volume::{Call, ScanRuleView};
use crate::walk::confirmed;

verus! {

/// The step may change the entry at `path`.
pub open spec fn touches(step: Step, path: Seq<char>) -> bool {
    match step {
        Step::Save { path: p, .. } => p == path,
        Step::Copy { to, .. } => to == path,
        Step::Delete { path: p, .. } => p == path,
        Step::DeleteFiles { .. } => true,
        Step::CreateFile { path: p, .. } => p == path,
        Step::CreateFolder { path: p, .. } => p == path,
        Step::MakeFolder { path: p, .. } => p == path,
        _ => false,
    }
}

/// The step only looks at the card.
pub open spec fn only_looks(step: Step) -> bool {
    step is Find || step is Scan || step is Read || step is Probe || step is Measure
}

/// The new contents were staged and verified.
pub open spec fn staged(step: Step, plan: SavePlan) -> bool {
    step matches Step::Save { path, contents, reply } && path == plan.temporary && contents
        == plan.contents && reply is Ok
}

/// The old contents were copied to the backup and the copy verified.
pub open spec fn backed_up(step: Step, plan: SavePlan) -> bool {
    step matches Step::Copy { from, to, reply, .. } && from == plan.path && to == plan.backup
        && reply is Ok
}

/// The old contents were copied back from the backup and the copy verified.
pub open spec fn restored(step: Step, plan: SavePlan) -> bool {
    step matches Step::Copy { from, to, reply, .. } && from == plan.backup && to == plan.path
        && reply is Ok
}

/// Everything that protects the old and the new contents has been done before
/// step `j`.
pub open spec fn protected(t: Seq<Step>, plan: SavePlan, j: int) -> bool {
    &&& exists|i: int| 0 <= i < j && staged(#[trigger] t[i], plan)
    &&& plan.existed ==> exists|i: int| 0 <= i < j && backed_up(#[trigger] t[i], plan)
}

proof fn assessing_only_looks(t: Seq<Step>, error: FsOpError, verdict: (FsOpError, bool))
    requires
        assessed(t, error, verdict),
    ensures
        t.len() == probe_steps(error),
        forall|i: int| 0 <= i < t.len() ==> only_looks(#[trigger] t[i]),
{
}

proof fn choosing_names_only_looks(
    t: Seq<Step>,
    directory: Seq<char>,
    suffix: u16,
    chosen: Result<u16, FsOpError>,
)
    requires
        suffix_chosen(t, directory, suffix, chosen),
    ensures
        forall|i: int| 0 <= i < t.len() ==> only_looks(#[trigger] t[i]),
    decreases 0x1_0000 - suffix,
{
    let found = t[0]->Find_reply;
    if presence(found) == Ok::<bool, FsOpError>(true) {
        if suffix < 0xffff {
            choosing_names_only_looks(t.skip(1), directory, (suffix + 1) as u16, chosen);
        }
        assert forall|i: int| 0 <= i < t.len() implies only_looks(#[trigger] t[i]) by {
            if i >= 1 {
                assert(t[i] == t.skip(1)[i - 1]);
            }
        }
    } else if presence(found) == Ok::<bool, FsOpError>(false) {
        let second = t[1]->Find_reply;
        if presence(second) == Ok::<bool, FsOpError>(true) {
            if suffix < 0xffff {
                choosing_names_only_looks(t.skip(2), directory, (suffix + 1) as u16, chosen);
            }
            assert forall|i: int| 0 <= i < t.len() implies only_looks(#[trigger] t[i]) by {
                if i >= 2 {
                    assert(t[i] == t.skip(2)[i - 2]);
                }
            }
        }
    }
}

proof fn failed_staging_spares_the_target(
    t: Seq<Step>,
    error: FsOpError,
    leftovers: spec_fn(FsOpError, bool) -> Seq<Seq<char>>,
    outcome: SaveOutcome,
    path: Seq<char>,
)
    requires
        staging_failed(t, error, leftovers, outcome),
        forall|e: FsOpError, r: bool, i: int|
            0 <= i < leftovers(e, r).len() ==> #[trigger] leftovers(e, r)[i] != path,
    ensures
        forall|j: int| 0 <= j < t.len() ==> !touches(#[trigger] t[j], path),
        outcome is Failed,
{
    let n = probe_steps(error);
    let verdict = choose|verdict: (FsOpError, bool)| #[trigger]
        assessed(t.take(n), error, verdict) && {
            let gone = leftovers(verdict.0, verdict.1);
            let rest = t.skip(n);
            &&& rest.len() == gone.len()
            &&& forall|i: int| 0 <= i < gone.len() ==> removes(#[trigger] rest[i], gone[i])
            &&& outcome == SaveOutcome::Failed { error: verdict.0, backup_kept: None }
        };
    assessing_only_looks(t.take(n), error, verdict);
    let gone = leftovers(verdict.0, verdict.1);
    assert forall|j: int| 0 <= j < t.len() implies !touches(#[trigger] t[j], path) by {
        if j < n {
            assert(t[j] == t.take(n)[j]);
        } else {
            assert(t[j] == t.skip(n)[j - n]);
            assert(removes(t.skip(n)[j - n], gone[j - n]));
        }
    }
}

/// A save touches its target only after the new contents were verified under the
/// temporary name, and the old ones, if there are any, under the backup name.
proof fn staged_save_protects(t: Seq<Step>, plan: SavePlan, outcome: SaveOutcome)
    requires
        staged_save(t, plan, outcome),
        plan.path != plan.temporary,
        plan.path != plan.backup,
    ensures
        forall|j: int| 0 <= j < t.len() && touches(#[trigger] t[j], plan.path) ==> protected(t, plan, j),
{
    let reply = t[0]->Save_reply;
    match reply {
        Err(error) => {
            failed_staging_spares_the_target(
                t.skip(1),
                error,
                after_temporary(plan),
                outcome,
                plan.path,
            );
            assert forall|j: int| 0 <= j < t.len() && touches(#[trigger] t[j], plan.path) implies protected(
                t,
                plan,
                j,
            ) by {
                if j >= 1 {
                    assert(t[j] == t.skip(1)[j - 1]);
                }
            }
        },
        Ok(_) => {
            assert(staged(t[0], plan));
            if plan.existed {
                let u = t.skip(1);
                assert(u[0] == t[1]);
                let copied = u[0]->Copy_reply;
                match copied {
                    Err(error) => {
                        failed_staging_spares_the_target(
                            u.skip(1),
                            error,
                            after_backup(plan),
                            outcome,
                            plan.path,
                        );
                        assert forall|j: int|
                            0 <= j < t.len() && touches(#[trigger] t[j], plan.path) implies protected(
                            t,
                            plan,
                            j,
                        ) by {
                            if j >= 2 {
                                assert(t[j] == u.skip(1)[j - 2]);
                            }
                        }
                    },
                    Ok(_) => {
                        assert(backed_up(t[1], plan));
                    },
                }
            }
        },
    }
}

/// The path is none of the names under which a save in its folder stages files.
pub open spec fn is_no_staging_path(path: Seq<char>) -> bool {
    forall|suffix: u16|
        path != #[trigger] temporary_path(parent_of(path), suffix) && path != backup_path(
            parent_of(path),
            suffix,
        )
}

/// A save touches its target only after the new contents were verified under a
/// temporary name, and the old ones, if there are any, under a backup name.
pub proof fn save_protects_both_contents(
    t: Seq<Step>,
    path: Seq<char>,
    contents: Seq<u8>,
    outcome: SaveOutcome,
)
    requires
        document_saved(t, path, contents, outcome),
        is_no_staging_path(path),
    ensures
        forall|j: int|
            0 <= j < t.len() && touches(#[trigger] t[j], path) ==> exists|suffix: u16, existed: bool|
                existed == (t[0]->Find_reply is Ok) && protected(
                    t,
                    #[trigger] plan_for(path, contents, suffix, existed),
                    j,
                ),
{
    let found = t[0]->Find_reply;
    if let Ok(existed) = save_target(found) {
        let u = t.skip(1);
        let (k, chosen): (int, Result<u16, FsOpError>) = choose|
            k: int,
            chosen: Result<u16, FsOpError>,
        |
            {
                &&& 0 <= k <= u.len()
                &&& #[trigger] suffix_chosen(u.take(k), parent_of(path), 0, chosen)
                &&& match chosen {
                    Err(error) => k == u.len() && outcome == SaveOutcome::Failed {
                        error,
                        backup_kept: None,
                    },
                    Ok(suffix) => staged_save(
                        u.skip(k),
                        plan_for(path, contents, suffix, existed),
                        outcome,
                    ),
                }
            };
        choosing_names_only_looks(u.take(k), parent_of(path), 0, chosen);
        assert forall|j: int| 0 <= j < t.len() && touches(#[trigger] t[j], path) implies exists|
            suffix: u16,
            existed: bool,
        |
            existed == (t[0]->Find_reply is Ok) && protected(
                t,
                #[trigger] plan_for(path, contents, suffix, existed),
                j,
            ) by {
            if 1 <= j <= k {
                assert(t[j] == u.take(k)[j - 1]);
            }
            assert(j > k);
            if let Ok(suffix) = chosen {
                let plan = plan_for(path, contents, suffix, existed);
                let v = u.skip(k);
                assert(temporary_path(parent_of(path), suffix) != path);
                staged_save_protects(v, plan, outcome);
                assert(t[j] == v[j - k - 1]);
                assert(protected(v, plan, j - k - 1));
                let i = choose|i: int| 0 <= i < j - k - 1 && staged(#[trigger] v[i], plan);
                assert(t[i + k + 1] == v[i]);
                if existed {
                    let i = choose|i: int| 0 <= i < j - k - 1 && backed_up(#[trigger] v[i], plan);
                    assert(t[i + k + 1] == v[i]);
                }
                assert(protected(t, plan, j));
            }
        }
    }
}

proof fn failed_rewrite_accounts_for_the_backup(
    t: Seq<Step>,
    plan: SavePlan,
    error: FsOpError,
    outcome: SaveOutcome,
)
    requires
        target_failed(t, plan, error, outcome),
        plan.existed,
    ensures
        outcome matches SaveOutcome::Failed { backup_kept, .. } && (backup_kept == Some(plan.backup)
            || exists|i: int| 0 <= i < t.len() && restored(#[trigger] t[i], plan)),
{
    let n = probe_steps(error);
    let verdict = choose|verdict: (FsOpError, bool)| #[trigger]
        assessed(t.take(n), error, verdict) && rolled_back(t.skip(n), plan, verdict, outcome);
    let u = t.skip(n);
    if verdict.1 && u.len() == 3 {
        assert(u[0] == t[n]);
        assert(restored(t[n], plan));
    }
}

proof fn failed_staged_save_accounts_for_the_old_contents(
    t: Seq<Step>,
    plan: SavePlan,
    outcome: SaveOutcome,
)
    requires
        staged_save(t, plan, outcome),
        plan.existed,
        plan.path != plan.temporary,
        plan.path != plan.backup,
        outcome is Failed,
        exists|j: int| 0 <= j < t.len() && touches(#[trigger] t[j], plan.path),
    ensures
        outcome matches SaveOutcome::Failed { backup_kept, .. } && (backup_kept == Some(plan.backup)
            || exists|i: int| 0 <= i < t.len() && restored(#[trigger] t[i], plan)),
{
    staged_save_protects(t, plan, outcome);
    let j = choose|j: int| 0 <= j < t.len() && touches(#[trigger] t[j], plan.path);
    assert(protected(t, plan, j));
    match t[0]->Save_reply {
        Err(error) => {
            failed_staging_spares_the_target(
                t.skip(1),
                error,
                after_temporary(plan),
                outcome,
                plan.path,
            );
            assert(j >= 1);
            assert(t[j] == t.skip(1)[j - 1]);
        },
        Ok(_) => {
            let u = t.skip(1);
            match u[0]->Copy_reply {
                Err(error) => {
                    failed_staging_spares_the_target(
                        u.skip(1),
                        error,
                        after_backup(plan),
                        outcome,
                        plan.path,
                    );
                    assert(j >= 2);
                    assert(t[j] == u.skip(1)[j - 2]);
                },
                Ok(_) => {
                    let v = u.skip(1);
                    match v[0]->Save_reply {
                        Ok(_) => {},
                        Err(error) => {
                            failed_rewrite_accounts_for_the_backup(
                                v.skip(1),
                                plan,
                                error,
                                outcome,
                            );
                            if outcome->backup_kept != Some(plan.backup) {
                                let w = v.skip(1);
                                let i = choose|i: int|
                                    0 <= i < w.len() && restored(#[trigger] w[i], plan);
                                assert(t[i + 3] == w[i]);
                            }
                        },
                    }
                },
            }
        },
    }
}

/// After a failure of the device a save changes nothing more: the files it has
/// staged stay as they are.
pub proof fn device_failures_end_a_save(
    t: Seq<Step>,
    plan: SavePlan,
    error: FsOpError,
    outcome: SaveOutcome,
)
    requires
        error.says_device_failed(),
        staging_failed(t, error, after_temporary(plan), outcome) || staging_failed(
            t,
            error,
            after_backup(plan),
            outcome,
        ) || target_failed(t, plan, error, outcome),
    ensures
        t.len() == 0,
{
    assert(probe_steps(error) == 0);
    assert(assessment(error, true) == (error, false));
}

/// The card has contradicted itself: it has found the entry at `path` and, asked again
/// before anything was changed, has not.
pub open spec fn denies(t: Seq<Step>, path: Seq<char>) -> bool {
    exists|i: int|
        {
            &&& 1 <= i < t.len()
            &&& #[trigger] t[i] matches Step::Find { path: p, reply } && p == path && (
            reply matches Err(error) && error.says_not_found())
        }
}

/// The names under which a save stages files were looked up and not found.
proof fn chosen_names_were_absent(
    t: Seq<Step>,
    directory: Seq<char>,
    suffix: u16,
    chosen: u16,
)
    requires
        suffix_chosen(t, directory, suffix, Ok(chosen)),
    ensures
        exists|i: int|
            0 <= i < t.len() && not_found_at(#[trigger] t[i], temporary_path(directory, chosen)),
        exists|i: int|
            0 <= i < t.len() && not_found_at(#[trigger] t[i], backup_path(directory, chosen)),
    decreases 0x1_0000 - suffix,
{
    let found = t[0]->Find_reply;
    if presence(found) == Ok::<bool, FsOpError>(true) {
        assert(suffix < 0xffff);
        chosen_names_were_absent(t.skip(1), directory, (suffix + 1) as u16, chosen);
        shift_absences(t, 1, directory, chosen);
    } else {
        let second = t[1]->Find_reply;
        if presence(second) == Ok::<bool, FsOpError>(true) {
            assert(suffix < 0xffff);
            chosen_names_were_absent(t.skip(2), directory, (suffix + 1) as u16, chosen);
            shift_absences(t, 2, directory, chosen);
        } else {
            assert(not_found_at(t[0], temporary_path(directory, suffix)));
            assert(not_found_at(t[1], backup_path(directory, suffix)));
        }
    }
}

/// The step has looked for `path` and not found it.
pub open spec fn not_found_at(step: Step, path: Seq<char>) -> bool {
    step matches Step::Find { path: p, reply } && p == path && (reply matches Err(error)
        && error.says_not_found())
}

proof fn shift_absences(t: Seq<Step>, k: int, directory: Seq<char>, chosen: u16)
    requires
        0 <= k <= t.len(),
        exists|i: int|
            0 <= i < t.skip(k).len() && not_found_at(
                #[trigger] t.skip(k)[i],
                temporary_path(directory, chosen),
            ),
        exists|i: int|
            0 <= i < t.skip(k).len() && not_found_at(
                #[trigger] t.skip(k)[i],
                backup_path(directory, chosen),
            ),
    ensures
        exists|i: int|
            0 <= i < t.len() && not_found_at(#[trigger] t[i], temporary_path(directory, chosen)),
        exists|i: int|
            0 <= i < t.len() && not_found_at(#[trigger] t[i], backup_path(directory, chosen)),
{
    let u = t.skip(k);
    let i = choose|i: int|
        0 <= i < u.len() && not_found_at(#[trigger] u[i], temporary_path(directory, chosen));
    assert(t[k + i] == u[i]);
    let j = choose|i: int|
        0 <= i < u.len() && not_found_at(#[trigger] u[i], backup_path(directory, chosen));
    assert(t[k + j] == u[j]);
}

/// A save that fails after it began to rewrite an existing document either has put
/// the old contents back and verified them, or names the backup that holds them. The one
/// exception is a card that contradicts itself: it finds the document, and then does not
/// find it as it is asked for a free staging name.
pub proof fn failed_save_accounts_for_the_old_contents(
    t: Seq<Step>,
    path: Seq<char>,
    contents: Seq<u8>,
    outcome: SaveOutcome,
)
    requires
        document_saved(t, path, contents, outcome),
        t[0]->Find_reply is Ok,
        outcome is Failed,
        exists|j: int| 0 <= j < t.len() && touches(#[trigger] t[j], path),
    ensures
        denies(t, path) || exists|suffix: u16|
            {
                let plan = #[trigger] plan_for(path, contents, suffix, true);
                outcome->backup_kept == Some(plan.backup) || exists|i: int|
                    0 <= i < t.len() && restored(#[trigger] t[i], plan)
            },
{
    let j = choose|j: int| 0 <= j < t.len() && touches(#[trigger] t[j], path);
    let existed = save_target(t[0]->Find_reply)->Ok_0;
    let u = t.skip(1);
    let (k, chosen): (int, Result<u16, FsOpError>) = choose|k: int, chosen: Result<u16, FsOpError>|
        {
            &&& 0 <= k <= u.len()
            &&& #[trigger] suffix_chosen(u.take(k), parent_of(path), 0, chosen)
            &&& match chosen {
                Err(error) => k == u.len() && outcome == SaveOutcome::Failed {
                    error,
                    backup_kept: None,
                },
                Ok(suffix) => staged_save(
                    u.skip(k),
                    plan_for(path, contents, suffix, existed),
                    outcome,
                ),
            }
        };
    choosing_names_only_looks(u.take(k), parent_of(path), 0, chosen);
    assert(j > k) by {
        if 1 <= j <= k {
            assert(t[j] == u.take(k)[j - 1]);
        }
    }
    let suffix = chosen->Ok_0;
    let plan = plan_for(path, contents, suffix, true);
    let v = u.skip(k);
    chosen_names_were_absent(u.take(k), parent_of(path), 0, suffix);
    if plan.temporary == path {
        let i = choose|i: int| 0 <= i < k && not_found_at(#[trigger] u.take(k)[i], plan.temporary);
        assert(t[i + 1] == u.take(k)[i]);
    } else if plan.backup == path {
        let i = choose|i: int| 0 <= i < k && not_found_at(#[trigger] u.take(k)[i], plan.backup);
        assert(t[i + 1] == u.take(k)[i]);
    } else {
        assert(t[j] == v[j - k - 1]);
        assert(touches(v[j - k - 1], plan.path));
        failed_staged_save_accounts_for_the_old_contents(v, plan, outcome);
        if outcome->backup_kept != Some(plan.backup) {
            let i = choose|i: int| 0 <= i < v.len() && restored(#[trigger] v[i], plan);
            assert(t[i + k + 1] == v[i]);
        }
    }
}

/// The step was answered without any failure: an entry is found or is not there, and
/// whatever was to be done is done.
pub open spec fn answered_well(step: Step) -> bool {
    match step {
        Step::Find { reply, .. } => presence(reply) is Ok,
        Step::Save { reply, .. } => reply is Ok,
        Step::Copy { reply, .. } => reply is Ok,
        Step::Delete { reply, .. } => reply is Ok,
        _ => true,
    }
}

/// A suffix is found unless all are taken.
proof fn suffixes_run_out_only_in_the_end(
    t: Seq<Step>,
    directory: Seq<char>,
    suffix: u16,
    chosen: Result<u16, FsOpError>,
)
    requires
        suffix_chosen(t, directory, suffix, chosen),
        forall|i: int| 0 <= i < t.len() ==> answered_well(#[trigger] t[i]),
    ensures
        chosen matches Err(error) ==> error == FsOpError::Fs(VolumeError::DiskFull) && t.len()
            >= 0x1_0000 - suffix,
    decreases 0x1_0000 - suffix,
{
    assert(answered_well(t[0]));
    let found = t[0]->Find_reply;
    if presence(found) == Ok::<bool, FsOpError>(true) {
        if suffix < 0xffff {
            assert forall|i: int| 0 <= i < t.skip(1).len() implies answered_well(
                #[trigger] t.skip(1)[i],
            ) by {
                assert(t.skip(1)[i] == t[i + 1]);
            }
            suffixes_run_out_only_in_the_end(t.skip(1), directory, (suffix + 1) as u16, chosen);
        }
    } else {
        assert(answered_well(t[1]));
        let second = t[1]->Find_reply;
        if presence(second) == Ok::<bool, FsOpError>(true) && suffix < 0xffff {
            assert forall|i: int| 0 <= i < t.skip(2).len() implies answered_well(
                #[trigger] t.skip(2)[i],
            ) by {
                assert(t.skip(2)[i] == t[i + 2]);
            }
            suffixes_run_out_only_in_the_end(t.skip(2), directory, (suffix + 1) as u16, chosen);
        }
    }
}

/// A save whose steps are all answered well, and whose target may be replaced, succeeds
/// and ends by removing its own staging files; unless every staging name is taken, which
/// takes a look at all 65,536 of them.
pub proof fn well_answered_saves_succeed(
    t: Seq<Step>,
    path: Seq<char>,
    contents: Seq<u8>,
    outcome: SaveOutcome,
)
    requires
        document_saved(t, path, contents, outcome),
        save_target(t[0]->Find_reply) is Ok,
        t.len() <= 0x1_0000,
        forall|i: int| 0 <= i < t.len() ==> answered_well(#[trigger] t[i]),
    ensures
        outcome is Saved,
        exists|suffix: u16|
            {
                let plan = #[trigger] plan_for(path, contents, suffix, t[0]->Find_reply is Ok);
                if plan.existed {
                    &&& t.len() >= 2
                    &&& removed(t[t.len() - 2], plan.temporary)
                    &&& removed(t.last(), plan.backup)
                } else {
                    removed(t.last(), plan.temporary)
                }
            },
{
    let existed = save_target(t[0]->Find_reply)->Ok_0;
    assert(existed == (t[0]->Find_reply is Ok));
    let u = t.skip(1);
    let (k, chosen): (int, Result<u16, FsOpError>) = choose|k: int, chosen: Result<u16, FsOpError>|
        {
            &&& 0 <= k <= u.len()
            &&& #[trigger] suffix_chosen(u.take(k), parent_of(path), 0, chosen)
            &&& match chosen {
                Err(error) => k == u.len() && outcome == SaveOutcome::Failed {
                    error,
                    backup_kept: None,
                },
                Ok(suffix) => staged_save(
                    u.skip(k),
                    plan_for(path, contents, suffix, existed),
                    outcome,
                ),
            }
        };
    assert forall|i: int| 0 <= i < u.take(k).len() implies answered_well(#[trigger] u.take(k)[i]) by {
        assert(u.take(k)[i] == t[i + 1]);
    }
    suffixes_run_out_only_in_the_end(u.take(k), parent_of(path), 0, chosen);
    let suffix = chosen->Ok_0;
    let plan = plan_for(path, contents, suffix, existed);
    let v = u.skip(k);
    assert(v[0] == t[k + 1]);
    assert(answered_well(t[k + 1]));
    let w = v.skip(1);
    assert(w[0] == t[k + 2]);
    assert(answered_well(t[k + 2]));
    if existed {
        let x = w.skip(1);
        assert(x[0] == t[k + 3]);
        assert(answered_well(t[k + 3]));
        assert(x.len() == 3);
        assert(x[1] == t[k + 4] && x[2] == t[k + 5]);
        assert(answered_well(t[k + 4]) && answered_well(t[k + 5]));
        assert(t.len() == k + 6);
    } else {
        assert(w.len() == 2);
        assert(w[1] == t[k + 3]);
        assert(answered_well(t[k + 3]));
        assert(t.len() == k + 4);
    }
}

/// The entry at `path` was removed.
pub open spec fn removed(step: Step, path: Seq<char>) -> bool {
    step matches Step::Delete { path: p, reply } && p == path && reply is Ok
}

/// A save that reports success has written the contents to the target and read
/// every byte back.
pub proof fn reported_saves_are_verified(
    t: Seq<Step>,
    path: Seq<char>,
    contents: Seq<u8>,
)
    requires
        document_saved(t, path, contents, SaveOutcome::Saved),
    ensures
        exists|i: int|
            0 <= i < t.len() && (#[trigger] t[i] matches Step::Save { path: p, contents: c, reply }
                && p == path && c == contents && reply is Ok),
{
    let existed = save_target(t[0]->Find_reply)->Ok_0;
    let u = t.skip(1);
    let (k, chosen): (int, Result<u16, FsOpError>) = choose|k: int, chosen: Result<u16, FsOpError>|
        {
            &&& 0 <= k <= u.len()
            &&& #[trigger] suffix_chosen(u.take(k), parent_of(path), 0, chosen)
            &&& match chosen {
                Err(error) => k == u.len() && SaveOutcome::Saved == (SaveOutcome::Failed {
                    error,
                    backup_kept: None,
                }),
                Ok(suffix) => staged_save(
                    u.skip(k),
                    plan_for(path, contents, suffix, existed),
                    SaveOutcome::Saved,
                ),
            }
        };
    let v = u.skip(k);
    if existed {
        assert(t[k + 3] == v.skip(1).skip(1)[0]);
    } else {
        assert(t[k + 2] == v.skip(1)[0]);
    }
}

/// A save that is refused at the first look has taken no other step: a folder, a
/// read-only file or one that is too large stays as it is.
pub proof fn refused_saves_only_look(
    t: Seq<Step>,
    path: Seq<char>,
    contents: Seq<u8>,
    outcome: SaveOutcome,
)
    requires
        document_saved(t, path, contents, outcome),
        save_target(t[0]->Find_reply) is Err,
    ensures
        t.len() == 1,
        only_looks(t[0]),
        outcome == (SaveOutcome::Failed {
            error: save_target(t[0]->Find_reply)->Err_0,
            backup_kept: None,
        }),
{
}

/// Checking a tree only looks at it.
proof fn tree_check_only_looks(
    t: Seq<Step>,
    path: Seq<char>,
    depth: int,
    skip: int,
    result: Result<(), FsOpError>,
)
    requires
        tree_checked(t, path, depth, skip, result),
    ensures
        forall|i: int| 0 <= i < t.len() ==> only_looks(#[trigger] t[i]),
    decreases MAX_TREE_DEPTH - depth, t.len(), 0int,
{
    if depth < MAX_TREE_DEPTH {
        let listed = choose|listed: Result<(Seq<ChildEntry>, bool), FsOpError>| #[trigger]
            children_listed(t[0], path, skip, listed) && match listed {
                Err(error) => t.len() == 1 && result == Err::<(), FsOpError>(error),
                Ok((batch, more)) => children_checked(
                    t.skip(1),
                    path,
                    depth,
                    batch,
                    0,
                    more,
                    skip + batch.len(),
                    result,
                ),
            };
        if let Ok((batch, more)) = listed {
            children_check_only_looks(
                t.skip(1),
                path,
                depth,
                batch,
                0,
                more,
                skip + batch.len(),
                result,
            );
        }
        assert forall|i: int| 0 <= i < t.len() implies only_looks(#[trigger] t[i]) by {
            if i >= 1 {
                assert(t[i] == t.skip(1)[i - 1]);
            }
        }
    }
}

proof fn children_check_only_looks(
    t: Seq<Step>,
    path: Seq<char>,
    depth: int,
    batch: Seq<ChildEntry>,
    i: int,
    more: bool,
    next: int,
    result: Result<(), FsOpError>,
)
    requires
        0 <= i,
        children_checked(t, path, depth, batch, i, more, next, result),
    ensures
        forall|j: int| 0 <= j < t.len() ==> only_looks(#[trigger] t[j]),
    decreases MAX_TREE_DEPTH - depth, t.len(), batch.len() - i + 1,
{
    if i == batch.len() {
        if more && batch.len() > 0 {
            tree_check_only_looks(t, path, depth, next, result);
        }
    } else if batch[i].read_only {
    } else if batch[i].is_dir {
        let below = joined_path(path, batch[i].name@);
        let (k, outcome): (int, Result<(), FsOpError>) = choose|
            k: int,
            outcome: Result<(), FsOpError>,
        |
            #[trigger] mark_end(k, outcome) && 0 <= k <= t.len() && subtree_checked(
                t.take(k),
                below,
                depth + 1,
                outcome,
            ) && if outcome is Err {
                k == t.len() && result == outcome
            } else {
                children_checked(t.skip(k), path, depth, batch, i + 1, more, next, result)
            };
        tree_check_only_looks(t.take(k), below, depth + 1, 0, outcome);
        if !(outcome is Err) {
            children_check_only_looks(t.skip(k), path, depth, batch, i + 1, more, next, result);
        }
        assert forall|j: int| 0 <= j < t.len() implies only_looks(#[trigger] t[j]) by {
            if j < k {
                assert(t[j] == t.take(k)[j]);
            } else {
                assert(t[j] == t.skip(k)[j - k]);
            }
        }
    } else {
        children_check_only_looks(t, path, depth, batch, i + 1, more, next, result);
    }
}

/// The step listed children of a folder, and none of them is read-only.
pub open spec fn lists_nothing_protected(step: Step) -> bool {
    step matches Step::Scan { rule, reply, .. } && (rule matches ScanRuleView::Children { skip, .. }
        && (reply matches Ok(visited) && (forall|i: int|
        0 <= i < children_found(visited, skip).0.len() ==> !(#[trigger] children_found(
            visited,
            skip,
        ).0[i]).read_only)))
}

/// A tree that was found removable holds nothing read-only: every listing of its folders
/// shows that.
pub proof fn checked_trees_hold_nothing_protected(
    t: Seq<Step>,
    path: Seq<char>,
    depth: int,
    skip: int,
    result: Result<(), FsOpError>,
)
    requires
        tree_checked(t, path, depth, skip, result),
        result is Ok,
    ensures
        t.len() >= 1,
        forall|j: int| 0 <= j < t.len() ==> lists_nothing_protected(#[trigger] t[j]),
    decreases MAX_TREE_DEPTH - depth, t.len(), 0int,
{
    let listed = choose|listed: Result<(Seq<ChildEntry>, bool), FsOpError>| #[trigger]
        children_listed(t[0], path, skip, listed) && match listed {
            Err(error) => t.len() == 1 && result == Err::<(), FsOpError>(error),
            Ok((batch, more)) => children_checked(
                t.skip(1),
                path,
                depth,
                batch,
                0,
                more,
                skip + batch.len(),
                result,
            ),
        };
    let (batch, more) = listed->Ok_0;
    checked_children_hold_nothing_protected(
        t.skip(1),
        path,
        depth,
        batch,
        0,
        more,
        skip + batch.len(),
        result,
    );
    assert(lists_nothing_protected(t[0]));
    assert forall|j: int| 0 <= j < t.len() implies lists_nothing_protected(#[trigger] t[j]) by {
        if j >= 1 {
            assert(t[j] == t.skip(1)[j - 1]);
        }
    }
}

proof fn checked_children_hold_nothing_protected(
    t: Seq<Step>,
    path: Seq<char>,
    depth: int,
    batch: Seq<ChildEntry>,
    i: int,
    more: bool,
    next: int,
    result: Result<(), FsOpError>,
)
    requires
        0 <= i,
        children_checked(t, path, depth, batch, i, more, next, result),
        result is Ok,
    ensures
        forall|j: int| i <= j < batch.len() ==> !(#[trigger] batch[j]).read_only,
        forall|j: int| 0 <= j < t.len() ==> lists_nothing_protected(#[trigger] t[j]),
    decreases MAX_TREE_DEPTH - depth, t.len(), batch.len() - i + 1,
{
    if i == batch.len() {
        if more && batch.len() > 0 {
            checked_trees_hold_nothing_protected(t, path, depth, next, result);
        }
    } else if batch[i].is_dir {
        let below = joined_path(path, batch[i].name@);
        let (k, outcome): (int, Result<(), FsOpError>) = choose|
            k: int,
            outcome: Result<(), FsOpError>,
        |
            #[trigger] mark_end(k, outcome) && 0 <= k <= t.len() && subtree_checked(
                t.take(k),
                below,
                depth + 1,
                outcome,
            ) && if outcome is Err {
                k == t.len() && result == outcome
            } else {
                children_checked(t.skip(k), path, depth, batch, i + 1, more, next, result)
            };
        checked_trees_hold_nothing_protected(t.take(k), below, depth + 1, 0, outcome);
        checked_children_hold_nothing_protected(
            t.skip(k),
            path,
            depth,
            batch,
            i + 1,
            more,
            next,
            result,
        );
        assert forall|j: int| 0 <= j < t.len() implies lists_nothing_protected(#[trigger] t[j]) by {
            if j < k {
                assert(t[j] == t.take(k)[j]);
            } else {
                assert(t[j] == t.skip(k)[j - k]);
            }
        }
    } else {
        checked_children_hold_nothing_protected(
            t,
            path,
            depth,
            batch,
            i + 1,
            more,
            next,
            result,
        );
    }
}

/// A folder is deleted or moved only after everything in it was found removable:
/// neither read-only nor nested too deeply. Until then the card is only looked at.
pub proof fn trees_are_checked_before_they_change(
    t: Seq<Step>,
    path: Seq<char>,
    to: Seq<char>,
    result: Result<(), FsOpError>,
    j: int,
)
    requires
        folder_deleted(t, path, result) || folder_moved(t, path, to, result),
        0 <= j < t.len(),
        !only_looks(t[j]),
    ensures
        exists|k: int, checked: Result<(), FsOpError>|
            0 <= k <= j && checked is Ok && #[trigger] subtree_checked(t.take(k), path, 0, checked),
{
    let (k, checked): (int, Result<(), FsOpError>) = choose|k: int, checked: Result<(), FsOpError>|
        {
            &&& 0 <= k <= t.len()
            &&& #[trigger] subtree_checked(t.take(k), path, 0, checked)
            &&& checked is Err ==> k == t.len()
        };
    tree_check_only_looks(t.take(k), path, 0, 0, checked);
    if j < k {
        assert(t[j] == t.take(k)[j]);
    }
}

/// A move never replaces what is already there: a destination that exists ends it
/// after two looks.
pub proof fn moves_never_replace(
    t: Seq<Step>,
    from: Seq<char>,
    to: Seq<char>,
    from_form: Result<Seq<char>, NameFault>,
    to_form: Result<Seq<char>, NameFault>,
    result: Result<(), FsOpError>,
)
    requires
        entry_moved(t, from, to, from_form, to_form, result),
        t.len() >= 2,
    ensures
        t[1] matches Step::Find { path, reply } && path == to && match reply {
            Ok(_) => t.len() == 2 && result == Err::<(), FsOpError>(FsOpError::AlreadyExists),
            Err(error) => t.len() > 2 ==> error.says_not_found(),
        },
{
}

/// Moving a file, the source goes only after the copy was verified byte by byte.
pub proof fn a_moved_file_is_copied_first(
    t: Seq<Step>,
    from: Seq<char>,
    to: Seq<char>,
    result: Result<(), FsOpError>,
    j: int,
)
    requires
        file_moved(t, from, to, result),
        from != to,
        0 <= j < t.len(),
        touches(t[j], from),
    ensures
        j >= 1,
        t[0] matches Step::Copy { from: f, to: g, reply, .. } && f == from && g == to && reply is Ok,
{
    let (k, copied): (int, Result<(), FsOpError>) = choose|k: int, copied: Result<(), FsOpError>|
        {
            &&& 0 <= k <= t.len()
            &&& #[trigger] file_copied_safely(t.take(k), from, to, copied)
            &&& if copied is Err {
                k == t.len() && result == copied
            } else {
                source_file_removed(t.skip(k), from, to, result)
            }
        };
    let c = t.take(k);
    assert(t[0] == c[0]);
    if c[0]->Copy_reply is Err {
        let error = c[0]->Copy_reply->Err_0;
        let u = c.skip(1);
        let n = probe_steps(error);
        let verdict = choose|verdict: (FsOpError, bool)| #[trigger]
            assessed(u.take(n), error, verdict) && if verdict.1 {
                &&& u.len() == n + 1
                &&& u.last() matches Step::Delete { path, reply: removed } && path == to && copied
                    == Err::<(), FsOpError>(cleanup_report(verdict.0, removed))
            } else {
                u.len() == n && copied == Err::<(), FsOpError>(verdict.0)
            };
        assessing_only_looks(u.take(n), error, verdict);
        assert(copied is Err);
        assert(j < k);
        if j >= 1 {
            assert(t[j] == u[j - 1]);
            if j - 1 < n {
                assert(u[j - 1] == u.take(n)[j - 1]);
            }
        }
    }
}

/// A move that has landed is never reported as "not found", nor with anything else
/// that would invite to clean up the good copy.
pub proof fn landed_moves_report_no_loss(
    t: Seq<Step>,
    from: Seq<char>,
    to: Seq<char>,
    result: Result<(), FsOpError>,
)
    requires
        source_file_removed(t, from, to, result) || source_tree_removed(t, from, to, result),
    ensures
        match result {
            Ok(_) => true,
            Err(error) => error is SourceRemains || error is DeleteIncomplete || error
                == FsOpError::VerifyFailed,
        },
{
}

/// The step has destroyed something.
pub open spec fn destroys_something(step: Step) -> bool {
    match step {
        Step::Delete { reply, .. } => reply is Ok,
        Step::DeleteFiles { destroyed, .. } => destroyed,
        _ => false,
    }
}

proof fn tree_deletes_remember(
    t: Seq<Step>,
    path: Seq<char>,
    depth: int,
    rounds: int,
    before: bool,
    after: bool,
    result: Result<(), FsOpError>,
)
    requires
        tree_deleted(t, path, depth, rounds, before, after, result),
    ensures
        before ==> after,
        forall|j: int| 0 <= j < t.len() && destroys_something(#[trigger] t[j]) ==> after,
    decreases MAX_TREE_DEPTH - depth, t.len(), 0int,
{
    if depth < MAX_TREE_DEPTH && rounds > 0 {
        let listed = choose|listed: Result<(Seq<ChildEntry>, bool), FsOpError>| #[trigger]
            children_listed(t[0], path, 0, listed) && match listed {
                Err(error) => t.len() == 1 && result == Err::<(), FsOpError>(error) && after
                    == before,
                Ok((batch, _)) => if batch.len() == 0 {
                    &&& t.len() == 2
                    &&& t[1] matches Step::Delete { path: p, reply } && p == path && result == reply
                        && after == (before || reply is Ok)
                } else {
                    &&& t.len() >= 2
                    &&& t[1] matches Step::DeleteFiles { path: p, children, destroyed, reply } && {
                        &&& p == path
                        &&& children == batch
                        &&& if reply is Err {
                            t.len() == 2 && result == reply && after == (before || destroyed)
                        } else {
                            folders_deleted(
                                t.skip(2),
                                path,
                                depth,
                                batch,
                                0,
                                rounds - 1,
                                before || destroyed,
                                after,
                                result,
                            )
                        }
                    }
                },
            };
        if let Ok((batch, _)) = listed {
            if batch.len() > 0 && t[1]->DeleteFiles_reply is Ok {
                let gone = before || t[1]->DeleteFiles_destroyed;
                folder_deletes_remember(
                    t.skip(2),
                    path,
                    depth,
                    batch,
                    0,
                    rounds - 1,
                    gone,
                    after,
                    result,
                );
                assert forall|j: int| 0 <= j < t.len() && destroys_something(
                    #[trigger] t[j],
                ) implies after by {
                    if j >= 2 {
                        assert(t[j] == t.skip(2)[j - 2]);
                    }
                }
            }
        }
    }
}

proof fn folder_deletes_remember(
    t: Seq<Step>,
    path: Seq<char>,
    depth: int,
    batch: Seq<ChildEntry>,
    i: int,
    rounds: int,
    before: bool,
    after: bool,
    result: Result<(), FsOpError>,
)
    requires
        0 <= i,
        folders_deleted(t, path, depth, batch, i, rounds, before, after, result),
    ensures
        before ==> after,
        forall|j: int| 0 <= j < t.len() && destroys_something(#[trigger] t[j]) ==> after,
    decreases MAX_TREE_DEPTH - depth, t.len(), batch.len() - i + 1,
{
    if i == batch.len() {
        tree_deletes_remember(t, path, depth, rounds, before, after, result);
    } else if !batch[i].is_dir {
        folder_deletes_remember(t, path, depth, batch, i + 1, rounds, before, after, result);
    } else {
        let below = joined_path(path, batch[i].name@);
        let (k, outcome, destroyed): (int, Result<(), FsOpError>, bool) = choose|
            k: int,
            outcome: Result<(), FsOpError>,
            destroyed: bool,
        |
            {
                &&& #[trigger] mark_removal_end(k, outcome, destroyed)
                &&& 0 <= k <= t.len()
                &&& tree_deleted(
                    t.take(k),
                    below,
                    depth + 1,
                    MAX_DELETE_ROUNDS as int,
                    before,
                    destroyed,
                    outcome,
                )
                &&& if outcome is Err {
                    k == t.len() && result == outcome && after == destroyed
                } else {
                    folders_deleted(
                        t.skip(k),
                        path,
                        depth,
                        batch,
                        i + 1,
                        rounds,
                        destroyed,
                        after,
                        result,
                    )
                }
            };
        tree_deletes_remember(
            t.take(k),
            below,
            depth + 1,
            MAX_DELETE_ROUNDS as int,
            before,
            destroyed,
            outcome,
        );
        if !(outcome is Err) {
            folder_deletes_remember(
                t.skip(k),
                path,
                depth,
                batch,
                i + 1,
                rounds,
                destroyed,
                after,
                result,
            );
        }
        assert forall|j: int| 0 <= j < t.len() && destroys_something(#[trigger] t[j]) implies after by {
            if j < k {
                assert(t[j] == t.take(k)[j]);
            } else {
                assert(t[j] == t.skip(k)[j - k]);
            }
        }
    }
}

/// A folder delete that fails after something was destroyed says so.
pub proof fn partial_deletes_are_reported(
    t: Seq<Step>,
    path: Seq<char>,
    result: Result<(), FsOpError>,
    j: int,
)
    requires
        checked_tree_deleted(t, path, result),
        result is Err,
        0 <= j < t.len(),
        destroys_something(t[j]),
    ensures
        result->Err_0 is DeleteIncomplete,
{
    let (k, destroyed, removed): (int, bool, Result<(), FsOpError>) = choose|
        k: int,
        destroyed: bool,
        removed: Result<(), FsOpError>,
    |
        {
            &&& 0 <= k <= t.len()
            &&& #[trigger] tree_deleted(
                t.take(k),
                path,
                0,
                MAX_DELETE_ROUNDS as int,
                false,
                destroyed,
                removed,
            )
            &&& match removed {
                Err(error) => k == t.len() && result == Err::<(), FsOpError>(
                    tree_delete_report(error, destroyed),
                ),
                Ok(_) => delete_confirmed(t.skip(k), path, result),
            }
        };
    tree_deletes_remember(
        t.take(k),
        path,
        0,
        MAX_DELETE_ROUNDS as int,
        false,
        destroyed,
        removed,
    );
    if removed is Err {
        assert(t[j] == t.take(k)[j]);
    }
}

/// "Not found" is believed only when it was said twice, the second time after the
/// cache was dropped.
pub proof fn absence_is_confirmed<D, F, T>(
    t: Seq<Call<D, F>>,
    ask: spec_fn(Result<T, VolumeError>) -> Call<D, F>,
)
    requires
        confirmed(t, ask, Err(VolumeError::NotFound)),
    ensures
        t == seq![
            ask(Err(VolumeError::NotFound)),
            Call::DropCache,
            ask(Err(VolumeError::NotFound)),
        ],
{
}

/// A free-space query after a failed flush leaves the card alone until something is
/// changed, and a change revives it; a dead volume is not forgotten by a change.
pub proof fn a_failed_flush_waits_for_a_change(
    t: Seq<Step>,
    fat32: bool,
    figure: Option<u64>,
    after: (Option<u64>, FreeSpaceState),
    answer: Option<u64>,
)
    requires
        space_answered(t, fat32, (figure, FreeSpaceState::FlushFailed), after, answer),
    ensures
        t.len() == 0,
        answer is None,
        after == (figure, FreeSpaceState::FlushFailed),
        staled(FreeSpaceState::FlushFailed) == FreeSpaceState::Stale,
        staled(FreeSpaceState::VolumeDead) == FreeSpaceState::VolumeDead,
{
}

/// A figure that was measured is given again without a look at the card, until
/// something is changed.
pub proof fn a_measured_figure_is_kept(
    t: Seq<Step>,
    u: Seq<Step>,
    fat32: bool,
    before: (Option<u64>, FreeSpaceState),
    after: (Option<u64>, FreeSpaceState),
    later: (Option<u64>, FreeSpaceState),
    answer: Option<u64>,
    again: Option<u64>,
)
    requires
        space_answered(t, fat32, before, after, answer),
        answer is Some,
        space_answered(u, fat32, after, later, again),
    ensures
        u.len() == 0,
        again == answer,
        later == after,
{
}

} // verus!
