//! Saving a document without ever risking both its old and its new contents.
use vstd::prelude::*;

use crate::editor::MAX_DOCUMENT_BYTES;
use crate::errors::{FsOpError, SaveError, VolumeError};
use crate::files::whole_stretch;
use crate::names::{join_path, joined_path, parent_of, parent_path};
use crate::session::{follow_on, stays, Session, Step};
use crate::storage::{cut, no_more, one_more, since};
use crate::text::{hex4, hex4_text, joined};
use crate::tree::{assessed, probe_steps};
use crate::volume::{EntryFacts, OpenMode, VolumeAccess};

verus! {

broadcast use {follow_on, stays};

/// What a look at the target says: whether it exists, or why it is not replaced.
/// A target larger than any document was changed on another machine.
pub open spec fn save_target(found: Result<EntryFacts, FsOpError>) -> Result<bool, FsOpError> {
    match found {
        Ok(facts) => if facts.directory {
            Err(FsOpError::IsADirectory)
        } else if facts.read_only {
            Err(FsOpError::Fs(VolumeError::ReadOnly))
        } else if facts.size > MAX_DOCUMENT_BYTES {
            Err(FsOpError::TooLarge)
        } else {
            Ok(true)
        },
        Err(error) => if error.says_not_found() {
            Ok(false)
        } else {
            Err(error)
        },
    }
}

/// The path under which new contents are staged.
pub open spec fn temporary_path(directory: Seq<char>, suffix: u16) -> Seq<char> {
    joined_path(directory, "~WIO"@ + hex4_text(suffix) + ".TMP"@)
}

/// The path under which old contents are kept.
pub open spec fn backup_path(directory: Seq<char>, suffix: u16) -> Seq<char> {
    joined_path(directory, "~WIO"@ + hex4_text(suffix) + ".BAK"@)
}

/// The answer to "is there an entry?".
pub open spec fn presence(found: Result<EntryFacts, FsOpError>) -> Result<bool, FsOpError> {
    match found {
        Ok(_) => Ok(true),
        Err(error) => if error.says_not_found() {
            Ok(false)
        } else {
            Err(error)
        },
    }
}

/// Looking for the first suffix from `suffix` on under which neither staging name
/// is taken.
pub open spec fn suffix_chosen(
    t: Seq<Step>,
    directory: Seq<char>,
    suffix: u16,
    chosen: Result<u16, FsOpError>,
) -> bool
    decreases 0x1_0000 - suffix,
{
    &&& t.len() >= 1
    &&& t[0] matches Step::Find { path, reply } && path == temporary_path(directory, suffix)
        && match presence(reply) {
        Err(error) => t.len() == 1 && chosen == Err::<u16, FsOpError>(error),
        Ok(true) => next_suffix_chosen(t.skip(1), directory, suffix, chosen),
        Ok(false) => {
            &&& t.len() >= 2
            &&& t[1] matches Step::Find { path: p, reply: r } && p == backup_path(directory, suffix)
                && match presence(r) {
                Err(error) => t.len() == 2 && chosen == Err::<u16, FsOpError>(error),
                Ok(false) => t.len() == 2 && chosen == Ok::<u16, FsOpError>(suffix),
                Ok(true) => next_suffix_chosen(t.skip(2), directory, suffix, chosen),
            }
        },
    }
}

/// Going on after `suffix`; there is nothing after the last one.
pub open spec fn next_suffix_chosen(
    t: Seq<Step>,
    directory: Seq<char>,
    suffix: u16,
    chosen: Result<u16, FsOpError>,
) -> bool
    decreases 0x1_0000 - suffix, 0int,
{
    if suffix == 0xffff {
        t.len() == 0 && chosen == Err::<u16, FsOpError>(FsOpError::Fs(VolumeError::DiskFull))
    } else {
        suffix_chosen(t, directory, (suffix + 1) as u16, chosen)
    }
}

/// A save's result, with the kept backup as text.
pub enum SaveOutcome {
    Saved,
    Failed { error: FsOpError, backup_kept: Option<Seq<char>> },
}

pub open spec fn save_view(result: Result<(), SaveError>) -> SaveOutcome {
    match result {
        Ok(_) => SaveOutcome::Saved,
        Err(failure) => SaveOutcome::Failed {
            error: failure.error,
            backup_kept: match failure.backup_kept {
                Some(path) => Some(path@),
                None => None,
            },
        },
    }
}

/// The paths and contents of one save.
pub struct SavePlan {
    pub path: Seq<char>,
    pub temporary: Seq<char>,
    pub backup: Seq<char>,
    pub contents: Seq<u8>,
    pub existed: bool,
}

/// A step that removes the entry at `path`; its reply is of no account.
pub open spec fn removes(step: Step, path: Seq<char>) -> bool {
    step matches Step::Delete { path: p, .. } && p == path
}

/// Failing before the target was touched: the failure is assessed, and the
/// staging files in `leftovers` are removed where that is safe.
pub open spec fn staging_failed(
    t: Seq<Step>,
    error: FsOpError,
    leftovers: spec_fn(FsOpError, bool) -> Seq<Seq<char>>,
    outcome: SaveOutcome,
) -> bool {
    &&& probe_steps(error) <= t.len()
    &&& exists|verdict: (FsOpError, bool)| #[trigger]
        assessed(t.take(probe_steps(error)), error, verdict) && {
            let gone = leftovers(verdict.0, verdict.1);
            let rest = t.skip(probe_steps(error));
            &&& rest.len() == gone.len()
            &&& forall|i: int| 0 <= i < gone.len() ==> removes(#[trigger] rest[i], gone[i])
            &&& outcome == SaveOutcome::Failed { error: verdict.0, backup_kept: None }
        }
}

/// What is removed after the temporary could not be saved.
pub open spec fn after_temporary(plan: SavePlan) -> spec_fn(FsOpError, bool) -> Seq<Seq<char>> {
    |error: FsOpError, rollback: bool|
        if rollback {
            seq![plan.temporary]
        } else {
            Seq::empty()
        }
}

/// What is removed after the backup could not be made. A backup name that turned
/// out taken leaves the card sound, and the temporary to be removed.
pub open spec fn after_backup(plan: SavePlan) -> spec_fn(FsOpError, bool) -> Seq<Seq<char>> {
    |error: FsOpError, rollback: bool|
        if rollback {
            seq![plan.backup, plan.temporary]
        } else if error is AlreadyExists {
            seq![plan.temporary]
        } else {
            Seq::empty()
        }
}

/// Staging and then saving: new contents go to the temporary, old contents to the
/// backup, both verified, and only then is the target touched.
pub open spec fn staged_save(t: Seq<Step>, plan: SavePlan, outcome: SaveOutcome) -> bool {
    &&& t.len() >= 1
    &&& t[0] matches Step::Save { path, contents, reply } && {
        &&& path == plan.temporary
        &&& contents == plan.contents
        &&& match reply {
            Err(error) => staging_failed(t.skip(1), error, after_temporary(plan), outcome),
            Ok(_) => if plan.existed {
                backed_up_save(t.skip(1), plan, outcome)
            } else {
                target_saved(t.skip(1), plan, outcome)
            },
        }
    }
}

/// Making the backup, and going on.
pub open spec fn backed_up_save(t: Seq<Step>, plan: SavePlan, outcome: SaveOutcome) -> bool {
    &&& t.len() >= 1
    &&& t[0] matches Step::Copy { from, to, mode, reply } && {
        &&& from == plan.path
        &&& to == plan.backup
        &&& mode == OpenMode::ReadWriteCreate
        &&& match reply {
            Err(error) => staging_failed(t.skip(1), error, after_backup(plan), outcome),
            Ok(_) => target_saved(t.skip(1), plan, outcome),
        }
    }
}

/// Rewriting the target in place. Success removes the staging files, and whether
/// that works is of no account: the target holds verified data.
pub open spec fn target_saved(t: Seq<Step>, plan: SavePlan, outcome: SaveOutcome) -> bool {
    &&& t.len() >= 1
    &&& t[0] matches Step::Save { path, contents, reply } && {
        &&& path == plan.path
        &&& contents == plan.contents
        &&& match reply {
            Ok(_) => {
                &&& outcome == SaveOutcome::Saved
                &&& t.len() == if plan.existed { 3int } else { 2 }
                &&& removes(t[1], plan.temporary)
                &&& plan.existed ==> removes(t[2], plan.backup)
            },
            Err(error) => target_failed(t.skip(1), plan, error, outcome),
        }
    }
}

/// Failing while the target was rewritten.
pub open spec fn target_failed(
    t: Seq<Step>,
    plan: SavePlan,
    error: FsOpError,
    outcome: SaveOutcome,
) -> bool {
    &&& probe_steps(error) <= t.len()
    &&& exists|verdict: (FsOpError, bool)| #[trigger]
        assessed(t.take(probe_steps(error)), error, verdict) && rolled_back(
            t.skip(probe_steps(error)),
            plan,
            verdict,
            outcome,
        )
}

/// Restoring the target from the backup where that is safe. The backup is named
/// wherever it may be the only place that holds the old contents.
pub open spec fn rolled_back(
    t: Seq<Step>,
    plan: SavePlan,
    verdict: (FsOpError, bool),
    outcome: SaveOutcome,
) -> bool {
    if !verdict.1 {
        &&& t.len() == 0
        &&& outcome == SaveOutcome::Failed {
            error: verdict.0,
            backup_kept: if plan.existed { Some(plan.backup) } else { None },
        }
    } else if !plan.existed {
        &&& t.len() == 2
        &&& removes(t[0], plan.path)
        &&& removes(t[1], plan.temporary)
        &&& outcome == SaveOutcome::Failed { error: verdict.0, backup_kept: None }
    } else {
        &&& t.len() >= 1
        &&& t[0] matches Step::Copy { from, to, mode, reply } && {
            &&& from == plan.backup
            &&& to == plan.path
            &&& mode == OpenMode::ReadWriteCreateOrTruncate
            &&& if reply is Err {
                &&& t.len() == 1
                &&& outcome == SaveOutcome::Failed {
                    error: verdict.0,
                    backup_kept: Some(plan.backup),
                }
            } else {
                &&& t.len() == 3
                &&& removes(t[1], plan.temporary)
                &&& t[2] matches Step::Delete { path, reply: removed } && {
                    &&& path == plan.backup
                    &&& outcome == SaveOutcome::Failed {
                        error: verdict.0,
                        backup_kept: if removed is Ok || removed->Err_0 is DeleteIncomplete {
                            None
                        } else {
                            Some(plan.backup)
                        },
                    }
                }
            }
        }
    }
}

/// The plan for a save to `path` with staging names under `suffix`.
pub open spec fn plan_for(
    path: Seq<char>,
    contents: Seq<u8>,
    suffix: u16,
    existed: bool,
) -> SavePlan {
    SavePlan {
        path,
        temporary: temporary_path(parent_of(path), suffix),
        backup: backup_path(parent_of(path), suffix),
        contents,
        existed,
    }
}

/// A whole save of `contents` to `path`.
pub open spec fn document_saved(
    t: Seq<Step>,
    path: Seq<char>,
    contents: Seq<u8>,
    outcome: SaveOutcome,
) -> bool {
    &&& t.len() >= 1
    &&& t[0] matches Step::Find { path: p, reply } && p == path && match save_target(reply) {
        Err(error) => t.len() == 1 && outcome == SaveOutcome::Failed { error, backup_kept: None },
        Ok(existed) => names_then_save(t.skip(1), path, contents, existed, outcome),
    }
}

/// Choosing the staging names, and then saving.
pub open spec fn names_then_save(
    t: Seq<Step>,
    path: Seq<char>,
    contents: Seq<u8>,
    existed: bool,
    outcome: SaveOutcome,
) -> bool {
    exists|k: int, chosen: Result<u16, FsOpError>|
        {
            &&& 0 <= k <= t.len()
            &&& #[trigger] suffix_chosen(t.take(k), parent_of(path), 0, chosen)
            &&& match chosen {
                Err(error) => k == t.len() && outcome == SaveOutcome::Failed {
                    error,
                    backup_kept: None,
                },
                Ok(suffix) => staged_save(
                    t.skip(k),
                    plan_for(path, contents, suffix, existed),
                    outcome,
                ),
            }
        }
}

fn staging_name(suffix: u16, extension: &str) -> (name: String)
    ensures
        name@ == "~WIO"@ + hex4_text(suffix) + extension@,
{
    let front = joined("~WIO", hex4(suffix).as_str());
    joined(front.as_str(), extension)
}

impl<M: VolumeAccess> Session<M> {
    /// Whether there is an entry at `path`.
    pub fn entry_exists(&mut self, path: &str) -> (result: Result<bool, FsOpError>)
        requires
            old(self).wf(),
        ensures
            final(self).follows(old(self)),
            exists|reply: Result<EntryFacts, FsOpError>| #[trigger]
                final(self).took(old(self), Step::Find { path: path@, reply }) && result == presence(
                    reply,
                ),
    {
        let ghost first = *self;
        let reply = self.find_entry(path);
        assert(self.took(&first, Step::Find { path: path@, reply }));
        match reply {
            Ok(_) => Ok(true),
            Err(error) => if error.is_not_found() {
                Ok(false)
            } else {
                Err(error)
            },
        }
    }

    fn choose_suffix(&mut self, directory: &str) -> (chosen: Result<u16, FsOpError>)
        requires
            old(self).wf(),
        ensures
            final(self).follows(old(self)),
            suffix_chosen(since(old(self).steps(), final(self).steps()), directory@, 0, chosen),
    {
        let ghost start = self.steps();
        let ghost first = *self;
        let mut suffix: u16 = 0;
        proof {
            no_more(start);
            no_more(self.calls());
            assert forall|rest: Seq<Step>, c: Result<u16, FsOpError>|
                suffix_chosen(rest, directory@, 0, c) implies #[trigger] suffix_chosen(
                since(start, self.steps()) + rest,
                directory@,
                0,
                c,
            ) by {
                assert(since(start, self.steps()) + rest =~= rest);
            }
        }
        loop
            invariant
                first == *old(self),
                start == first.steps(),
                self.follows(&first),
                forall|rest: Seq<Step>, c: Result<u16, FsOpError>|
                    suffix_chosen(rest, directory@, suffix, c) ==> #[trigger] suffix_chosen(
                        since(start, self.steps()) + rest,
                        directory@,
                        0,
                        c,
                    ),
            decreases 0x1_0000 - suffix,
        {
            let ghost entered = *self;
            let ghost before = self.steps();
            let temporary = join_path(directory, staging_name(suffix, ".TMP").as_str());
            let reply = self.find_entry(temporary.as_str());
            let ghost look = Step::Find { path: temporary@, reply };
            let ghost looked = *self;
            let ghost mut seen: Seq<Step> = seq![look];
            proof {
                one_more(start, before, look);
            }
            let mut taken = true;
            match reply {
                Ok(_) => {},
                Err(error) => {
                    if !error.is_not_found() {
                        assert(suffix_chosen(seq![look], directory@, suffix, Err(error)));
                        return Err(error);
                    }
                    let backup = join_path(directory, staging_name(suffix, ".BAK").as_str());
                    let reply = self.find_entry(backup.as_str());
                    let ghost second = Step::Find { path: backup@, reply };
                    proof {
                        seen = seq![look, second];
                        one_more(start, looked.steps(), second);
                        assert(since(start, self.steps()) =~= since(start, before) + seen);
                    }
                    match reply {
                        Ok(_) => {},
                        Err(error) => {
                            if !error.is_not_found() {
                                assert(suffix_chosen(seen, directory@, suffix, Err(error)));
                                return Err(error);
                            }
                            taken = false;
                        },
                    }
                },
            }
            if !taken {
                assert(suffix_chosen(seen, directory@, suffix, Ok(suffix)));
                return Ok(suffix);
            }
            proof {
                assert forall|rest: Seq<Step>, c: Result<u16, FsOpError>|
                    next_suffix_chosen(rest, directory@, suffix, c) implies #[trigger] suffix_chosen(
                    since(start, self.steps()) + rest,
                    directory@,
                    0,
                    c,
                ) by {
                    let longer = seen + rest;
                    assert(longer.skip(seen.len() as int) =~= rest);
                    assert(suffix_chosen(longer, directory@, suffix, c));
                    assert(since(start, before) + longer =~= since(start, self.steps()) + rest);
                }
            }
            if suffix == 0xffff {
                let error = FsOpError::Fs(VolumeError::DiskFull);
                proof {
                    let none = Seq::<Step>::empty();
                    assert(next_suffix_chosen(none, directory@, suffix, Err(error)));
                    assert(since(start, self.steps()) + none =~= since(start, self.steps()));
                }
                return Err(error);
            }
            proof {
                assert forall|rest: Seq<Step>, c: Result<u16, FsOpError>|
                    suffix_chosen(rest, directory@, (suffix + 1) as u16, c)
                    implies #[trigger] suffix_chosen(
                    since(start, self.steps()) + rest,
                    directory@,
                    0,
                    c,
                ) by {
                    assert(next_suffix_chosen(rest, directory@, suffix, c));
                }
            }
            suffix = suffix + 1;
        }
    }

    /// Remove a staging file; whether that works is of no account.
    fn discard(&mut self, path: &str)
        requires
            old(self).wf(),
        ensures
            final(self).follows(old(self)),
            final(self).steps() == old(self).steps().push(final(self).steps().last()),
            removes(final(self).steps().last(), path@),
    {
        let _ = self.delete_file_at(path);
    }

    fn fail_after_temporary(
        &mut self,
        error: FsOpError,
        temporary: &str,
        Ghost(plan): Ghost<SavePlan>,
    ) -> (failure: SaveError)
        requires
            old(self).wf(),
            plan.temporary == temporary@,
        ensures
            final(self).follows(old(self)),
            staging_failed(
                since(old(self).steps(), final(self).steps()),
                error,
                after_temporary(plan),
                save_view(Err(failure)),
            ),
    {
        let ghost first = *self;
        let ghost original = error;
        let (error, rollback) = self.assess_failure(error);
        let ghost verdict = (error, rollback);
        let ghost judged = *self;
        let ghost probing = since(first.steps(), judged.steps());
        proof {
            whole_stretch(probing);
            assert(probing.skip(probing.len() as int) =~= Seq::empty());
        }
        if rollback {
            self.discard(temporary);
            proof {
                one_more(first.steps(), judged.steps(), self.steps().last());
                let t = since(first.steps(), self.steps());
                assert(t.take(probing.len() as int) =~= probing);
                assert(t.skip(probing.len() as int) =~= seq![self.steps().last()]);
            }
        }
        proof {
            let t = since(first.steps(), self.steps());
            assert(assessed(t.take(probe_steps(original)), original, verdict));
        }
        SaveError { error, backup_kept: None }
    }

    fn fail_after_backup(
        &mut self,
        error: FsOpError,
        temporary: &str,
        backup: &str,
        Ghost(plan): Ghost<SavePlan>,
    ) -> (failure: SaveError)
        requires
            old(self).wf(),
            plan.temporary == temporary@,
            plan.backup == backup@,
        ensures
            final(self).follows(old(self)),
            staging_failed(
                since(old(self).steps(), final(self).steps()),
                error,
                after_backup(plan),
                save_view(Err(failure)),
            ),
    {
        let ghost first = *self;
        let ghost original = error;
        let (error, rollback) = self.assess_failure(error);
        let ghost verdict = (error, rollback);
        let ghost judged = *self;
        let ghost probing = since(first.steps(), judged.steps());
        let ghost k = probing.len() as int;
        proof {
            whole_stretch(probing);
            assert(probing.skip(k) =~= Seq::empty());
        }
        if rollback {
            self.discard(backup);
            let ghost middle = *self;
            self.discard(temporary);
            proof {
                one_more(first.steps(), judged.steps(), middle.steps().last());
                one_more(first.steps(), middle.steps(), self.steps().last());
                let t = since(first.steps(), self.steps());
                assert(t.take(k) =~= probing);
                assert(t.skip(k) =~= seq![middle.steps().last(), self.steps().last()]);
            }
        } else if matches!(error, FsOpError::AlreadyExists) {
            self.discard(temporary);
            proof {
                one_more(first.steps(), judged.steps(), self.steps().last());
                let t = since(first.steps(), self.steps());
                assert(t.take(k) =~= probing);
                assert(t.skip(k) =~= seq![self.steps().last()]);
            }
        }
        proof {
            let t = since(first.steps(), self.steps());
            assert(assessed(t.take(probe_steps(original)), original, verdict));
        }
        SaveError { error, backup_kept: None }
    }

    #[verifier::rlimit(60)]
    #[verifier::spinoff_prover]
    fn roll_back(
        &mut self,
        error: FsOpError,
        rollback: bool,
        existed: bool,
        path: &str,
        temporary: &str,
        backup: &str,
        Ghost(plan): Ghost<SavePlan>,
    ) -> (failure: SaveError)
        requires
            old(self).wf(),
            plan.path == path@,
            plan.temporary == temporary@,
            plan.backup == backup@,
            plan.existed == existed,
        ensures
            final(self).follows(old(self)),
            rolled_back(
                since(old(self).steps(), final(self).steps()),
                plan,
                (error, rollback),
                save_view(Err(failure)),
            ),
    {
        let ghost first = *self;
        proof {
            no_more(self.steps());
            no_more(self.calls());
        }
        if !rollback {
            let backup_kept = if existed { Some(backup.to_owned()) } else { None };
            return SaveError { error, backup_kept };
        }
        if !existed {
            self.discard(path);
            let ghost middle = *self;
            self.discard(temporary);
            proof {
                one_more(first.steps(), first.steps(), middle.steps().last());
                one_more(first.steps(), middle.steps(), self.steps().last());
                assert(since(first.steps(), self.steps()) =~= seq![
                    middle.steps().last(),
                    self.steps().last(),
                ]);
            }
            return SaveError { error, backup_kept: None };
        }
        let restored = self.copy_file_contents(
            backup,
            path,
            OpenMode::ReadWriteCreateOrTruncate,
        );
        let ghost copy = Step::Copy {
            from: backup@,
            to: path@,
            mode: OpenMode::ReadWriteCreateOrTruncate,
            reply: restored,
        };
        let ghost copied = *self;
        if restored.is_err() {
            return SaveError { error, backup_kept: Some(backup.to_owned()) };
        }
        self.discard(temporary);
        let ghost discarded = *self;
        let removed = self.delete_file_at(backup);
        proof {
            let drop_it = discarded.steps().last();
            let delete = Step::Delete { path: backup@, reply: removed };
            one_more(first.steps(), copied.steps(), drop_it);
            one_more(first.steps(), discarded.steps(), delete);
            assert(since(first.steps(), self.steps()) =~= seq![copy, drop_it, delete]);
        }
        let kept = match removed {
            Ok(()) => false,
            Err(FsOpError::DeleteIncomplete(_)) => false,
            Err(_) => true,
        };
        let backup_kept = if kept { Some(backup.to_owned()) } else { None };
        SaveError { error, backup_kept }
    }

    fn fail_target(
        &mut self,
        error: FsOpError,
        existed: bool,
        path: &str,
        temporary: &str,
        backup: &str,
        Ghost(plan): Ghost<SavePlan>,
    ) -> (failure: SaveError)
        requires
            old(self).wf(),
            plan.path == path@,
            plan.temporary == temporary@,
            plan.backup == backup@,
            plan.existed == existed,
        ensures
            final(self).follows(old(self)),
            target_failed(
                since(old(self).steps(), final(self).steps()),
                plan,
                error,
                save_view(Err(failure)),
            ),
    {
        let ghost first = *self;
        let ghost original = error;
        let (error, rollback) = self.assess_failure(error);
        let ghost verdict = (error, rollback);
        let ghost judged = *self;
        let failure = self.roll_back(
            error,
            rollback,
            existed,
            path,
            temporary,
            backup,
            Ghost(plan),
        );
        proof {
            cut(first.steps(), judged.steps(), self.steps());
            let t = since(first.steps(), self.steps());
            assert(assessed(t.take(probe_steps(original)), original, verdict));
        }
        failure
    }

    fn save_target_file(
        &mut self,
        contents: &[u8],
        existed: bool,
        path: &str,
        temporary: &str,
        backup: &str,
        Ghost(plan): Ghost<SavePlan>,
    ) -> (result: Result<(), SaveError>)
        requires
            old(self).wf(),
            plan.path == path@,
            plan.temporary == temporary@,
            plan.backup == backup@,
            plan.existed == existed,
            plan.contents == contents@,
        ensures
            final(self).follows(old(self)),
            target_saved(
                since(old(self).steps(), final(self).steps()),
                plan,
                save_view(result),
            ),
    {
        let ghost first = *self;
        let reply = self.save_verified(path, contents);
        let ghost save = Step::Save { path: path@, contents: contents@, reply };
        let ghost saved = *self;
        match reply {
            Err(error) => {
                let failure = self.fail_target(
                    error,
                    existed,
                    path,
                    temporary,
                    backup,
                    Ghost(plan),
                );
                proof {
                    cut(first.steps(), saved.steps(), self.steps());
                    let t = since(first.steps(), self.steps());
                    assert(t[0] == t.take(1)[0]);
                }
                return Err(failure);
            },
            Ok(()) => {},
        }
        self.discard(temporary);
        let ghost middle = *self;
        proof {
            one_more(first.steps(), saved.steps(), middle.steps().last());
            assert(since(first.steps(), middle.steps()) =~= seq![save, middle.steps().last()]);
        }
        if existed {
            self.discard(backup);
            proof {
                one_more(first.steps(), middle.steps(), self.steps().last());
                assert(since(first.steps(), self.steps()) =~= seq![
                    save,
                    middle.steps().last(),
                    self.steps().last(),
                ]);
            }
        }
        Ok(())
    }

    fn save_backed_up(
        &mut self,
        contents: &[u8],
        path: &str,
        temporary: &str,
        backup: &str,
        Ghost(plan): Ghost<SavePlan>,
    ) -> (result: Result<(), SaveError>)
        requires
            old(self).wf(),
            plan.path == path@,
            plan.temporary == temporary@,
            plan.backup == backup@,
            plan.existed,
            plan.contents == contents@,
        ensures
            final(self).follows(old(self)),
            backed_up_save(
                since(old(self).steps(), final(self).steps()),
                plan,
                save_view(result),
            ),
    {
        let ghost first = *self;
        let reply = self.copy_file_contents(path, backup, OpenMode::ReadWriteCreate);
        let ghost copied = *self;
        let result = match reply {
            Err(error) => Err(self.fail_after_backup(error, temporary, backup, Ghost(plan))),
            Ok(()) => self.save_target_file(
                contents,
                true,
                path,
                temporary,
                backup,
                Ghost(plan),
            ),
        };
        proof {
            cut(first.steps(), copied.steps(), self.steps());
            let t = since(first.steps(), self.steps());
            assert(t[0] == t.take(1)[0]);
        }
        result
    }

    fn save_staged(
        &mut self,
        contents: &[u8],
        existed: bool,
        path: &str,
        temporary: &str,
        backup: &str,
        Ghost(plan): Ghost<SavePlan>,
    ) -> (result: Result<(), SaveError>)
        requires
            old(self).wf(),
            plan.path == path@,
            plan.temporary == temporary@,
            plan.backup == backup@,
            plan.existed == existed,
            plan.contents == contents@,
        ensures
            final(self).follows(old(self)),
            staged_save(
                since(old(self).steps(), final(self).steps()),
                plan,
                save_view(result),
            ),
    {
        let ghost first = *self;
        let reply = self.save_verified(temporary, contents);
        let ghost staged = *self;
        let result = match reply {
            Err(error) => Err(self.fail_after_temporary(error, temporary, Ghost(plan))),
            Ok(()) => if existed {
                self.save_backed_up(contents, path, temporary, backup, Ghost(plan))
            } else {
                self.save_target_file(contents, false, path, temporary, backup, Ghost(plan))
            },
        };
        proof {
            cut(first.steps(), staged.steps(), self.steps());
            let t = since(first.steps(), self.steps());
            assert(t[0] == t.take(1)[0]);
        }
        result
    }

    /// Replace a document, keeping a proven copy of both its old and its new
    /// contents on the card at every step.
    pub fn save_document(&mut self, path: &str, contents: &[u8]) -> (result: Result<(), SaveError>)
        requires
            old(self).wf(),
        ensures
            final(self).follows(old(self)),
            document_saved(
                since(old(self).steps(), final(self).steps()),
                path@,
                contents@,
                save_view(result),
            ),
    {
        let ghost first = *self;
        let found = self.find_entry(path);
        let ghost look = Step::Find { path: path@, reply: found };
        let ghost looked = *self;
        let existed = match found {
            Ok(facts) => {
                if facts.directory {
                    return Err(SaveError::from(FsOpError::IsADirectory));
                }
                if facts.read_only {
                    return Err(SaveError::from(FsOpError::Fs(VolumeError::ReadOnly)));
                }
                if facts.size > MAX_DOCUMENT_BYTES as u32 {
                    return Err(SaveError::from(FsOpError::TooLarge));
                }
                true
            },
            Err(error) => {
                if !error.is_not_found() {
                    return Err(SaveError::from(error));
                }
                false
            },
        };
        let directory = parent_path(path);
        let chosen = self.choose_suffix(directory.as_str());
        let ghost choice = chosen;
        let ghost named = *self;
        let ghost k = since(looked.steps(), named.steps()).len() as int;
        proof {
            whole_stretch(since(looked.steps(), named.steps()));
            cut(first.steps(), looked.steps(), named.steps());
            let t = since(first.steps(), named.steps());
            assert(t[0] == t.take(1)[0]);
            assert(suffix_chosen(
                since(looked.steps(), named.steps()).take(k),
                parent_of(path@),
                0,
                choice,
            ));
        }
        let suffix = match chosen {
            Ok(suffix) => suffix,
            Err(error) => {
                let failure = SaveError::from(error);
                assert(names_then_save(
                    since(looked.steps(), named.steps()),
                    path@,
                    contents@,
                    existed,
                    save_view(Err(failure)),
                ));
                return Err(failure);
            },
        };
        let temporary = join_path(directory.as_str(), staging_name(suffix, ".TMP").as_str());
        let backup = join_path(directory.as_str(), staging_name(suffix, ".BAK").as_str());
        let ghost plan = plan_for(path@, contents@, suffix, existed);
        let result = self.save_staged(
            contents,
            existed,
            path,
            temporary.as_str(),
            backup.as_str(),
            Ghost(plan),
        );
        proof {
            cut(looked.steps(), named.steps(), self.steps());
            cut(first.steps(), looked.steps(), self.steps());
            let t = since(first.steps(), self.steps());
            let u = since(looked.steps(), self.steps());
            assert(t[0] == t.take(1)[0]);
            assert(suffix_chosen(u.take(k), parent_of(path@), 0, choice));
            assert(names_then_save(u, path@, contents@, existed, save_view(result)));
        }
        result
    }
}

} // verus!
