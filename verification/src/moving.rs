//! Moving and deleting entries.
use vstd::prelude::*;

use crate::errors::{FsOpError, VolumeError};
use crate::files::whole_stretch;
use crate::names::{
    leaf_name, leaf_of, lies_inside, parent_of, parent_path, path_is_inside, short_form,
    short_form_view, short_name, NameFault,
};
use crate::session::{follow_on, stays, Session, Step};
use crate::storage::{cut, no_more, one_more, since};
use crate::text::{chars_of, equal_ignoring_case, same_but_for_case, same_text};
use crate::tree::{
    assessed, cleanup_report, file_copied_safely, probe_steps, read_only, report_cleanup,
    subtree_checked, tree_copied, tree_deleted, MAX_DELETE_ROUNDS,
};
use crate::volume::{EntryFacts, VolumeAccess};

verus! {

broadcast use {follow_on, stays};

/// What a failed removal of the source means after a verified copy: the move has
/// landed. An incomplete delete keeps its own report.
pub open spec fn source_report(error: FsOpError) -> FsOpError {
    if error is DeleteIncomplete {
        error
    } else {
        FsOpError::SourceRemains(Box::new(error))
    }
}

/// The two looks after a move. They are advisory: the destination holds a verified
/// copy, so a look that fails does not turn the move into a failure.
pub open spec fn move_confirmed(
    t: Seq<Step>,
    from: Seq<char>,
    to: Seq<char>,
    result: Result<(), FsOpError>,
) -> bool {
    &&& t.len() >= 1
    &&& t[0] matches Step::Find { path, reply } && path == from && if reply is Ok {
        &&& t.len() == 1
        &&& result == Err::<(), FsOpError>(
            FsOpError::SourceRemains(Box::new(FsOpError::VerifyFailed)),
        )
    } else {
        &&& t.len() == 2
        &&& t[1] matches Step::Find { path: p, reply: seen } && p == to && match seen {
            Ok(_) => result is Ok,
            Err(error) => if error.says_not_found() {
                result == Err::<(), FsOpError>(FsOpError::VerifyFailed)
            } else {
                result is Ok
            },
        }
    }
}

/// Removing the source file of a move whose copy was verified.
pub open spec fn source_file_removed(
    t: Seq<Step>,
    from: Seq<char>,
    to: Seq<char>,
    result: Result<(), FsOpError>,
) -> bool {
    &&& t.len() >= 1
    &&& t[0] matches Step::Delete { path, reply } && path == from && match reply {
        Err(error) => t.len() == 1 && result == Err::<(), FsOpError>(source_report(error)),
        Ok(_) => move_confirmed(t.skip(1), from, to, result),
    }
}

/// Moving a file.
pub open spec fn file_moved(
    t: Seq<Step>,
    from: Seq<char>,
    to: Seq<char>,
    result: Result<(), FsOpError>,
) -> bool {
    exists|k: int, copied: Result<(), FsOpError>|
        {
            &&& 0 <= k <= t.len()
            &&& #[trigger] file_copied_safely(t.take(k), from, to, copied)
            &&& if copied is Err {
                k == t.len() && result == copied
            } else {
                source_file_removed(t.skip(k), from, to, result)
            }
        }
}

/// Removing the source tree of a move whose copy was verified.
pub open spec fn source_tree_removed(
    t: Seq<Step>,
    from: Seq<char>,
    to: Seq<char>,
    result: Result<(), FsOpError>,
) -> bool {
    exists|k: int, destroyed: bool, removed: Result<(), FsOpError>|
        {
            &&& 0 <= k <= t.len()
            &&& #[trigger] tree_deleted(
                t.take(k),
                from,
                0,
                MAX_DELETE_ROUNDS as int,
                false,
                destroyed,
                removed,
            )
            &&& match removed {
                Err(error) => k == t.len() && result == Err::<(), FsOpError>(source_report(error)),
                Ok(_) => move_confirmed(t.skip(k), from, to, result),
            }
        }
}

/// Assessing the failure of a tree copy to `to`, and removing what it left there.
pub open spec fn tree_copy_cleaned_up(
    t: Seq<Step>,
    error: FsOpError,
    to: Seq<char>,
    result: Result<(), FsOpError>,
) -> bool {
    &&& probe_steps(error) <= t.len()
    &&& exists|verdict: (FsOpError, bool)| #[trigger]
        assessed(t.take(probe_steps(error)), error, verdict) && if verdict.1 {
            exists|destroyed: bool, removed: Result<(), FsOpError>| #[trigger]
                tree_deleted(
                    t.skip(probe_steps(error)),
                    to,
                    0,
                    MAX_DELETE_ROUNDS as int,
                    false,
                    destroyed,
                    removed,
                ) && result == Err::<(), FsOpError>(cleanup_report(verdict.0, removed))
        } else {
            t.len() == probe_steps(error) && result == Err::<(), FsOpError>(verdict.0)
        }
}

/// Copying a tree and removing its source.
pub open spec fn tree_moved(
    t: Seq<Step>,
    from: Seq<char>,
    to: Seq<char>,
    result: Result<(), FsOpError>,
) -> bool {
    exists|k: int, copied: Result<(), FsOpError>|
        {
            &&& 0 <= k <= t.len()
            &&& #[trigger] tree_copied(t.take(k), from, to, 0, copied)
            &&& match copied {
                Err(error) => tree_copy_cleaned_up(t.skip(k), error, to, result),
                Ok(_) => source_tree_removed(t.skip(k), from, to, result),
            }
        }
}

/// Moving a folder: nothing is copied before the whole tree was found removable.
pub open spec fn folder_moved(
    t: Seq<Step>,
    from: Seq<char>,
    to: Seq<char>,
    result: Result<(), FsOpError>,
) -> bool {
    exists|k: int, checked: Result<(), FsOpError>|
        {
            &&& 0 <= k <= t.len()
            &&& #[trigger] subtree_checked(t.take(k), from, 0, checked)
            &&& if checked is Err {
                k == t.len() && result == checked
            } else {
                tree_moved(t.skip(k), from, to, result)
            }
        }
}

/// Moving the entry at `from` to `to`, whose last components have the given 8.3
/// forms. Names without case: a move onto itself changes nothing. The destination
/// must not exist.
pub open spec fn entry_moved(
    t: Seq<Step>,
    from: Seq<char>,
    to: Seq<char>,
    from_form: Result<Seq<char>, NameFault>,
    to_form: Result<Seq<char>, NameFault>,
    result: Result<(), FsOpError>,
) -> bool {
    if from_form is Err {
        t.len() == 0 && result == Err::<(), FsOpError>(
            FsOpError::Fs(VolumeError::FilenameError(from_form->Err_0)),
        )
    } else if to_form is Err {
        t.len() == 0 && result == Err::<(), FsOpError>(
            FsOpError::Fs(VolumeError::FilenameError(to_form->Err_0)),
        )
    } else if same_but_for_case(parent_of(from), parent_of(to)) && from_form == to_form {
        &&& t.len() == 1
        &&& t[0] matches Step::Find { path, reply } && path == from && match reply {
            Ok(_) => result is Ok,
            Err(error) => result == Err::<(), FsOpError>(error),
        }
    } else if lies_inside(from, to) {
        t.len() == 0 && result == Err::<(), FsOpError>(FsOpError::MoveIntoSelf)
    } else {
        &&& t.len() >= 1
        &&& t[0] matches Step::Find { path, reply } && path == from && match reply {
            Err(error) => t.len() == 1 && result == Err::<(), FsOpError>(error),
            Ok(facts) => if facts.read_only {
                t.len() == 1 && result == read_only()
            } else {
                &&& t.len() >= 2
                &&& t[1] matches Step::Find { path: p, reply: there } && p == to && match there {
                    Ok(_) => t.len() == 2 && result == Err::<(), FsOpError>(
                        FsOpError::AlreadyExists,
                    ),
                    Err(error) => if !error.says_not_found() {
                        t.len() == 2 && result == Err::<(), FsOpError>(error)
                    } else if facts.directory {
                        folder_moved(t.skip(2), from, to, result)
                    } else {
                        file_moved(t.skip(2), from, to, result)
                    },
                }
            },
        }
    }
}

/// The look after a delete. It is advisory: the removal was already confirmed.
pub open spec fn delete_confirmed(
    t: Seq<Step>,
    path: Seq<char>,
    result: Result<(), FsOpError>,
) -> bool {
    &&& t.len() == 1
    &&& t[0] matches Step::Find { path: p, reply } && p == path && if reply is Ok {
        result == Err::<(), FsOpError>(
            FsOpError::DeleteIncomplete(Box::new(FsOpError::VerifyFailed)),
        )
    } else {
        result is Ok
    }
}

/// The report of a failed tree removal: once anything was destroyed it is
/// incomplete, never a refusal.
pub open spec fn tree_delete_report(error: FsOpError, destroyed: bool) -> FsOpError {
    if destroyed && !(error is DeleteIncomplete) {
        FsOpError::DeleteIncomplete(Box::new(error))
    } else {
        error
    }
}

/// Removing a tree that was found removable.
pub open spec fn checked_tree_deleted(
    t: Seq<Step>,
    path: Seq<char>,
    result: Result<(), FsOpError>,
) -> bool {
    exists|k: int, destroyed: bool, removed: Result<(), FsOpError>|
        {
            &&& 0 <= k <= t.len()
            &&& #[trigger] tree_deleted(
                t.take(k),
                path,
                0,
                MAX_DELETE_ROUNDS as int,
                false,
                destroyed,
                removed,
            )
            &&& match removed {
                Err(error) => k == t.len() && result == Err::<(), FsOpError>(
                    tree_delete_report(error, destroyed),
                ),
                Ok(_) => delete_confirmed(t.skip(k), path, result),
            }
        }
}

/// Deleting a folder: nothing is removed before the whole tree was found
/// removable.
pub open spec fn folder_deleted(
    t: Seq<Step>,
    path: Seq<char>,
    result: Result<(), FsOpError>,
) -> bool {
    exists|k: int, checked: Result<(), FsOpError>|
        {
            &&& 0 <= k <= t.len()
            &&& #[trigger] subtree_checked(t.take(k), path, 0, checked)
            &&& if checked is Err {
                k == t.len() && result == checked
            } else {
                checked_tree_deleted(t.skip(k), path, result)
            }
        }
}

/// What stands in the way of deleting an entry as a folder or as a file.
pub open spec fn delete_refusal(facts: EntryFacts, is_dir: bool) -> Option<FsOpError> {
    if facts.directory != is_dir {
        Some(
            if is_dir {
                FsOpError::NotADirectory
            } else {
                FsOpError::IsADirectory
            },
        )
    } else if facts.read_only {
        Some(FsOpError::Fs(VolumeError::ReadOnly))
    } else {
        None
    }
}

/// Deleting the entry at `path`, as a folder or as a file.
pub open spec fn entry_deleted_verified(
    t: Seq<Step>,
    path: Seq<char>,
    is_dir: bool,
    result: Result<(), FsOpError>,
) -> bool {
    &&& t.len() >= 1
    &&& t[0] matches Step::Find { path: p, reply } && p == path && match reply {
        Err(error) => t.len() == 1 && result == Err::<(), FsOpError>(error),
        Ok(facts) => match delete_refusal(facts, is_dir) {
            Some(error) => t.len() == 1 && result == Err::<(), FsOpError>(error),
            None => if is_dir {
                folder_deleted(t.skip(1), path, result)
            } else {
                &&& t.len() >= 2
                &&& t[1] matches Step::Delete { path: q, reply: removed } && q == path
                    && match removed {
                    Err(error) => t.len() == 2 && result == Err::<(), FsOpError>(error),
                    Ok(_) => delete_confirmed(t.skip(2), path, result),
                }
            },
        },
    }
}

fn wrap_source_delete_failure(error: FsOpError) -> (report: FsOpError)
    ensures
        report == source_report(error),
{
    if matches!(error, FsOpError::DeleteIncomplete(_)) {
        error
    } else {
        FsOpError::SourceRemains(Box::new(error))
    }
}

impl<M: VolumeAccess> Session<M> {
    fn confirm_move(&mut self, from: &str, to: &str) -> (result: Result<(), FsOpError>)
        requires
            old(self).wf(),
        ensures
            final(self).follows(old(self)),
            move_confirmed(since(old(self).steps(), final(self).steps()), from@, to@, result),
    {
        let ghost first = *self;
        let source = self.find_entry(from);
        let ghost look = Step::Find { path: from@, reply: source };
        let ghost looked = *self;
        if source.is_ok() {
            return Err(FsOpError::SourceRemains(Box::new(FsOpError::VerifyFailed)));
        }
        let target = self.find_entry(to);
        proof {
            let second = Step::Find { path: to@, reply: target };
            one_more(first.steps(), looked.steps(), second);
            assert(since(first.steps(), self.steps()) =~= seq![look, second]);
        }
        match target {
            Ok(_) => Ok(()),
            Err(error) => if error.is_not_found() {
                Err(FsOpError::VerifyFailed)
            } else {
                Ok(())
            },
        }
    }

    fn remove_source_file(&mut self, from: &str, to: &str) -> (result: Result<(), FsOpError>)
        requires
            old(self).wf(),
        ensures
            final(self).follows(old(self)),
            source_file_removed(since(old(self).steps(), final(self).steps()), from@, to@, result),
    {
        let ghost first = *self;
        let removed = self.delete_file_at(from);
        let ghost delete = Step::Delete { path: from@, reply: removed };
        let ghost deleted = *self;
        match removed {
            Err(error) => return Err(wrap_source_delete_failure(error)),
            Ok(()) => {},
        }
        let result = self.confirm_move(from, to);
        proof {
            cut(first.steps(), deleted.steps(), self.steps());
            let t = since(first.steps(), self.steps());
            assert(t[0] == t.take(1)[0]);
        }
        result
    }

    fn move_file(&mut self, from: &str, to: &str) -> (result: Result<(), FsOpError>)
        requires
            old(self).wf(),
        ensures
            final(self).follows(old(self)),
            file_moved(since(old(self).steps(), final(self).steps()), from@, to@, result),
    {
        let ghost first = *self;
        let copied = self.copy_file_verified(from, to);
        let ghost outcome = copied;
        let ghost middle = *self;
        let ghost k = since(first.steps(), middle.steps()).len() as int;
        proof {
            whole_stretch(since(first.steps(), middle.steps()));
            assert(file_copied_safely(
                since(first.steps(), middle.steps()).take(k),
                from@,
                to@,
                outcome,
            ));
        }
        if copied.is_err() {
            return copied;
        }
        let result = self.remove_source_file(from, to);
        proof {
            cut(first.steps(), middle.steps(), self.steps());
            assert(file_copied_safely(
                since(first.steps(), self.steps()).take(k),
                from@,
                to@,
                outcome,
            ));
        }
        result
    }

    fn remove_source_tree(&mut self, from: &str, to: &str) -> (result: Result<(), FsOpError>)
        requires
            old(self).wf(),
        ensures
            final(self).follows(old(self)),
            source_tree_removed(since(old(self).steps(), final(self).steps()), from@, to@, result),
    {
        let ghost first = *self;
        let (removed, destroyed) = self.delete_recursive(from, 0, false);
        let ghost outcome = removed;
        let ghost middle = *self;
        let ghost k = since(first.steps(), middle.steps()).len() as int;
        proof {
            whole_stretch(since(first.steps(), middle.steps()));
            assert(tree_deleted(
                since(first.steps(), middle.steps()).take(k),
                from@,
                0,
                MAX_DELETE_ROUNDS as int,
                false,
                destroyed,
                outcome,
            ));
        }
        match removed {
            Err(error) => return Err(wrap_source_delete_failure(error)),
            Ok(()) => {},
        }
        let result = self.confirm_move(from, to);
        proof {
            cut(first.steps(), middle.steps(), self.steps());
            assert(tree_deleted(
                since(first.steps(), self.steps()).take(k),
                from@,
                0,
                MAX_DELETE_ROUNDS as int,
                false,
                destroyed,
                outcome,
            ));
        }
        result
    }

    fn clean_up_tree_copy(&mut self, error: FsOpError, to: &str) -> (result: Result<(), FsOpError>)
        requires
            old(self).wf(),
        ensures
            final(self).follows(old(self)),
            tree_copy_cleaned_up(
                since(old(self).steps(), final(self).steps()),
                error,
                to@,
                result,
            ),
    {
        let ghost first = *self;
        let ghost failure = error;
        let ghost k = probe_steps(error);
        let (error, rollback) = self.assess_failure(error);
        let ghost verdict = (error, rollback);
        let ghost middle = *self;
        proof {
            whole_stretch(since(first.steps(), middle.steps()));
            assert(assessed(since(first.steps(), middle.steps()).take(k), failure, verdict));
        }
        if !rollback {
            return Err(error);
        }
        let (removed, destroyed) = self.delete_recursive(to, 0, false);
        proof {
            cut(first.steps(), middle.steps(), self.steps());
            let t = since(first.steps(), self.steps());
            assert(assessed(t.take(k), failure, verdict));
            assert(tree_deleted(
                t.skip(k),
                to@,
                0,
                MAX_DELETE_ROUNDS as int,
                false,
                destroyed,
                removed,
            ));
        }
        Err(report_cleanup(error, removed))
    }

    fn move_tree(&mut self, from: &str, to: &str) -> (result: Result<(), FsOpError>)
        requires
            old(self).wf(),
        ensures
            final(self).follows(old(self)),
            tree_moved(since(old(self).steps(), final(self).steps()), from@, to@, result),
    {
        let ghost first = *self;
        let copied = self.copy_dir_recursive(from, to, 0);
        let ghost outcome = copied;
        let ghost middle = *self;
        let ghost k = since(first.steps(), middle.steps()).len() as int;
        let result = match copied {
            Err(error) => self.clean_up_tree_copy(error, to),
            Ok(()) => self.remove_source_tree(from, to),
        };
        proof {
            cut(first.steps(), middle.steps(), self.steps());
            assert(tree_copied(since(first.steps(), self.steps()).take(k), from@, to@, 0, outcome));
        }
        result
    }

    fn move_folder(&mut self, from: &str, to: &str) -> (result: Result<(), FsOpError>)
        requires
            old(self).wf(),
        ensures
            final(self).follows(old(self)),
            folder_moved(since(old(self).steps(), final(self).steps()), from@, to@, result),
    {
        let ghost first = *self;
        let checked = self.check_subtree_mutable(from, 0);
        let ghost outcome = checked;
        let ghost middle = *self;
        let ghost k = since(first.steps(), middle.steps()).len() as int;
        proof {
            whole_stretch(since(first.steps(), middle.steps()));
            assert(subtree_checked(
                since(first.steps(), middle.steps()).take(k),
                from@,
                0,
                outcome,
            ));
        }
        if checked.is_err() {
            return checked;
        }
        let result = self.move_tree(from, to);
        proof {
            cut(first.steps(), middle.steps(), self.steps());
            assert(subtree_checked(since(first.steps(), self.steps()).take(k), from@, 0, outcome));
        }
        result
    }

    /// Move the entry at `from` to `to`, given the 8.3 forms of the two names.
    pub fn move_entry_named(
        &mut self,
        from: &str,
        to: &str,
        from_form: &Result<String, NameFault>,
        to_form: &Result<String, NameFault>,
    ) -> (result: Result<(), FsOpError>)
        requires
            old(self).wf(),
        ensures
            final(self).follows(old(self)),
            entry_moved(
                since(old(self).steps(), final(self).steps()),
                from@,
                to@,
                short_form_view(*from_form),
                short_form_view(*to_form),
                result,
            ),
    {
        let ghost first = *self;
        proof {
            no_more(self.steps());
            no_more(self.calls());
        }
        let from_parent = parent_path(from);
        let to_parent = parent_path(to);
        let from_short = match from_form {
            Ok(short) => short,
            Err(fault) => return Err(FsOpError::Fs(VolumeError::FilenameError(*fault))),
        };
        let to_short = match to_form {
            Ok(short) => short,
            Err(fault) => return Err(FsOpError::Fs(VolumeError::FilenameError(*fault))),
        };
        let same_parent = equal_ignoring_case(
            &chars_of(from_parent.as_str()),
            &chars_of(to_parent.as_str()),
        );
        if same_parent && same_text(from_short.as_str(), to_short.as_str()) {
            return match self.find_entry(from) {
                Ok(_) => Ok(()),
                Err(error) => Err(error),
            };
        }
        if path_is_inside(from, to) {
            return Err(FsOpError::MoveIntoSelf);
        }
        let source = self.find_entry(from);
        let ghost look = Step::Find { path: from@, reply: source };
        let ghost looked = *self;
        let facts = match source {
            Ok(facts) => facts,
            Err(error) => return Err(error),
        };
        if facts.read_only {
            return Err(FsOpError::Fs(VolumeError::ReadOnly));
        }
        let there = self.find_entry(to);
        let ghost second = Step::Find { path: to@, reply: there };
        let ghost free = *self;
        proof {
            one_more(first.steps(), looked.steps(), second);
            assert(since(first.steps(), free.steps()) =~= seq![look, second]);
        }
        match there {
            Ok(_) => return Err(FsOpError::AlreadyExists),
            Err(error) => if !error.is_not_found() {
                return Err(error);
            },
        }
        let result = if facts.directory {
            self.move_folder(from, to)
        } else {
            self.move_file(from, to)
        };
        proof {
            cut(first.steps(), free.steps(), self.steps());
            let t = since(first.steps(), self.steps());
            assert(t[0] == t.take(2)[0] && t[1] == t.take(2)[1]);
        }
        result
    }

    /// Rename or move an entry. There is no renaming on the card, so the entry is
    /// copied to its new name, folders with all they hold, and then the source is
    /// deleted. The destination is never replaced.
    pub fn move_entry(&mut self, from: &str, to: &str) -> (result: Result<(), FsOpError>)
        requires
            old(self).wf(),
        ensures
            final(self).follows(old(self)),
            entry_moved(
                since(old(self).steps(), final(self).steps()),
                from@,
                to@,
                short_form(leaf_of(from@)),
                short_form(leaf_of(to@)),
                result,
            ),
    {
        let from_form = short_name(leaf_name(from));
        let to_form = short_name(leaf_name(to));
        self.move_entry_named(from, to, &from_form, &to_form)
    }

    fn confirm_delete(&mut self, path: &str) -> (result: Result<(), FsOpError>)
        requires
            old(self).wf(),
        ensures
            final(self).follows(old(self)),
            delete_confirmed(since(old(self).steps(), final(self).steps()), path@, result),
    {
        match self.find_entry(path) {
            Ok(_) => Err(FsOpError::DeleteIncomplete(Box::new(FsOpError::VerifyFailed))),
            Err(_) => Ok(()),
        }
    }

    fn delete_checked_tree(&mut self, path: &str) -> (result: Result<(), FsOpError>)
        requires
            old(self).wf(),
        ensures
            final(self).follows(old(self)),
            checked_tree_deleted(since(old(self).steps(), final(self).steps()), path@, result),
    {
        let ghost first = *self;
        let (removed, destroyed) = self.delete_recursive(path, 0, false);
        let ghost outcome = removed;
        let ghost middle = *self;
        let ghost k = since(first.steps(), middle.steps()).len() as int;
        proof {
            whole_stretch(since(first.steps(), middle.steps()));
            assert(tree_deleted(
                since(first.steps(), middle.steps()).take(k),
                path@,
                0,
                MAX_DELETE_ROUNDS as int,
                false,
                destroyed,
                outcome,
            ));
        }
        match removed {
            Err(error) => {
                if destroyed && !matches!(error, FsOpError::DeleteIncomplete(_)) {
                    return Err(FsOpError::DeleteIncomplete(Box::new(error)));
                }
                return Err(error);
            },
            Ok(()) => {},
        }
        let result = self.confirm_delete(path);
        proof {
            cut(first.steps(), middle.steps(), self.steps());
            assert(tree_deleted(
                since(first.steps(), self.steps()).take(k),
                path@,
                0,
                MAX_DELETE_ROUNDS as int,
                false,
                destroyed,
                outcome,
            ));
        }
        result
    }

    fn delete_folder(&mut self, path: &str) -> (result: Result<(), FsOpError>)
        requires
            old(self).wf(),
        ensures
            final(self).follows(old(self)),
            folder_deleted(since(old(self).steps(), final(self).steps()), path@, result),
    {
        let ghost first = *self;
        let checked = self.check_subtree_mutable(path, 0);
        let ghost outcome = checked;
        let ghost middle = *self;
        let ghost k = since(first.steps(), middle.steps()).len() as int;
        proof {
            whole_stretch(since(first.steps(), middle.steps()));
            assert(subtree_checked(
                since(first.steps(), middle.steps()).take(k),
                path@,
                0,
                outcome,
            ));
        }
        if checked.is_err() {
            return checked;
        }
        let result = self.delete_checked_tree(path);
        proof {
            cut(first.steps(), middle.steps(), self.steps());
            assert(subtree_checked(since(first.steps(), self.steps()).take(k), path@, 0, outcome));
        }
        result
    }

    /// Delete the entry at `path`, which the caller takes for a folder or a file.
    pub fn delete_entry(&mut self, path: &str, is_dir: bool) -> (result: Result<(), FsOpError>)
        requires
            old(self).wf(),
        ensures
            final(self).follows(old(self)),
            entry_deleted_verified(
                since(old(self).steps(), final(self).steps()),
                path@,
                is_dir,
                result,
            ),
    {
        let ghost first = *self;
        let found = self.find_entry(path);
        let ghost look = Step::Find { path: path@, reply: found };
        let ghost looked = *self;
        let facts = match found {
            Ok(facts) => facts,
            Err(error) => return Err(error),
        };
        if facts.directory != is_dir {
            return Err(
                if is_dir {
                    FsOpError::NotADirectory
                } else {
                    FsOpError::IsADirectory
                },
            );
        }
        if facts.read_only {
            return Err(FsOpError::Fs(VolumeError::ReadOnly));
        }
        if is_dir {
            let result = self.delete_folder(path);
            proof {
                cut(first.steps(), looked.steps(), self.steps());
                let t = since(first.steps(), self.steps());
                assert(t[0] == t.take(1)[0]);
            }
            return result;
        }
        let removed = self.delete_file_at(path);
        let ghost delete = Step::Delete { path: path@, reply: removed };
        let ghost deleted = *self;
        proof {
            one_more(first.steps(), looked.steps(), delete);
            assert(since(first.steps(), deleted.steps()) =~= seq![look, delete]);
        }
        match removed {
            Err(error) => return Err(error),
            Ok(()) => {},
        }
        let result = self.confirm_delete(path);
        proof {
            cut(first.steps(), deleted.steps(), self.steps());
            let t = since(first.steps(), self.steps());
            assert(t[0] == t.take(2)[0] && t[1] == t.take(2)[1]);
        }
        result
    }
}

} // verus!
