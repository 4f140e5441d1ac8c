//! Copying, removing and checking whole folder trees.
use vstd::prelude::*;

use crate::errors::{FsOpError, VolumeError};
use crate::files::whole_stretch;
use crate::names::{join_path, joined_path};
use crate::session::{follow_on, stays, ChildEntry, Session, Step};
use crate::storage::{cut, no_more, one_more, since};
use crate::volume::{scanned, EntryRecord, OpenMode, ScanRule, ScanRuleView, VolumeAccess};

verus! {

broadcast use {follow_on, stays};

/// Children fetched per walk over a folder.
pub const CHILD_BATCH: usize = 32;

/// Deepest nesting that is walked.
pub const MAX_TREE_DEPTH: usize = 32;

/// Rounds after which the removal of a folder's children ends at the latest. Each round
/// removes a child or fails, and no card that can be addressed holds as many entries: only
/// one that answered for longer than any device lasts could come to the end of them.
pub const MAX_DELETE_ROUNDS: u64 = 0xffff_ffff_ffff_ffff;

/// The failure of nesting beyond [`MAX_TREE_DEPTH`].
pub open spec fn too_deep() -> Result<(), FsOpError> {
    Err(FsOpError::TooDeep)
}

/// The refusal to touch a read-only entry.
pub open spec fn read_only() -> Result<(), FsOpError> {
    Err(FsOpError::Fs(VolumeError::ReadOnly))
}

pub open spec fn child_of(entry: EntryRecord) -> ChildEntry {
    ChildEntry { name: entry.name, is_dir: entry.directory, read_only: entry.read_only }
}

/// The children that a walk with `skip` yields, and whether more follow.
pub open spec fn children_found(visited: Seq<EntryRecord>, skip: usize) -> (Seq<ChildEntry>, bool) {
    let state = scanned(ScanRuleView::Children { skip, limit: CHILD_BATCH }, visited);
    (Seq::new(state.kept.len(), |i: int| child_of(state.kept[i])), state.over)
}

/// Fetching children of the folder at `path` after the first `skip`.
pub open spec fn children_listed(
    step: Step,
    path: Seq<char>,
    skip: int,
    result: Result<(Seq<ChildEntry>, bool), FsOpError>,
) -> bool {
    step matches Step::Scan { path: p, rule, reply } && {
        &&& p == path
        &&& rule matches ScanRuleView::Children { skip: s, limit } && {
            &&& s == skip
            &&& limit == CHILD_BATCH
            &&& result == match reply {
                Ok(visited) => Ok(children_found(visited, s)),
                Err(error) => Err(error),
            }
        }
    }
}

/// A mere mark: it always holds, and names the end and the outcome of a part of an
/// operation for the relations below.
pub open spec fn mark_end(k: int, outcome: Result<(), FsOpError>) -> bool {
    true
}

/// Looking for entries below `path` that could not be removed: read-only ones, and
/// nesting that is too deep. From the children after the first `skip` on.
pub open spec fn tree_checked(
    t: Seq<Step>,
    path: Seq<char>,
    depth: int,
    skip: int,
    result: Result<(), FsOpError>,
) -> bool
    decreases MAX_TREE_DEPTH - depth, t.len(), 0int,
{
    if depth >= MAX_TREE_DEPTH {
        t.len() == 0 && result == too_deep()
    } else {
        t.len() >= 1 && exists|listed: Result<(Seq<ChildEntry>, bool), FsOpError>| #[trigger]
            children_listed(t[0], path, skip, listed) && match listed {
                Err(error) => t.len() == 1 && result == Err::<(), FsOpError>(error),
                Ok((batch, more)) => children_checked(
                    t.skip(1),
                    path,
                    depth,
                    batch,
                    0,
                    more,
                    skip + batch.len(),
                    result,
                ),
            }
    }
}

/// Checking `batch[i..]`, and then what follows it.
pub open spec fn children_checked(
    t: Seq<Step>,
    path: Seq<char>,
    depth: int,
    batch: Seq<ChildEntry>,
    i: int,
    more: bool,
    next: int,
    result: Result<(), FsOpError>,
) -> bool
    decreases MAX_TREE_DEPTH - depth, t.len(), batch.len() - i + 1,
{
    if depth >= MAX_TREE_DEPTH || i > batch.len() {
        false
    } else if i == batch.len() {
        if more && batch.len() > 0 {
            tree_checked(t, path, depth, next, result)
        } else {
            t.len() == 0 && result is Ok
        }
    } else if batch[i].read_only {
        t.len() == 0 && result == read_only()
    } else if batch[i].is_dir {
        exists|k: int, outcome: Result<(), FsOpError>|
            #[trigger] mark_end(k, outcome) && 0 <= k <= t.len() && subtree_checked(
                t.take(k),
                joined_path(path, batch[i].name@),
                depth + 1,
                outcome,
            ) && if outcome is Err {
                k == t.len() && result == outcome
            } else {
                children_checked(t.skip(k), path, depth, batch, i + 1, more, next, result)
            }
    } else {
        children_checked(t, path, depth, batch, i + 1, more, next, result)
    }
}

/// Checking a whole subtree.
pub open spec fn subtree_checked(
    t: Seq<Step>,
    path: Seq<char>,
    depth: int,
    result: Result<(), FsOpError>,
) -> bool
    decreases MAX_TREE_DEPTH - depth, t.len(), 1int,
{
    tree_checked(t, path, depth, 0, result)
}

proof fn children_are_counted(skip: usize, limit: usize, visited: Seq<EntryRecord>)
    ensures
        ({
            let state = scanned(ScanRuleView::Children { skip, limit }, visited);
            &&& 0 <= state.seen <= usize::MAX
            &&& state.kept.len() > 0 ==> state.seen == skip + state.kept.len()
            &&& state.seen <= skip || state.kept.len() == state.seen - skip
            &&& state.kept.len() <= limit
        }),
    decreases visited.len(),
{
    if visited.len() > 0 {
        children_are_counted(skip, limit, visited.drop_last());
    }
}

/// The children of a result.
pub open spec fn children_view(result: Result<(Vec<ChildEntry>, bool), FsOpError>) -> Result<
    (Seq<ChildEntry>, bool),
    FsOpError,
> {
    match result {
        Ok((batch, more)) => Ok((batch@, more)),
        Err(error) => Err(error),
    }
}

impl<M: VolumeAccess> Session<M> {
    /// Some children of the folder at `path`, after the first `skip`, and whether
    /// more follow. The dot entries are not among them, so no walk goes in circles.
    pub fn list_children_bounded(&mut self, path: &str, skip: usize) -> (result: Result<
        (Vec<ChildEntry>, bool),
        FsOpError,
    >)
        requires
            old(self).wf(),
        ensures
            final(self).follows(old(self)),
            final(self).steps().len() == old(self).steps().len() + 1,
            final(self).steps() == old(self).steps().push(final(self).steps().last()),
            children_listed(final(self).steps().last(), path@, skip as int, children_view(result)),
            result matches Ok((batch, _)) ==> skip + batch@.len() <= usize::MAX && batch@.len()
                <= CHILD_BATCH,
    {
        let scan = match self.scan(path, ScanRule::Children { skip, limit: CHILD_BATCH }) {
            Ok(scan) => scan,
            Err(error) => return Err(error),
        };
        let ghost visited = scan.visited();
        let ghost rule = scan.rule();
        let (_seen, kept, more) = scan.into_parts();
        let mut batch: Vec<ChildEntry> = Vec::new();
        for i in 0..kept.len()
            invariant
                batch@.len() == i,
                forall|j: int| 0 <= j < i ==> #[trigger] batch@[j] == child_of(kept@[j]),
        {
            batch.push(
                ChildEntry {
                    name: kept[i].name.clone(),
                    is_dir: kept[i].directory,
                    read_only: kept[i].read_only,
                },
            );
        }
        proof {
            children_are_counted(skip, CHILD_BATCH, visited);
            assert(batch@ =~= children_found(visited, skip).0);
        }
        Ok((batch, more))
    }

    /// Refuse changes to a subtree that would fail midway.
    pub fn check_subtree_mutable(&mut self, path: &str, depth: usize) -> (result: Result<
        (),
        FsOpError,
    >)
        requires
            old(self).wf(),
        ensures
            final(self).follows(old(self)),
            subtree_checked(
                since(old(self).steps(), final(self).steps()),
                path@,
                depth as int,
                result,
            ),
        decreases MAX_TREE_DEPTH - depth,
    {
        let ghost start = self.steps();
        let ghost first = *self;
        let ghost d = depth as int;
        proof {
            no_more(start);
            no_more(self.calls());
        }
        if depth >= MAX_TREE_DEPTH {
            return Err(FsOpError::TooDeep);
        }
        let mut skip: usize = 0;
        proof {
            assert forall|rest: Seq<Step>, r: Result<(), FsOpError>|
                tree_checked(rest, path@, d, 0, r) implies #[trigger] subtree_checked(
                since(start, self.steps()) + rest,
                path@,
                d,
                r,
            ) by {
                assert(since(start, self.steps()) + rest =~= rest);
            }
        }
        loop
            invariant
                first == *old(self),
                start == first.steps(),
                self.follows(&first),
                d == depth < MAX_TREE_DEPTH,
                forall|rest: Seq<Step>, r: Result<(), FsOpError>|
                    tree_checked(rest, path@, d, skip as int, r) ==> #[trigger] subtree_checked(
                        since(start, self.steps()) + rest,
                        path@,
                        d,
                        r,
                    ),
            decreases usize::MAX - skip,
        {
            let ghost before = self.steps();
            let ghost had = skip as int;
            let listed = self.list_children_bounded(path, skip);
            let ghost seen = children_view(listed);
            let ghost step = self.steps().last();
            proof {
                one_more(start, before, step);
            }
            let (batch, more) = match listed {
                Err(error) => {
                    proof {
                        assert(children_listed(seq![step][0], path@, had, seen));
                        assert(tree_checked(seq![step], path@, d, had, Err(error)));
                    }
                    return Err(error);
                },
                Ok(pair) => pair,
            };
            let ghost all = batch@;
            let next: usize = skip + batch.len();
            proof {
                assert forall|rest: Seq<Step>, r: Result<(), FsOpError>|
                    children_checked(rest, path@, d, all, 0, more, next as int, r)
                    implies #[trigger] subtree_checked(
                    since(start, self.steps()) + rest,
                    path@,
                    d,
                    r,
                ) by {
                    let longer = seq![step] + rest;
                    assert(longer.skip(1) =~= rest);
                    assert(children_listed(longer[0], path@, had, seen));
                    assert(tree_checked(longer, path@, d, had, r));
                    assert(since(start, before) + longer =~= since(start, self.steps()) + rest);
                }
            }
            let mut i: usize = 0;
            while i < batch.len()
                invariant
                    first == *old(self),
                    start == first.steps(),
                    self.follows(&first),
                    d == depth < MAX_TREE_DEPTH,
                    all == batch@,
                    i <= all.len(),
                    forall|rest: Seq<Step>, r: Result<(), FsOpError>|
                        children_checked(rest, path@, d, all, i as int, more, next as int, r)
                            ==> #[trigger] subtree_checked(
                            since(start, self.steps()) + rest,
                            path@,
                            d,
                            r,
                        ),
                decreases batch@.len() - i,
            {
                let ghost at = i as int;
                let ghost none = Seq::<Step>::empty();
                if batch[i].read_only {
                    let error = FsOpError::Fs(VolumeError::ReadOnly);
                    proof {
                        assert(children_checked(
                            none,
                            path@,
                            d,
                            all,
                            at,
                            more,
                            next as int,
                            Err(error),
                        ));
                        assert(since(start, self.steps()) + none =~= since(start, self.steps()));
                    }
                    return Err(error);
                }
                if batch[i].is_dir {
                    let ghost entered = *self;
                    let below = join_path(path, batch[i].name.as_str());
                    let outcome = self.check_subtree_mutable(below.as_str(), depth + 1);
                    let ghost ended = outcome;
                    let ghost t = since(entered.steps(), self.steps());
                    let ghost k = t.len() as int;
                    proof {
                        cut(start, entered.steps(), self.steps());
                        whole_stretch(t);
                        assert(since(start, self.steps()) =~= since(start, entered.steps()) + t);
                        assert(mark_end(k, ended));
                    }
                    match outcome {
                        Err(error) => {
                            assert(children_checked(
                                t,
                                path@,
                                d,
                                all,
                                at,
                                more,
                                next as int,
                                Err(error),
                            ));
                            return Err(error);
                        },
                        Ok(()) => {},
                    }
                    proof {
                        assert forall|rest: Seq<Step>, r: Result<(), FsOpError>|
                            children_checked(rest, path@, d, all, at + 1, more, next as int, r)
                            implies #[trigger] subtree_checked(
                            since(start, self.steps()) + rest,
                            path@,
                            d,
                            r,
                        ) by {
                            let longer = t + rest;
                            assert(longer.take(k) =~= t.take(k));
                            assert(longer.skip(k) =~= rest);
                            assert(mark_end(k, ended));
                            assert(children_checked(
                                longer,
                                path@,
                                d,
                                all,
                                at,
                                more,
                                next as int,
                                r,
                            ));
                            assert(since(start, entered.steps()) + longer =~= since(
                                start,
                                self.steps(),
                            ) + rest);
                        }
                    }
                }
                i = i + 1;
            }
            if !more || batch.len() == 0 {
                let result: Result<(), FsOpError> = Ok(());
                proof {
                    let none = Seq::<Step>::empty();
                    assert(children_checked(
                        none,
                        path@,
                        d,
                        all,
                        i as int,
                        more,
                        next as int,
                        result,
                    ));
                    assert(since(start, self.steps()) + none =~= since(start, self.steps()));
                }
                return result;
            }
            skip = next;
        }
    }
}

/// A failure after which nothing more is changed on the card: the device failed or
/// may have, destruction is under way, or the step proved to have created nothing.
pub open spec fn forbids_rollback(error: FsOpError) -> bool {
    match error {
        FsOpError::Fs(report) => report is DeviceError || report is AllocationError,
        FsOpError::DeviceUnresponsive => true,
        FsOpError::DeleteIncomplete(_) => true,
        FsOpError::CleanupIncomplete(_) => true,
        FsOpError::SourceRemains(_) => true,
        FsOpError::AlreadyExists => true,
        _ => false,
    }
}

/// The filesystem layer masks device faults as a full disk, so that report is put
/// to the test.
pub open spec fn asks_for_probe(error: FsOpError) -> bool {
    error matches FsOpError::Fs(VolumeError::DiskFull)
}

/// The failure to report, and whether rollback may follow, given whether the card
/// answered a probe where one was asked for.
pub open spec fn assessment(error: FsOpError, answers: bool) -> (FsOpError, bool) {
    if forbids_rollback(error) {
        (error, false)
    } else if asks_for_probe(error) && !answers {
        (FsOpError::DeviceUnresponsive, false)
    } else {
        (error, true)
    }
}

/// Assessing a failure: at most one step, the probe.
pub open spec fn assessed(t: Seq<Step>, error: FsOpError, verdict: (FsOpError, bool)) -> bool {
    if asks_for_probe(error) {
        &&& t.len() == 1
        &&& t[0] matches Step::Probe { answers } && verdict == assessment(error, answers)
    } else {
        t.len() == 0 && verdict == assessment(error, true)
    }
}

/// What is reported of a failed copy once its partial destination was removed. A
/// destination that was never created is no failure of the removal.
pub open spec fn cleanup_report(error: FsOpError, removed: Result<(), FsOpError>) -> FsOpError {
    match removed {
        Ok(_) => error,
        Err(failure) => if failure.says_not_found() {
            error
        } else {
            FsOpError::CleanupIncomplete(Box::new(error))
        },
    }
}

/// Steps that assessing a failure takes.
pub open spec fn probe_steps(error: FsOpError) -> int {
    if asks_for_probe(error) { 1 } else { 0 }
}

/// Assessing the failure of a copy to `to`, and removing what it left there.
pub open spec fn copy_cleaned_up(
    t: Seq<Step>,
    error: FsOpError,
    to: Seq<char>,
    result: Result<(), FsOpError>,
) -> bool {
    &&& probe_steps(error) <= t.len()
    &&& exists|verdict: (FsOpError, bool)| #[trigger]
        assessed(t.take(probe_steps(error)), error, verdict) && if verdict.1 {
            &&& t.len() == probe_steps(error) + 1
            &&& t.last() matches Step::Delete { path, reply: removed } && path == to && result == Err::<
                (),
                FsOpError,
            >(cleanup_report(verdict.0, removed))
        } else {
            t.len() == probe_steps(error) && result == Err::<(), FsOpError>(verdict.0)
        }
}

/// Copying a file to a new name, and removing a partial destination.
pub open spec fn file_copied_safely(
    t: Seq<Step>,
    from: Seq<char>,
    to: Seq<char>,
    result: Result<(), FsOpError>,
) -> bool {
    &&& t.len() >= 1
    &&& t[0] matches Step::Copy { from: f, to: g, mode, reply } && {
        &&& f == from
        &&& g == to
        &&& mode == OpenMode::ReadWriteCreate
        &&& match reply {
            Ok(_) => t.len() == 1 && result is Ok,
            Err(error) => copy_cleaned_up(t.skip(1), error, to, result),
        }
    }
}

/// Copying a folder tree to a new name. The source is only read, so its children
/// can be paged through.
pub open spec fn tree_copied(
    t: Seq<Step>,
    from: Seq<char>,
    to: Seq<char>,
    depth: int,
    result: Result<(), FsOpError>,
) -> bool
    decreases MAX_TREE_DEPTH - depth, t.len(), 0int,
{
    if depth >= MAX_TREE_DEPTH {
        t.len() == 0 && result == too_deep()
    } else {
        &&& t.len() >= 1
        &&& t[0] matches Step::MakeFolder { path, reply } && path == to && match reply {
            Err(error) => t.len() == 1 && result == Err::<(), FsOpError>(error),
            Ok(_) => batches_copied(t.skip(1), from, to, depth, 0, result),
        }
    }
}

/// Copying the children after the first `skip`.
pub open spec fn batches_copied(
    t: Seq<Step>,
    from: Seq<char>,
    to: Seq<char>,
    depth: int,
    skip: int,
    result: Result<(), FsOpError>,
) -> bool
    decreases MAX_TREE_DEPTH - depth, t.len(), 0int,
{
    t.len() >= 1 && exists|listed: Result<(Seq<ChildEntry>, bool), FsOpError>| #[trigger]
        children_listed(t[0], from, skip, listed) && match listed {
            Err(error) => t.len() == 1 && result == Err::<(), FsOpError>(error),
            Ok((batch, more)) => children_copied(
                t.skip(1),
                from,
                to,
                depth,
                batch,
                0,
                more,
                skip + batch.len(),
                result,
            ),
        }
}

/// Copying `batch[i..]`, and then what follows it.
pub open spec fn children_copied(
    t: Seq<Step>,
    from: Seq<char>,
    to: Seq<char>,
    depth: int,
    batch: Seq<ChildEntry>,
    i: int,
    more: bool,
    next: int,
    result: Result<(), FsOpError>,
) -> bool
    decreases MAX_TREE_DEPTH - depth, t.len(), batch.len() - i + 1,
{
    if depth >= MAX_TREE_DEPTH || i > batch.len() {
        false
    } else if i == batch.len() {
        if more && batch.len() > 0 {
            batches_copied(t, from, to, depth, next, result)
        } else {
            t.len() == 0 && result is Ok
        }
    } else {
        let below = joined_path(from, batch[i].name@);
        let target = joined_path(to, batch[i].name@);
        exists|k: int, outcome: Result<(), FsOpError>|
            {
                &&& #[trigger] mark_end(k, outcome)
                &&& 0 <= k <= t.len()
                &&& if batch[i].is_dir {
                    tree_copied(t.take(k), below, target, depth + 1, outcome)
                } else {
                    file_copied_safely(t.take(k), below, target, outcome)
                }
                &&& if outcome is Err {
                    k == t.len() && result == outcome
                } else {
                    children_copied(t.skip(k), from, to, depth, batch, i + 1, more, next, result)
                }
            }
    }
}

/// The failure of a folder that still lists children after [`MAX_DELETE_ROUNDS`].
pub open spec fn never_empty() -> Result<(), FsOpError> {
    Err(FsOpError::Fs(VolumeError::DeleteNonEmptyDir))
}

/// Removing a folder tree, in at most `rounds` rounds: each fetches children from
/// the front, removes the files among them and then the folders, and when none is
/// left the folder itself goes. `before` and `after` say whether anything was
/// destroyed before and after.
pub open spec fn tree_deleted(
    t: Seq<Step>,
    path: Seq<char>,
    depth: int,
    rounds: int,
    before: bool,
    after: bool,
    result: Result<(), FsOpError>,
) -> bool
    decreases MAX_TREE_DEPTH - depth, t.len(), 0int,
{
    if depth >= MAX_TREE_DEPTH {
        t.len() == 0 && result == too_deep() && after == before
    } else if rounds <= 0 {
        t.len() == 0 && result == never_empty() && after == before
    } else {
        t.len() >= 1 && exists|listed: Result<(Seq<ChildEntry>, bool), FsOpError>| #[trigger]
            children_listed(t[0], path, 0, listed) && match listed {
                Err(error) => t.len() == 1 && result == Err::<(), FsOpError>(error) && after
                    == before,
                Ok((batch, _)) => if batch.len() == 0 {
                    &&& t.len() == 2
                    &&& t[1] matches Step::Delete { path: p, reply } && p == path && result == reply
                        && after == (before || reply is Ok)
                } else {
                    &&& t.len() >= 2
                    &&& t[1] matches Step::DeleteFiles { path: p, children, destroyed, reply } && {
                        &&& p == path
                        &&& children == batch
                        &&& if reply is Err {
                            t.len() == 2 && result == reply && after == (before || destroyed)
                        } else {
                            folders_deleted(
                                t.skip(2),
                                path,
                                depth,
                                batch,
                                0,
                                rounds - 1,
                                before || destroyed,
                                after,
                                result,
                            )
                        }
                    }
                },
            }
    }
}

/// Removing the folders among `batch[i..]`, and then what is left.
pub open spec fn folders_deleted(
    t: Seq<Step>,
    path: Seq<char>,
    depth: int,
    batch: Seq<ChildEntry>,
    i: int,
    rounds: int,
    before: bool,
    after: bool,
    result: Result<(), FsOpError>,
) -> bool
    decreases MAX_TREE_DEPTH - depth, t.len(), batch.len() - i + 1,
{
    if depth >= MAX_TREE_DEPTH || i > batch.len() {
        false
    } else if i == batch.len() {
        tree_deleted(t, path, depth, rounds, before, after, result)
    } else if !batch[i].is_dir {
        folders_deleted(t, path, depth, batch, i + 1, rounds, before, after, result)
    } else {
        exists|k: int, outcome: Result<(), FsOpError>, destroyed: bool|
            {
                &&& #[trigger] mark_removal_end(k, outcome, destroyed)
                &&& 0 <= k <= t.len()
                &&& tree_deleted(
                    t.take(k),
                    joined_path(path, batch[i].name@),
                    depth + 1,
                    MAX_DELETE_ROUNDS as int,
                    before,
                    destroyed,
                    outcome,
                )
                &&& if outcome is Err {
                    k == t.len() && result == outcome && after == destroyed
                } else {
                    folders_deleted(
                        t.skip(k),
                        path,
                        depth,
                        batch,
                        i + 1,
                        rounds,
                        destroyed,
                        after,
                        result,
                    )
                }
            }
    }
}

/// A mere mark: it always holds, and names the end of a part of a removal, its outcome and
/// whether something was destroyed, for the relation above.
pub open spec fn mark_removal_end(
    k: int,
    outcome: Result<(), FsOpError>,
    destroyed: bool,
) -> bool {
    true
}

/// What to report of a failed copy once its partial destination was removed.
pub fn report_cleanup(error: FsOpError, removed: Result<(), FsOpError>) -> (report: FsOpError)
    ensures
        report == cleanup_report(error, removed),
{
    match removed {
        Ok(()) => error,
        Err(failed) => if failed.is_not_found() {
            error
        } else {
            FsOpError::CleanupIncomplete(Box::new(error))
        },
    }
}

impl<M: VolumeAccess> Session<M> {
    /// Whether rollback may follow a failure, and the failure to report: one that
    /// the filesystem layer is known to mask is named for what it is.
    pub fn assess_failure(&mut self, error: FsOpError) -> (verdict: (FsOpError, bool))
        requires
            old(self).wf(),
        ensures
            final(self).follows(old(self)),
            assessed(since(old(self).steps(), final(self).steps()), error, verdict),
    {
        proof {
            no_more(self.steps());
            no_more(self.calls());
        }
        let refuse = matches!(
            error,
            FsOpError::Fs(VolumeError::DeviceError(_)) | FsOpError::Fs(VolumeError::AllocationError)
                | FsOpError::DeviceUnresponsive | FsOpError::DeleteIncomplete(_)
                | FsOpError::CleanupIncomplete(_) | FsOpError::SourceRemains(_)
                | FsOpError::AlreadyExists
        );
        if refuse {
            return (error, false);
        }
        if matches!(error, FsOpError::Fs(VolumeError::DiskFull)) {
            if !self.device_is_responding() {
                return (FsOpError::DeviceUnresponsive, false);
            }
        }
        (error, true)
    }

    /// Copy a file to a new name, and remove a partial destination where that is
    /// safe, so that a retry is not refused.
    pub fn copy_file_verified(&mut self, from: &str, to: &str) -> (result: Result<(), FsOpError>)
        requires
            old(self).wf(),
        ensures
            final(self).follows(old(self)),
            file_copied_safely(
                since(old(self).steps(), final(self).steps()),
                from@,
                to@,
                result,
            ),
    {
        let ghost start = self.steps();
        let ghost first = *self;
        let reply = self.copy_file_contents(from, to, OpenMode::ReadWriteCreate);
        let ghost copy = Step::Copy {
            from: from@,
            to: to@,
            mode: OpenMode::ReadWriteCreate,
            reply,
        };
        let ghost copied = *self;
        let error = match reply {
            Ok(()) => return Ok(()),
            Err(error) => error,
        };
        let ghost failure = error;
        let report = self.cleanup_partial_destination(error, to);
        proof {
            cut(start, copied.steps(), self.steps());
            let t = since(start, self.steps());
            assert(t[0] == t.take(1)[0]);
        }
        Err(report)
    }

    /// Assess the failure of a copy to `to`, remove what it left there where that is
    /// safe, and give the failure to report.
    pub fn cleanup_partial_destination(&mut self, error: FsOpError, to: &str) -> (report: FsOpError)
        requires
            old(self).wf(),
        ensures
            final(self).follows(old(self)),
            copy_cleaned_up(
                since(old(self).steps(), final(self).steps()),
                error,
                to@,
                Err(report),
            ),
    {
        let ghost first = *self;
        let ghost failure = error;
        let (error, rollback) = self.assess_failure(error);
        let ghost verdict = (error, rollback);
        let ghost judged = *self;
        let ghost probing = since(first.steps(), judged.steps());
        let ghost k = probe_steps(failure);
        proof {
            whole_stretch(probing);
            assert(assessed(probing.take(k), failure, verdict));
        }
        if !rollback {
            return error;
        }
        let removed = self.delete_file_at(to);
        let ghost delete = Step::Delete { path: to@, reply: removed };
        proof {
            one_more(first.steps(), judged.steps(), delete);
            let u = since(first.steps(), self.steps());
            assert(u.take(k) =~= probing);
            assert(assessed(u.take(k), failure, verdict));
            assert(u.last() == delete);
        }
        report_cleanup(error, removed)
    }

    /// Copy a folder tree to a new name.
    pub fn copy_dir_recursive(&mut self, from: &str, to: &str, depth: usize) -> (result: Result<
        (),
        FsOpError,
    >)
        requires
            old(self).wf(),
        ensures
            final(self).follows(old(self)),
            tree_copied(
                since(old(self).steps(), final(self).steps()),
                from@,
                to@,
                depth as int,
                result,
            ),
        decreases MAX_TREE_DEPTH - depth,
    {
        let ghost start = self.steps();
        let ghost first = *self;
        let ghost d = depth as int;
        proof {
            no_more(start);
            no_more(self.calls());
        }
        if depth >= MAX_TREE_DEPTH {
            return Err(FsOpError::TooDeep);
        }
        let reply = self.make_folder(to);
        let ghost make = Step::MakeFolder { path: to@, reply };
        match reply {
            Err(error) => return Err(error),
            Ok(()) => {},
        }
        let mut skip: usize = 0;
        proof {
            assert forall|rest: Seq<Step>, r: Result<(), FsOpError>|
                batches_copied(rest, from@, to@, d, 0, r) implies #[trigger] tree_copied(
                since(start, self.steps()) + rest,
                from@,
                to@,
                d,
                r,
            ) by {
                assert((seq![make] + rest).skip(1) =~= rest);
            }
        }
        loop
            invariant
                first == *old(self),
                start == first.steps(),
                self.follows(&first),
                d == depth < MAX_TREE_DEPTH,
                forall|rest: Seq<Step>, r: Result<(), FsOpError>|
                    batches_copied(rest, from@, to@, d, skip as int, r) ==> #[trigger] tree_copied(
                        since(start, self.steps()) + rest,
                        from@,
                        to@,
                        d,
                        r,
                    ),
            decreases usize::MAX - skip,
        {
            let ghost before = self.steps();
            let ghost had = skip as int;
            let listed = self.list_children_bounded(from, skip);
            let ghost seen = children_view(listed);
            let ghost step = self.steps().last();
            proof {
                one_more(start, before, step);
            }
            let (batch, more) = match listed {
                Err(error) => {
                    proof {
                        assert(children_listed(seq![step][0], from@, had, seen));
                        assert(batches_copied(seq![step], from@, to@, d, had, Err(error)));
                    }
                    return Err(error);
                },
                Ok(pair) => pair,
            };
            let ghost all = batch@;
            let next: usize = skip + batch.len();
            proof {
                assert forall|rest: Seq<Step>, r: Result<(), FsOpError>|
                    children_copied(rest, from@, to@, d, all, 0, more, next as int, r)
                    implies #[trigger] tree_copied(
                    since(start, self.steps()) + rest,
                    from@,
                    to@,
                    d,
                    r,
                ) by {
                    let longer = seq![step] + rest;
                    assert(longer.skip(1) =~= rest);
                    assert(children_listed(longer[0], from@, had, seen));
                    assert(batches_copied(longer, from@, to@, d, had, r));
                    assert(since(start, before) + longer =~= since(start, self.steps()) + rest);
                }
            }
            let mut i: usize = 0;
            while i < batch.len()
                invariant
                    first == *old(self),
                    start == first.steps(),
                    self.follows(&first),
                    d == depth < MAX_TREE_DEPTH,
                    all == batch@,
                    i <= all.len(),
                    forall|rest: Seq<Step>, r: Result<(), FsOpError>|
                        children_copied(rest, from@, to@, d, all, i as int, more, next as int, r)
                            ==> #[trigger] tree_copied(
                            since(start, self.steps()) + rest,
                            from@,
                            to@,
                            d,
                            r,
                        ),
                decreases batch@.len() - i,
            {
                let ghost at = i as int;
                let ghost entered = *self;
                let below = join_path(from, batch[i].name.as_str());
                let target = join_path(to, batch[i].name.as_str());
                let outcome = if batch[i].is_dir {
                    self.copy_dir_recursive(below.as_str(), target.as_str(), depth + 1)
                } else {
                    self.copy_file_verified(below.as_str(), target.as_str())
                };
                let ghost ended = outcome;
                let ghost t = since(entered.steps(), self.steps());
                let ghost k = t.len() as int;
                proof {
                    cut(start, entered.steps(), self.steps());
                    whole_stretch(t);
                    assert(since(start, self.steps()) =~= since(start, entered.steps()) + t);
                    assert(mark_end(k, ended));
                }
                match outcome {
                    Err(error) => {
                        assert(children_copied(
                            t,
                            from@,
                            to@,
                            d,
                            all,
                            at,
                            more,
                            next as int,
                            Err(error),
                        ));
                        return Err(error);
                    },
                    Ok(()) => {},
                }
                i = i + 1;
                proof {
                    assert forall|rest: Seq<Step>, r: Result<(), FsOpError>|
                        children_copied(rest, from@, to@, d, all, at + 1, more, next as int, r)
                        implies #[trigger] tree_copied(
                        since(start, self.steps()) + rest,
                        from@,
                        to@,
                        d,
                        r,
                    ) by {
                        let longer = t + rest;
                        assert(longer.take(k) =~= t.take(k));
                        assert(longer.skip(k) =~= rest);
                        assert(mark_end(k, ended));
                        assert(children_copied(
                            longer,
                            from@,
                            to@,
                            d,
                            all,
                            at,
                            more,
                            next as int,
                            r,
                        ));
                        assert(since(start, entered.steps()) + longer =~= since(
                            start,
                            self.steps(),
                        ) + rest);
                    }
                }
            }
            if !more || batch.len() == 0 {
                let result: Result<(), FsOpError> = Ok(());
                proof {
                    let none = Seq::<Step>::empty();
                    assert(children_copied(
                        none,
                        from@,
                        to@,
                        d,
                        all,
                        i as int,
                        more,
                        next as int,
                        result,
                    ));
                    assert(since(start, self.steps()) + none =~= since(start, self.steps()));
                }
                return result;
            }
            skip = next;
        }
    }

    /// Remove a folder tree. The second value says whether anything was destroyed,
    /// now or before.
    pub fn delete_recursive(&mut self, path: &str, depth: usize, before: bool) -> (outcome: (
        Result<(), FsOpError>,
        bool,
    ))
        requires
            old(self).wf(),
        ensures
            final(self).follows(old(self)),
            tree_deleted(
                since(old(self).steps(), final(self).steps()),
                path@,
                depth as int,
                MAX_DELETE_ROUNDS as int,
                before,
                outcome.1,
                outcome.0,
            ),
        decreases MAX_TREE_DEPTH - depth,
    {
        let ghost start = self.steps();
        let ghost first = *self;
        let ghost d = depth as int;
        let ghost limit = MAX_DELETE_ROUNDS as int;
        proof {
            no_more(start);
            no_more(self.calls());
        }
        if depth >= MAX_TREE_DEPTH {
            return (Err(FsOpError::TooDeep), before);
        }
        let mut rounds: u64 = MAX_DELETE_ROUNDS;
        let mut destroyed = before;
        proof {
            assert forall|rest: Seq<Step>, x: bool, r: Result<(), FsOpError>|
                tree_deleted(rest, path@, d, limit, before, x, r) implies #[trigger] tree_deleted(
                since(start, self.steps()) + rest,
                path@,
                d,
                limit,
                before,
                x,
                r,
            ) by {
                assert(since(start, self.steps()) + rest =~= rest);
            }
        }
        while rounds > 0
            invariant
                first == *old(self),
                start == first.steps(),
                self.follows(&first),
                d == depth < MAX_TREE_DEPTH,
                limit == MAX_DELETE_ROUNDS,
                forall|rest: Seq<Step>, x: bool, r: Result<(), FsOpError>|
                    tree_deleted(rest, path@, d, rounds as int, destroyed, x, r)
                        ==> #[trigger] tree_deleted(
                        since(start, self.steps()) + rest,
                        path@,
                        d,
                        limit,
                        before,
                        x,
                        r,
                    ),
            decreases rounds,
        {
            let ghost entered = self.steps();
            let ghost so_far = destroyed;
            let ghost n = rounds as int;
            let listed = self.list_children_bounded(path, 0);
            let ghost seen = children_view(listed);
            let ghost list = self.steps().last();
            let ghost after_list = self.steps();
            let ghost listing = *self;
            proof {
                one_more(start, entered, list);
            }
            let (batch, _more) = match listed {
                Err(error) => {
                    proof {
                        assert(children_listed(seq![list][0], path@, 0, seen));
                        assert(tree_deleted(seq![list], path@, d, n, so_far, so_far, Err(error)));
                    }
                    return (Err(error), destroyed);
                },
                Ok(pair) => pair,
            };
            let ghost all = batch@;
            if batch.len() == 0 {
                let reply = self.delete_file_at(path);
                let ghost delete = Step::Delete { path: path@, reply };
                let after = destroyed || reply.is_ok();
                proof {
                    one_more(start, after_list, delete);
                    assert(since(start, self.steps()) =~= since(start, entered) + seq![list, delete]);
                    assert(children_listed(seq![list, delete][0], path@, 0, seen));
                    assert(tree_deleted(
                        seq![list, delete],
                        path@,
                        d,
                        n,
                        so_far,
                        after,
                        reply,
                    ));
                }
                return (reply, after);
            }
            let (reply, gone) = self.delete_files(path, &batch);
            let ghost files = Step::DeleteFiles {
                path: path@,
                children: all,
                destroyed: gone,
                reply,
            };
            let ghost answer = reply;
            destroyed = destroyed || gone;
            proof {
                one_more(start, after_list, files);
                assert(since(start, self.steps()) =~= since(start, entered) + seq![list, files]);
            }
            match reply {
                Err(error) => {
                    proof {
                        assert(children_listed(seq![list, files][0], path@, 0, seen));
                        assert(tree_deleted(
                            seq![list, files],
                            path@,
                            d,
                            n,
                            so_far,
                            destroyed,
                            answer,
                        ));
                    }
                    return (Err(error), destroyed);
                },
                Ok(()) => {},
            }
            rounds = rounds - 1;
            proof {
                assert forall|rest: Seq<Step>, x: bool, r: Result<(), FsOpError>|
                    folders_deleted(rest, path@, d, all, 0, rounds as int, destroyed, x, r)
                    implies #[trigger] tree_deleted(
                    since(start, self.steps()) + rest,
                    path@,
                    d,
                    limit,
                    before,
                    x,
                    r,
                ) by {
                    let longer = seq![list, files] + rest;
                    assert(longer.skip(2) =~= rest);
                    assert(children_listed(longer[0], path@, 0, seen));
                    assert(tree_deleted(longer, path@, d, n, so_far, x, r));
                    assert(since(start, entered) + longer =~= since(start, self.steps()) + rest);
                }
            }
            let mut i: usize = 0;
            while i < batch.len()
                invariant
                    first == *old(self),
                    start == first.steps(),
                    self.follows(&first),
                    d == depth < MAX_TREE_DEPTH,
                    limit == MAX_DELETE_ROUNDS,
                    all == batch@,
                    i <= all.len(),
                    forall|rest: Seq<Step>, x: bool, r: Result<(), FsOpError>|
                        folders_deleted(
                            rest,
                            path@,
                            d,
                            all,
                            i as int,
                            rounds as int,
                            destroyed,
                            x,
                            r,
                        ) ==> #[trigger] tree_deleted(
                            since(start, self.steps()) + rest,
                            path@,
                            d,
                            limit,
                            before,
                            x,
                            r,
                        ),
                decreases batch@.len() - i,
            {
                let ghost at = i as int;
                if batch[i].is_dir {
                    let ghost so_far = destroyed;
                    let ghost inside = *self;
                    let below = join_path(path, batch[i].name.as_str());
                    let (outcome, gone) = self.delete_recursive(
                        below.as_str(),
                        depth + 1,
                        destroyed,
                    );
                    destroyed = gone;
                    let ghost ended = outcome;
                    let ghost t = since(inside.steps(), self.steps());
                    let ghost k = t.len() as int;
                    proof {
                        cut(start, inside.steps(), self.steps());
                        whole_stretch(t);
                        assert(since(start, self.steps()) =~= since(start, inside.steps()) + t);
                        assert(mark_removal_end(k, ended, gone));
                    }
                    match outcome {
                        Err(error) => {
                            assert(folders_deleted(
                                t,
                                path@,
                                d,
                                all,
                                at,
                                rounds as int,
                                so_far,
                                gone,
                                Err(error),
                            ));
                            return (Err(error), destroyed);
                        },
                        Ok(()) => {},
                    }
                    proof {
                        assert forall|rest: Seq<Step>, x: bool, r: Result<(), FsOpError>|
                            folders_deleted(
                                rest,
                                path@,
                                d,
                                all,
                                at + 1,
                                rounds as int,
                                destroyed,
                                x,
                                r,
                            ) implies #[trigger] tree_deleted(
                            since(start, self.steps()) + rest,
                            path@,
                            d,
                            limit,
                            before,
                            x,
                            r,
                        ) by {
                            let longer = t + rest;
                            assert(longer.take(k) =~= t.take(k));
                            assert(longer.skip(k) =~= rest);
                            assert(mark_removal_end(k, ended, gone));
                            assert(folders_deleted(
                                longer,
                                path@,
                                d,
                                all,
                                at,
                                rounds as int,
                                so_far,
                                x,
                                r,
                            ));
                            assert(since(start, inside.steps()) + longer =~= since(
                                start,
                                self.steps(),
                            ) + rest);
                        }
                    }
                }
                i = i + 1;
            }
        }
        let error = FsOpError::Fs(VolumeError::DeleteNonEmptyDir);
        proof {
            let none = Seq::<Step>::empty();
            assert(tree_deleted(none, path@, d, 0, destroyed, destroyed, Err(error)));
            assert(since(start, self.steps()) + none =~= since(start, self.steps()));
        }
        (Err(error), destroyed)
    }
}

} // verus!
