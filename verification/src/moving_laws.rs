//! Where copying, moving and deleting folder trees may change the card.
use vstd::prelude::*;

use crate::errors::FsOpError;
use crate::moving::{
    move_confirmed, source_report, source_tree_removed, tree_copy_cleaned_up, tree_moved,
};
use crate::names::joined_path;
use crate::session::{ChildEntry, Step};
use crate::tree::{
    assessed, batches_copied, children_copied, children_listed, cleanup_report, copy_cleaned_up,
    mark_end, mark_removal_end, file_copied_safely, folders_deleted, probe_steps, tree_copied, tree_deleted,
    MAX_DELETE_ROUNDS, MAX_TREE_DEPTH,
};

verus! {

/// `path` is `root` or lies below it.
pub open spec fn under(root: Seq<char>, path: Seq<char>) -> bool {
    ||| path == root
    ||| {
        &&& path.len() > root.len()
        &&& path.take(root.len() as int) == root
        &&& root == "/"@ || path[root.len() as int] == '/'
    }
}

/// The step changes nothing, or something at `root` or below it.
pub open spec fn changes_only_below(step: Step, root: Seq<char>) -> bool {
    match step {
        Step::Save { path, .. } => under(root, path),
        Step::Copy { to, .. } => under(root, to),
        Step::Delete { path, .. } => under(root, path),
        Step::DeleteFiles { path, .. } => under(root, path),
        Step::CreateFile { path, .. } => under(root, path),
        Step::CreateFolder { path, .. } => under(root, path),
        Step::MakeFolder { path, .. } => under(root, path),
        _ => true,
    }
}

/// No step changes anything but what is at `root` or below it.
pub open spec fn all_below(t: Seq<Step>, root: Seq<char>) -> bool {
    forall|j: int| 0 <= j < t.len() ==> changes_only_below(#[trigger] t[j], root)
}

/// What is below something below `root` is below `root`.
proof fn children_are_under(root: Seq<char>, parent: Seq<char>, name: Seq<char>)
    requires
        under(root, parent),
    ensures
        under(root, joined_path(parent, name)),
{
    reveal_strlit("/");
    let path = joined_path(parent, name);
    if parent == "/"@ {
        if root.len() == 0 {
            assert(path.take(0) =~= root);
            assert(path[0] == '/');
        } else {
            assert(root =~= "/"@);
            if name.len() == 0 {
                assert(path =~= root);
            } else {
                assert(path.take(1) =~= root);
            }
        }
    } else {
        assert(path.take(root.len() as int) =~= root) by {
            if parent != root {
                assert forall|i: int| 0 <= i < root.len() implies path[i] == root[i] by {
                    assert(parent.take(root.len() as int)[i] == root[i]);
                }
            }
        }
        if parent != root {
            assert(path[root.len() as int] == parent[root.len() as int]);
        }
    }
}

/// Two stretches that stay below `root`.
proof fn all_below_joins(t: Seq<Step>, k: int, root: Seq<char>)
    requires
        0 <= k <= t.len(),
        all_below(t.take(k), root),
        all_below(t.skip(k), root),
    ensures
        all_below(t, root),
{
    assert forall|j: int| 0 <= j < t.len() implies changes_only_below(#[trigger] t[j], root) by {
        if j < k {
            assert(t[j] == t.take(k)[j]);
        } else {
            assert(t[j] == t.skip(k)[j - k]);
        }
    }
}

proof fn cleanups_stay_below(
    t: Seq<Step>,
    error: FsOpError,
    to: Seq<char>,
    result: Result<(), FsOpError>,
    root: Seq<char>,
)
    requires
        copy_cleaned_up(t, error, to, result),
        under(root, to),
    ensures
        all_below(t, root),
{
    let n = probe_steps(error);
    let verdict = choose|verdict: (FsOpError, bool)| #[trigger]
        assessed(t.take(n), error, verdict) && if verdict.1 {
            &&& t.len() == n + 1
            &&& t.last() matches Step::Delete { path, reply: removed } && path == to && result
                == Err::<(), FsOpError>(cleanup_report(verdict.0, removed))
        } else {
            t.len() == n && result == Err::<(), FsOpError>(verdict.0)
        };
    assert forall|j: int| 0 <= j < t.len() implies changes_only_below(#[trigger] t[j], root) by {
        if j < n {
            assert(t[j] == t.take(n)[j]);
        }
    }
}

proof fn file_copies_stay_below(
    t: Seq<Step>,
    from: Seq<char>,
    to: Seq<char>,
    result: Result<(), FsOpError>,
    root: Seq<char>,
)
    requires
        file_copied_safely(t, from, to, result),
        under(root, to),
    ensures
        all_below(t, root),
{
    if let Err(error) = t[0]->Copy_reply {
        cleanups_stay_below(t.skip(1), error, to, result, root);
    }
    assert forall|j: int| 0 <= j < t.len() implies changes_only_below(#[trigger] t[j], root) by {
        if j >= 1 {
            assert(t[j] == t.skip(1)[j - 1]);
        }
    }
}

proof fn tree_copies_stay_below(
    t: Seq<Step>,
    from: Seq<char>,
    to: Seq<char>,
    depth: int,
    result: Result<(), FsOpError>,
    root: Seq<char>,
)
    requires
        tree_copied(t, from, to, depth, result),
        under(root, to),
    ensures
        all_below(t, root),
    decreases MAX_TREE_DEPTH - depth, t.len(), 0int,
{
    if depth < MAX_TREE_DEPTH {
        if t[0]->MakeFolder_reply is Ok {
            batch_copies_stay_below(t.skip(1), from, to, depth, 0, result, root);
        }
        assert forall|j: int| 0 <= j < t.len() implies changes_only_below(#[trigger] t[j], root) by {
            if j >= 1 {
                assert(t[j] == t.skip(1)[j - 1]);
            }
        }
    }
}

proof fn batch_copies_stay_below(
    t: Seq<Step>,
    from: Seq<char>,
    to: Seq<char>,
    depth: int,
    skip: int,
    result: Result<(), FsOpError>,
    root: Seq<char>,
)
    requires
        batches_copied(t, from, to, depth, skip, result),
        under(root, to),
    ensures
        all_below(t, root),
    decreases MAX_TREE_DEPTH - depth, t.len(), 0int,
{
    let listed = choose|listed: Result<(Seq<ChildEntry>, bool), FsOpError>| #[trigger]
        children_listed(t[0], from, skip, listed) && match listed {
            Err(error) => t.len() == 1 && result == Err::<(), FsOpError>(error),
            Ok((batch, more)) => children_copied(
                t.skip(1),
                from,
                to,
                depth,
                batch,
                0,
                more,
                skip + batch.len(),
                result,
            ),
        };
    if let Ok((batch, more)) = listed {
        child_copies_stay_below(
            t.skip(1),
            from,
            to,
            depth,
            batch,
            0,
            more,
            skip + batch.len(),
            result,
            root,
        );
    }
    assert forall|j: int| 0 <= j < t.len() implies changes_only_below(#[trigger] t[j], root) by {
        if j >= 1 {
            assert(t[j] == t.skip(1)[j - 1]);
        }
    }
}

proof fn child_copies_stay_below(
    t: Seq<Step>,
    from: Seq<char>,
    to: Seq<char>,
    depth: int,
    batch: Seq<ChildEntry>,
    i: int,
    more: bool,
    next: int,
    result: Result<(), FsOpError>,
    root: Seq<char>,
)
    requires
        0 <= i,
        children_copied(t, from, to, depth, batch, i, more, next, result),
        under(root, to),
    ensures
        all_below(t, root),
    decreases MAX_TREE_DEPTH - depth, t.len(), batch.len() - i + 1,
{
    if i == batch.len() {
        if more && batch.len() > 0 {
            batch_copies_stay_below(t, from, to, depth, next, result, root);
        }
    } else {
        let below = joined_path(from, batch[i].name@);
        let target = joined_path(to, batch[i].name@);
        let (k, outcome): (int, Result<(), FsOpError>) = choose|
            k: int,
            outcome: Result<(), FsOpError>,
        |
            {
                &&& #[trigger] mark_end(k, outcome)
                &&& 0 <= k <= t.len()
                &&& if batch[i].is_dir {
                    tree_copied(t.take(k), below, target, depth + 1, outcome)
                } else {
                    file_copied_safely(t.take(k), below, target, outcome)
                }
                &&& if outcome is Err {
                    k == t.len() && result == outcome
                } else {
                    children_copied(t.skip(k), from, to, depth, batch, i + 1, more, next, result)
                }
            };
        children_are_under(root, to, batch[i].name@);
        if batch[i].is_dir {
            tree_copies_stay_below(t.take(k), below, target, depth + 1, outcome, root);
        } else {
            file_copies_stay_below(t.take(k), below, target, outcome, root);
        }
        if !(outcome is Err) {
            child_copies_stay_below(
                t.skip(k),
                from,
                to,
                depth,
                batch,
                i + 1,
                more,
                next,
                result,
                root,
            );
        }
        all_below_joins(t, k, root);
    }
}

/// Copying a tree changes nothing but its destination.
pub proof fn copies_change_only_their_destination(
    t: Seq<Step>,
    from: Seq<char>,
    to: Seq<char>,
    depth: int,
    result: Result<(), FsOpError>,
)
    requires
        tree_copied(t, from, to, depth, result),
    ensures
        all_below(t, to),
{
    tree_copies_stay_below(t, from, to, depth, result, to);
}

proof fn tree_deletes_stay_below(
    t: Seq<Step>,
    path: Seq<char>,
    depth: int,
    rounds: int,
    before: bool,
    after: bool,
    result: Result<(), FsOpError>,
    root: Seq<char>,
)
    requires
        tree_deleted(t, path, depth, rounds, before, after, result),
        under(root, path),
    ensures
        all_below(t, root),
    decreases MAX_TREE_DEPTH - depth, t.len(), 0int,
{
    if depth < MAX_TREE_DEPTH && rounds > 0 {
        let listed = choose|listed: Result<(Seq<ChildEntry>, bool), FsOpError>| #[trigger]
            children_listed(t[0], path, 0, listed) && match listed {
                Err(error) => t.len() == 1 && result == Err::<(), FsOpError>(error) && after
                    == before,
                Ok((batch, _)) => if batch.len() == 0 {
                    &&& t.len() == 2
                    &&& t[1] matches Step::Delete { path: p, reply } && p == path && result == reply
                        && after == (before || reply is Ok)
                } else {
                    &&& t.len() >= 2
                    &&& t[1] matches Step::DeleteFiles { path: p, children, destroyed, reply } && {
                        &&& p == path
                        &&& children == batch
                        &&& if reply is Err {
                            t.len() == 2 && result == reply && after == (before || destroyed)
                        } else {
                            folders_deleted(
                                t.skip(2),
                                path,
                                depth,
                                batch,
                                0,
                                rounds - 1,
                                before || destroyed,
                                after,
                                result,
                            )
                        }
                    }
                },
            };
        if let Ok((batch, _)) = listed {
            if batch.len() > 0 && t[1]->DeleteFiles_reply is Ok {
                folder_deletes_stay_below(
                    t.skip(2),
                    path,
                    depth,
                    batch,
                    0,
                    rounds - 1,
                    before || t[1]->DeleteFiles_destroyed,
                    after,
                    result,
                    root,
                );
            }
        }
        assert forall|j: int| 0 <= j < t.len() implies changes_only_below(#[trigger] t[j], root) by {
            if j >= 2 {
                assert(t[j] == t.skip(2)[j - 2]);
            }
        }
    }
}

proof fn folder_deletes_stay_below(
    t: Seq<Step>,
    path: Seq<char>,
    depth: int,
    batch: Seq<ChildEntry>,
    i: int,
    rounds: int,
    before: bool,
    after: bool,
    result: Result<(), FsOpError>,
    root: Seq<char>,
)
    requires
        0 <= i,
        folders_deleted(t, path, depth, batch, i, rounds, before, after, result),
        under(root, path),
    ensures
        all_below(t, root),
    decreases MAX_TREE_DEPTH - depth, t.len(), batch.len() - i + 1,
{
    if i == batch.len() {
        tree_deletes_stay_below(t, path, depth, rounds, before, after, result, root);
    } else if !batch[i].is_dir {
        folder_deletes_stay_below(t, path, depth, batch, i + 1, rounds, before, after, result, root);
    } else {
        let below = joined_path(path, batch[i].name@);
        let (k, outcome, destroyed): (int, Result<(), FsOpError>, bool) = choose|
            k: int,
            outcome: Result<(), FsOpError>,
            destroyed: bool,
        |
            {
                &&& #[trigger] mark_removal_end(k, outcome, destroyed)
                &&& 0 <= k <= t.len()
                &&& tree_deleted(
                    t.take(k),
                    below,
                    depth + 1,
                    MAX_DELETE_ROUNDS as int,
                    before,
                    destroyed,
                    outcome,
                )
                &&& if outcome is Err {
                    k == t.len() && result == outcome && after == destroyed
                } else {
                    folders_deleted(
                        t.skip(k),
                        path,
                        depth,
                        batch,
                        i + 1,
                        rounds,
                        destroyed,
                        after,
                        result,
                    )
                }
            };
        children_are_under(root, path, batch[i].name@);
        tree_deletes_stay_below(
            t.take(k),
            below,
            depth + 1,
            MAX_DELETE_ROUNDS as int,
            before,
            destroyed,
            outcome,
            root,
        );
        if !(outcome is Err) {
            folder_deletes_stay_below(
                t.skip(k),
                path,
                depth,
                batch,
                i + 1,
                rounds,
                destroyed,
                after,
                result,
                root,
            );
        }
        all_below_joins(t, k, root);
    }
}

/// Deleting a tree changes nothing but that tree.
pub proof fn deletes_change_only_their_tree(
    t: Seq<Step>,
    path: Seq<char>,
    depth: int,
    rounds: int,
    before: bool,
    after: bool,
    result: Result<(), FsOpError>,
)
    requires
        tree_deleted(t, path, depth, rounds, before, after, result),
    ensures
        all_below(t, path),
{
    tree_deletes_stay_below(t, path, depth, rounds, before, after, result, path);
}

/// Moving a tree, the source is touched only after the whole tree was copied and every
/// file of the copy was verified; before that, and in cleaning up after a failure, only
/// the destination is.
pub proof fn moved_trees_are_copied_first(
    t: Seq<Step>,
    from: Seq<char>,
    to: Seq<char>,
    result: Result<(), FsOpError>,
    j: int,
)
    requires
        tree_moved(t, from, to, result),
        0 <= j < t.len(),
        !changes_only_below(t[j], to),
    ensures
        changes_only_below(t[j], from),
        exists|k: int, copied: Result<(), FsOpError>|
            0 <= k <= j && copied is Ok && #[trigger] tree_copied(t.take(k), from, to, 0, copied),
{
    let (k, copied): (int, Result<(), FsOpError>) = choose|k: int, copied: Result<(), FsOpError>|
        {
            &&& 0 <= k <= t.len()
            &&& #[trigger] tree_copied(t.take(k), from, to, 0, copied)
            &&& match copied {
                Err(error) => tree_copy_cleaned_up(t.skip(k), error, to, result),
                Ok(_) => source_tree_removed(t.skip(k), from, to, result),
            }
        };
    copies_change_only_their_destination(t.take(k), from, to, 0, copied);
    if j < k {
        assert(t[j] == t.take(k)[j]);
    }
    let u = t.skip(k);
    assert(t[j] == u[j - k]);
    match copied {
        Err(error) => {
            tree_cleanups_stay_below(u, error, to, result);
        },
        Ok(_) => {
            let (m, destroyed, removed): (int, bool, Result<(), FsOpError>) = choose|
                m: int,
                destroyed: bool,
                removed: Result<(), FsOpError>,
            |
                {
                    &&& 0 <= m <= u.len()
                    &&& #[trigger] tree_deleted(
                        u.take(m),
                        from,
                        0,
                        MAX_DELETE_ROUNDS as int,
                        false,
                        destroyed,
                        removed,
                    )
                    &&& match removed {
                        Err(error) => m == u.len() && result == Err::<(), FsOpError>(
                            source_report(error),
                        ),
                        Ok(_) => move_confirmed(u.skip(m), from, to, result),
                    }
                };
            deletes_change_only_their_tree(
                u.take(m),
                from,
                0,
                MAX_DELETE_ROUNDS as int,
                false,
                destroyed,
                removed,
            );
            if j - k < m {
                assert(u[j - k] == u.take(m)[j - k]);
            } else {
                assert(u[j - k] == u.skip(m)[j - k - m]);
            }
        },
    }
}

proof fn tree_cleanups_stay_below(
    t: Seq<Step>,
    error: FsOpError,
    to: Seq<char>,
    result: Result<(), FsOpError>,
)
    requires
        tree_copy_cleaned_up(t, error, to, result),
    ensures
        all_below(t, to),
{
    let n = probe_steps(error);
    let verdict = choose|verdict: (FsOpError, bool)| #[trigger]
        assessed(t.take(n), error, verdict) && if verdict.1 {
            exists|destroyed: bool, removed: Result<(), FsOpError>| #[trigger]
                tree_deleted(
                    t.skip(n),
                    to,
                    0,
                    MAX_DELETE_ROUNDS as int,
                    false,
                    destroyed,
                    removed,
                ) && result == Err::<(), FsOpError>(cleanup_report(verdict.0, removed))
        } else {
            t.len() == n && result == Err::<(), FsOpError>(verdict.0)
        };
    if verdict.1 {
        let (destroyed, removed): (bool, Result<(), FsOpError>) = choose|
            destroyed: bool,
            removed: Result<(), FsOpError>,
        | #[trigger]
            tree_deleted(t.skip(n), to, 0, MAX_DELETE_ROUNDS as int, false, destroyed, removed)
                && result == Err::<(), FsOpError>(cleanup_report(verdict.0, removed));
        deletes_change_only_their_tree(
            t.skip(n),
            to,
            0,
            MAX_DELETE_ROUNDS as int,
            false,
            destroyed,
            removed,
        );
    }
    all_below_joins(t, n, to);
}

} // verus!
