//! What deleting makes of what a card holds.
use vstd::prelude::*;

use crate::contents::{
    holds_folder, images, no_full_folder, nothing_below, place_of, run, Card, Naming, Place,
};
use crate::contents_laws::{calls_run_as_steps, first_step_leaves, steps_run, steps_run_parts};
use crate::contents_runs::{lies_under, only_under, removal_unchanged_at, unchanged_at};
use crate::errors::FsOpError;
use crate::moving::{
    checked_tree_deleted, delete_confirmed, delete_refusal, entry_deleted_verified,
    tree_delete_report,
};
use crate::names::{
    components_of, joined_path, joining_keeps_the_components, paths_end_in_their_leaf,
};
use crate::session::{ChildEntry, Session, Step};
use crate::storage::since;
use crate::tree::{
    children_checked, children_listed, folders_deleted, mark_end, mark_removal_end,
    subtree_checked, tree_checked, tree_deleted, MAX_DELETE_ROUNDS, MAX_TREE_DEPTH,
};
use crate::volume::VolumeAccess;

verus! {

/// The directory at `path`.
pub open spec fn directory_at(id: Naming, path: Seq<char>) -> Seq<Seq<char>> {
    images(id, components_of(path))
}

/// The place is that of the entry at `path`, or below it.
pub open spec fn belongs_to(id: Naming, place: Place, path: Seq<char>) -> bool {
    place == place_of(id, path) || lies_under(place, directory_at(id, path))
}

/// Nothing changed but what is at `path` and below.
pub open spec fn only_at_or_below<D, F>(
    id: Naming,
    c: Card<D, F>,
    d: Card<D, F>,
    path: Seq<char>,
) -> bool {
    forall|place: Place| !belongs_to(id, place, path) ==> #[trigger] unchanged_at(c, d, place)
}

/// A delete that was left incomplete.
pub open spec fn incomplete(result: Result<(), FsOpError>) -> bool {
    result matches Err(error) && error is DeleteIncomplete
}

/// What is below an entry of a folder is below the folder.
pub(crate) proof fn children_lie_below(id: Naming, path: Seq<char>, name: Seq<char>)
    ensures
        forall|place: Place| #[trigger]
            belongs_to(id, place, joined_path(path, name)) ==> lies_under(
                place,
                directory_at(id, path),
            ),
{
    let below = joined_path(path, name);
    joining_keeps_the_components(path, name);
    let directory = directory_at(id, path);
    assert(directory.is_prefix_of(directory_at(id, below)));
    assert(directory.is_prefix_of(place_of(id, below).directory));
    assert forall|place: Place| #[trigger] belongs_to(id, place, below) implies lies_under(
        place,
        directory,
    ) by {
        if lies_under(place, directory_at(id, below)) {
            let longer = directory_at(id, below);
            assert forall|i: int| 0 <= i < directory.len() implies directory[i]
                == place.directory[i] by {
                assert(longer[i] == place.directory[i]);
            }
            assert(directory =~= place.directory.take(directory.len() as int));
        }
    }
}

pub(crate) proof fn check_changes_nothing<D, F>(
    id: Naming,
    ds: Seq<Card<D, F>>,
    t: Seq<Step>,
    path: Seq<char>,
    depth: int,
    skip: int,
    result: Result<(), FsOpError>,
)
    requires
        steps_run(id, ds, t),
        tree_checked(t, path, depth, skip, result),
    ensures
        ds.last().entries == ds[0].entries,
    decreases MAX_TREE_DEPTH - depth, t.len(), 0int,
{
    if depth < MAX_TREE_DEPTH {
        let listed = choose|listed: Result<(Seq<ChildEntry>, bool), FsOpError>| #[trigger]
            children_listed(t[0], path, skip, listed) && match listed {
                Err(error) => t.len() == 1 && result == Err::<(), FsOpError>(error),
                Ok((batch, more)) => children_checked(
                    t.skip(1),
                    path,
                    depth,
                    batch,
                    0,
                    more,
                    skip + batch.len(),
                    result,
                ),
            };
        first_step_leaves(id, ds, t);
        match listed {
            Err(_) => {
                assert(ds.last() == ds[1]);
            },
            Ok((batch, more)) => {
                batch_check_changes_nothing(
                    id,
                    ds.skip(1),
                    t.skip(1),
                    path,
                    depth,
                    batch,
                    0,
                    more,
                    skip + batch.len(),
                    result,
                );
            },
        }
    } else {
        assert(ds.last() == ds[0]);
    }
}

proof fn batch_check_changes_nothing<D, F>(
    id: Naming,
    ds: Seq<Card<D, F>>,
    t: Seq<Step>,
    path: Seq<char>,
    depth: int,
    batch: Seq<ChildEntry>,
    i: int,
    more: bool,
    next: int,
    result: Result<(), FsOpError>,
)
    requires
        steps_run(id, ds, t),
        children_checked(t, path, depth, batch, i, more, next, result),
        i >= 0,
    ensures
        ds.last().entries == ds[0].entries,
    decreases MAX_TREE_DEPTH - depth, t.len(), batch.len() - i + 1,
{
    if i == batch.len() {
        if more && batch.len() > 0 {
            check_changes_nothing(id, ds, t, path, depth, next, result);
        } else {
            assert(ds.last() == ds[0]);
        }
    } else if batch[i].read_only {
        assert(ds.last() == ds[0]);
    } else if batch[i].is_dir {
        let (k, outcome): (int, Result<(), FsOpError>) = choose|
            k: int,
            outcome: Result<(), FsOpError>,
        |
            #[trigger] mark_end(k, outcome) && 0 <= k <= t.len() && subtree_checked(
                t.take(k),
                joined_path(path, batch[i].name@),
                depth + 1,
                outcome,
            ) && if outcome is Err {
                k == t.len() && result == outcome
            } else {
                children_checked(t.skip(k), path, depth, batch, i + 1, more, next, result)
            };
        steps_run_parts(id, ds, t, k);
        let below = joined_path(path, batch[i].name@);
        check_changes_nothing(id, ds.take(k + 1), t.take(k), below, depth + 1, 0, outcome);
        if outcome is Err {
            assert(ds.last() == ds[k]);
        } else {
            batch_check_changes_nothing(
                id,
                ds.skip(k),
                t.skip(k),
                path,
                depth,
                batch,
                i + 1,
                more,
                next,
                result,
            );
        }
    } else {
        batch_check_changes_nothing(id, ds, t, path, depth, batch, i + 1, more, next, result);
    }
}

/// What removing a tree leaves.
pub open spec fn tree_removal_leaves<D, F>(
    id: Naming,
    c: Card<D, F>,
    d: Card<D, F>,
    path: Seq<char>,
    destroyed: bool,
    result: Result<(), FsOpError>,
) -> bool {
    &&& only_at_or_below(id, c, d, path)
    &&& !destroyed && !incomplete(result) ==> d.entries == c.entries
    &&& result is Ok ==> {
        &&& destroyed
        &&& !d.entries.contains_key(place_of(id, path))
        &&& holds_folder(c, place_of(id, path)) && directory_at(id, path) == place_of(
            id,
            path,
        ).directory.push(place_of(id, path).name) ==> nothing_below(d, directory_at(id, path))
    }
}

/// What happens below a folder before it is removed.
proof fn removal_after_its_contents<D, F>(
    id: Naming,
    c: Card<D, F>,
    m: Card<D, F>,
    d: Card<D, F>,
    path: Seq<char>,
    destroyed: bool,
    result: Result<(), FsOpError>,
)
    requires
        only_under(c, m, directory_at(id, path)),
        tree_removal_leaves(id, m, d, path, destroyed, result),
        destroyed || m.entries == c.entries,
    ensures
        tree_removal_leaves(id, c, d, path, destroyed, result),
{
    let directory = directory_at(id, path);
    let own = place_of(id, path);
    assert forall|place: Place| !belongs_to(id, place, path) implies #[trigger] unchanged_at(
        c,
        d,
        place,
    ) by {
        assert(!lies_under(place, directory));
        assert(unchanged_at(c, m, place));
        assert(unchanged_at(m, d, place));
    }
    if directory == own.directory.push(own.name) {
        assert(!lies_under(own, directory)) by {
            assert(directory.len() > own.directory.len());
        }
        assert(unchanged_at(c, m, own));
    }
}

pub(crate) proof fn tree_removal_runs<D, F>(
    id: Naming,
    ds: Seq<Card<D, F>>,
    t: Seq<Step>,
    path: Seq<char>,
    depth: int,
    rounds: int,
    before: bool,
    after: bool,
    result: Result<(), FsOpError>,
)
    requires
        steps_run(id, ds, t),
        tree_deleted(t, path, depth, rounds, before, after, result),
    ensures
        before ==> after,
        tree_removal_leaves(id, ds[0], ds.last(), path, after, result),
    decreases MAX_TREE_DEPTH - depth, t.len(), 0int,
{
    let own = place_of(id, path);
    let directory = directory_at(id, path);
    if depth >= MAX_TREE_DEPTH || rounds <= 0 {
        assert(ds.last() == ds[0]);
    } else {
        let listed = choose|listed: Result<(Seq<ChildEntry>, bool), FsOpError>| #[trigger]
            children_listed(t[0], path, 0, listed) && match listed {
                Err(error) => t.len() == 1 && result == Err::<(), FsOpError>(error) && after
                    == before,
                Ok((batch, _)) => if batch.len() == 0 {
                    &&& t.len() == 2
                    &&& t[1] matches Step::Delete { path: p, reply } && p == path && result == reply
                        && after == (before || reply is Ok)
                } else {
                    &&& t.len() >= 2
                    &&& t[1] matches Step::DeleteFiles { path: p, children, destroyed, reply } && {
                        &&& p == path
                        &&& children == batch
                        &&& if reply is Err {
                            t.len() == 2 && result == reply && after == (before || destroyed)
                        } else {
                            folders_deleted(
                                t.skip(2),
                                path,
                                depth,
                                batch,
                                0,
                                rounds - 1,
                                before || destroyed,
                                after,
                                result,
                            )
                        }
                    }
                },
            };
        first_step_leaves(id, ds, t);
        if listed is Err {
            assert(ds.last() == ds[1]);
        } else {
            first_step_leaves(id, ds.skip(1), t.skip(1));
            assert(t.skip(1)[0] == t[1]);
            assert(ds.skip(1)[1] == ds[2]);
            let batch = listed->Ok_0.0;
            if batch.len() == 0 {
                assert(ds.last() == ds[2]);
                assert forall|place: Place|
                    !belongs_to(id, place, path) implies #[trigger] unchanged_at(
                    ds[0],
                    ds[2],
                    place,
                ) by {
                    removal_unchanged_at(ds[1], ds[2], own, result, place);
                }
                if result is Ok {
                    assert(ds[2].entries == ds[1].entries.remove(own));
                    if holds_folder(ds[0], own) && directory == own.directory.push(own.name) {
                        assert(holds_folder(ds[1], own));
                        assert(no_full_folder(ds[1], own));
                        assert(nothing_below(ds[1], directory));
                        assert forall|place: Place| #[trigger]
                            ds[2].entries.contains_key(place) implies !directory.is_prefix_of(
                            place.directory,
                        ) by {
                            assert(ds[1].entries.contains_key(place));
                        }
                    }
                }
            } else {
                let destroyed = t[1]->DeleteFiles_destroyed;
                assert(only_under(ds[1], ds[2], directory));
                assert(only_under(ds[0], ds[2], directory)) by {
                    assert forall|place: Place|
                        !lies_under(place, directory) implies #[trigger] unchanged_at(
                        ds[0],
                        ds[2],
                        place,
                    ) by {
                        assert(unchanged_at(ds[1], ds[2], place));
                    }
                }
                if t[1]->DeleteFiles_reply is Err {
                    assert(ds.last() == ds[2]);
                    assert forall|place: Place|
                        !belongs_to(id, place, path) implies #[trigger] unchanged_at(
                        ds[0],
                        ds[2],
                        place,
                    ) by {
                        assert(!lies_under(place, directory));
                    }
                } else {
                    assert(t.skip(1).skip(1) =~= t.skip(2));
                    assert(ds.skip(1).skip(1) =~= ds.skip(2));
                    folder_removals_run(
                        id,
                        ds.skip(2),
                        t.skip(2),
                        path,
                        depth,
                        batch,
                        0,
                        rounds - 1,
                        before || destroyed,
                        after,
                        result,
                    );
                    removal_after_its_contents(
                        id,
                        ds[0],
                        ds[2],
                        ds.last(),
                        path,
                        after,
                        result,
                    );
                }
            }
        }
    }
}

proof fn folder_removals_run<D, F>(
    id: Naming,
    ds: Seq<Card<D, F>>,
    t: Seq<Step>,
    path: Seq<char>,
    depth: int,
    batch: Seq<ChildEntry>,
    i: int,
    rounds: int,
    before: bool,
    after: bool,
    result: Result<(), FsOpError>,
)
    requires
        steps_run(id, ds, t),
        folders_deleted(t, path, depth, batch, i, rounds, before, after, result),
        i >= 0,
    ensures
        before ==> after,
        tree_removal_leaves(id, ds[0], ds.last(), path, after, result),
    decreases MAX_TREE_DEPTH - depth, t.len(), batch.len() - i + 1,
{
    if i == batch.len() {
        tree_removal_runs(id, ds, t, path, depth, rounds, before, after, result);
    } else if !batch[i].is_dir {
        folder_removals_run(id, ds, t, path, depth, batch, i + 1, rounds, before, after, result);
    } else {
        let below = joined_path(path, batch[i].name@);
        let directory = directory_at(id, path);
        let (k, outcome, destroyed): (int, Result<(), FsOpError>, bool) = choose|
            k: int,
            outcome: Result<(), FsOpError>,
            destroyed: bool,
        |
            {
                &&& #[trigger] mark_removal_end(k, outcome, destroyed)
                &&& 0 <= k <= t.len()
                &&& tree_deleted(
                    t.take(k),
                    joined_path(path, batch[i].name@),
                    depth + 1,
                    MAX_DELETE_ROUNDS as int,
                    before,
                    destroyed,
                    outcome,
                )
                &&& if outcome is Err {
                    k == t.len() && result == outcome && after == destroyed
                } else {
                    folders_deleted(
                        t.skip(k),
                        path,
                        depth,
                        batch,
                        i + 1,
                        rounds,
                        destroyed,
                        after,
                        result,
                    )
                }
            };
        steps_run_parts(id, ds, t, k);
        tree_removal_runs(
            id,
            ds.take(k + 1),
            t.take(k),
            below,
            depth + 1,
            MAX_DELETE_ROUNDS as int,
            before,
            destroyed,
            outcome,
        );
        children_lie_below(id, path, batch[i].name@);
        assert(only_under(ds[0], ds[k], directory)) by {
            assert forall|place: Place| !lies_under(place, directory) implies #[trigger] unchanged_at(
                ds[0],
                ds[k],
                place,
            ) by {
                assert(!belongs_to(id, place, below));
            }
        }
        if outcome is Err {
            assert(ds.last() == ds[k]);
            assert forall|place: Place| !belongs_to(id, place, path) implies #[trigger] unchanged_at(
                ds[0],
                ds[k],
                place,
            ) by {
                assert(!lies_under(place, directory));
            }
        } else {
            folder_removals_run(
                id,
                ds.skip(k),
                t.skip(k),
                path,
                depth,
                batch,
                i + 1,
                rounds,
                destroyed,
                after,
                result,
            );
            removal_after_its_contents(id, ds[0], ds[k], ds.last(), path, after, result);
        }
    }
}

/// What deleting the entry at `path` leaves: a success leaves nothing of it, not even below
/// it; a delete that is incomplete has touched nothing else; and any other failure has
/// changed nothing at all. Whatever is not at `path` or below is never touched.
pub open spec fn deletion_leaves<D, F>(
    id: Naming,
    c: Card<D, F>,
    d: Card<D, F>,
    path: Seq<char>,
    is_dir: bool,
    result: Result<(), FsOpError>,
) -> bool {
    &&& only_at_or_below(id, c, d, path)
    &&& match result {
        Ok(_) => {
            &&& !d.entries.contains_key(place_of(id, path))
            &&& is_dir ==> nothing_below(d, directory_at(id, path))
        },
        Err(error) => !(error is DeleteIncomplete) ==> d.entries == c.entries,
    }
}

proof fn checked_deletion_runs<D, F>(
    id: Naming,
    ds: Seq<Card<D, F>>,
    t: Seq<Step>,
    path: Seq<char>,
    result: Result<(), FsOpError>,
)
    requires
        steps_run(id, ds, t),
        checked_tree_deleted(t, path, result),
        holds_folder(ds[0], place_of(id, path)),
        directory_at(id, path) == place_of(id, path).directory.push(place_of(id, path).name),
    ensures
        deletion_leaves(id, ds[0], ds.last(), path, true, result),
{
    let (k, destroyed, removed): (int, bool, Result<(), FsOpError>) = choose|
        k: int,
        destroyed: bool,
        removed: Result<(), FsOpError>,
    |
        {
            &&& 0 <= k <= t.len()
            &&& #[trigger] tree_deleted(
                t.take(k),
                path,
                0,
                MAX_DELETE_ROUNDS as int,
                false,
                destroyed,
                removed,
            )
            &&& match removed {
                Err(error) => k == t.len() && result == Err::<(), FsOpError>(
                    tree_delete_report(error, destroyed),
                ),
                Ok(_) => delete_confirmed(t.skip(k), path, result),
            }
        };
    steps_run_parts(id, ds, t, k);
    tree_removal_runs(
        id,
        ds.take(k + 1),
        t.take(k),
        path,
        0,
        MAX_DELETE_ROUNDS as int,
        false,
        destroyed,
        removed,
    );
    if removed is Err {
        assert(ds.last() == ds[k]);
    } else {
        first_step_leaves(id, ds.skip(k), t.skip(k));
        let d = ds.skip(k)[1];
        assert(ds.last() == d);
        assert forall|place: Place| !belongs_to(id, place, path) implies #[trigger] unchanged_at(
            ds[0],
            d,
            place,
        ) by {
            assert(unchanged_at(ds[0], ds[k], place));
        }
        assert(nothing_below(ds[k], directory_at(id, path)));
        assert(nothing_below(d, directory_at(id, path)));
    }
}

proof fn deletions_run<D, F>(
    id: Naming,
    ds: Seq<Card<D, F>>,
    t: Seq<Step>,
    path: Seq<char>,
    is_dir: bool,
    result: Result<(), FsOpError>,
)
    requires
        steps_run(id, ds, t),
        entry_deleted_verified(t, path, is_dir, result),
        path.len() > 0,
        path.last() != '/',
    ensures
        deletion_leaves(id, ds[0], ds.last(), path, is_dir, result),
{
    let own = place_of(id, path);
    let directory = directory_at(id, path);
    paths_end_in_their_leaf(path);
    assert(directory =~= own.directory.push(own.name));
    first_step_leaves(id, ds, t);
    let reply = t[0]->Find_reply;
    if reply is Err || delete_refusal(reply->Ok_0, is_dir) is Some {
        assert(ds.last() == ds[1]);
    } else if is_dir {
        assert(holds_folder(ds[0], own));
        let u = t.skip(1);
        let es = ds.skip(1);
        let (k, checked): (int, Result<(), FsOpError>) = choose|
            k: int,
            checked: Result<(), FsOpError>,
        |
            {
                &&& 0 <= k <= u.len()
                &&& #[trigger] subtree_checked(u.take(k), path, 0, checked)
                &&& if checked is Err {
                    k == u.len() && result == checked
                } else {
                    checked_tree_deleted(u.skip(k), path, result)
                }
            };
        steps_run_parts(id, es, u, k);
        check_changes_nothing(id, es.take(k + 1), u.take(k), path, 0, 0, checked);
        if checked is Err {
            assert(es.last() == es[k]);
        } else {
            checked_deletion_runs(id, es.skip(k), u.skip(k), path, result);
            assert forall|place: Place| !belongs_to(id, place, path) implies #[trigger] unchanged_at(
                ds[0],
                ds.last(),
                place,
            ) by {
                assert(unchanged_at(es[k], ds.last(), place));
            }
        }
    } else {
        let u = t.skip(1);
        let es = ds.skip(1);
        first_step_leaves(id, es, u);
        assert(u[0] == t[1]);
        let removed = t[1]->Delete_reply;
        assert forall|place: Place| !belongs_to(id, place, path) implies #[trigger] unchanged_at(
            ds[0],
            es[1],
            place,
        ) by {
            removal_unchanged_at(es[0], es[1], own, removed, place);
        }
        if removed is Err {
            assert(es.last() == es[1]);
        } else {
            assert(u.skip(1) =~= t.skip(2));
            first_step_leaves(id, es.skip(1), u.skip(1));
            assert(u.skip(1)[0] == t.skip(2)[0]);
            assert(es.skip(1)[1] == es.last());
        }
    }
}

/// A delete that succeeds leaves nothing of the entry, and of a folder nothing below it
/// either; one that is incomplete has touched nothing else; and one that fails otherwise has
/// changed nothing at all.
pub proof fn deletes_are_reported_truly<M: VolumeAccess>(
    id: Naming,
    cs: Seq<Card<M::Dir, M::File>>,
    before: Session<M>,
    after: Session<M>,
    path: Seq<char>,
    is_dir: bool,
    result: Result<(), FsOpError>,
)
    requires
        after.follows(&before),
        entry_deleted_verified(since(before.steps(), after.steps()), path, is_dir, result),
        run(id, cs, since(before.calls(), after.calls())),
        path.len() > 0,
        path.last() != '/',
    ensures
        deletion_leaves(id, cs[0], cs.last(), path, is_dir, result),
{
    let steps = since(before.steps(), after.steps());
    let calls = since(before.calls(), after.calls());
    reveal(Session::accounts_since);
    let ds = calls_run_as_steps(id, cs, calls, after.layout(), steps);
    deletions_run(id, ds, steps, path, is_dir, result);
    assert(nothing_below(ds.last(), directory_at(id, path)) == nothing_below(
        cs.last(),
        directory_at(id, path),
    ));
}

} // verus!
