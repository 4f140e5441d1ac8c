//! What a move makes of a card on which nothing fails.
use vstd::prelude::*;

use crate::carrying_laws::{
    apart, child_entries, children_stay_apart, confirming_runs, entries_in, is_entry_path,
    joined_place, kept_at_and_below, kids_of, lists, move_leaves, moves_carry_everything, rooted,
    safe_copy_runs, same_entries_listed_alike, same_name, source_and_goal_lie_apart, source_stays,
    tree_copy_runs, walks_tell, Order,
};
use crate::contents::{holds_folder, place_of, write_protected, Card, Entry, Naming, Place};
use crate::contents_laws::first_step_leaves;
use crate::contents_runs::{lies_under, same_elsewhere_at, unchanged_at};
use crate::errors::FsOpError;
use crate::files::MAX_CHUNKS;
use crate::moving::{
    entry_moved, file_moved, move_confirmed, source_file_removed, source_report,
    source_tree_removed, tree_copy_cleaned_up, tree_moved,
};
use crate::names::{joined_path, lies_inside, NameFault};
use crate::reliable::{folders_stand, may_remove, reliable_run, same_entries_same_folders};
use crate::reliable_deletes::{
    calls_run_as_good_steps, checks_pass, child_tree_open, children_are_fetched,
    children_are_unprotected, entry_paths, good_parts, good_steps, longer_way_stands,
    remaining_tree_open, same_entries_tree_open, tree_open, tree_removals_succeed, unprotected,
};
use crate::reliable_laws::{first_step_succeeds, folders_kept, may_copy};
use crate::removal_laws::{
    belongs_to, check_changes_nothing, children_lie_below, directory_at, only_at_or_below,
    tree_removal_runs,
};
use crate::session::{ChildEntry, Session, Step};
use crate::storage::since;
use crate::tree::{
    batches_copied, child_of, children_copied, children_listed, file_copied_safely, mark_end,
    subtree_checked, tree_copied, tree_deleted, MAX_DELETE_ROUNDS, MAX_TREE_DEPTH,
};
use crate::volume::{OpenMode, VolumeAccess};

verus! {

/// Files below the folder at `path` that can be walked through.
pub open spec fn files_fit<D, F>(id: Naming, c: Card<D, F>, path: Seq<char>) -> bool {
    forall|place: Place| #[trigger]
        c.entries.contains_key(place) && lies_under(place, directory_at(id, path)) ==> (
        c.entries[place] matches Entry::File { bytes, .. } ==> bytes.len() < MAX_CHUNKS)
}

/// Nothing is at `path` or below.
pub open spec fn nothing_at_or_below<D, F>(id: Naming, c: Card<D, F>, path: Seq<char>) -> bool {
    forall|place: Place| #[trigger]
        c.entries.contains_key(place) ==> !belongs_to(id, place, path)
}

/// No folder on the way to `directory` is at `path` or below.
pub open spec fn way_apart(id: Naming, directory: Seq<Seq<char>>, path: Seq<char>) -> bool {
    forall|i: int|
        0 <= i < directory.len() ==> !belongs_to(
            id,
            Place { directory: directory.take(i), name: #[trigger] directory[i] },
            path,
        )
}

/// A way that lies apart from what changed still stands.
proof fn way_stays<D, F>(
    id: Naming,
    c: Card<D, F>,
    d: Card<D, F>,
    directory: Seq<Seq<char>>,
    path: Seq<char>,
)
    requires
        folders_stand(c, directory),
        way_apart(id, directory, path),
        only_at_or_below(id, c, d, path),
    ensures
        folders_stand(d, directory),
{
    assert forall|i: int| 0 <= i < directory.len() implies holds_folder(
        d,
        Place { directory: directory.take(i), name: #[trigger] directory[i] },
    ) by {
        let q = Place { directory: directory.take(i), name: directory[i] };
        assert(holds_folder(c, q));
        assert(!belongs_to(id, q, path));
        assert(unchanged_at(c, d, q));
    }
}

/// The way to a folder lies apart from what is in it.
proof fn way_lies_apart_from_children(id: Naming, path: Seq<char>, name: Seq<char>)
    requires
        path.len() > 0,
        name.len() > 0 && !name.contains('/'),
    ensures
        way_apart(id, directory_at(id, path), joined_path(path, name)),
{
    let directory = directory_at(id, path);
    let below = joined_path(path, name);
    joined_place(id, path, name);
    assert forall|i: int| 0 <= i < directory.len() implies !belongs_to(
        id,
        Place { directory: directory.take(i), name: #[trigger] directory[i] },
        below,
    ) by {
        assert(directory.take(i).len() < directory.len());
        assert(directory_at(id, below).len() > directory.len());
    }
}

/// What lies apart from a folder lies apart from what is in it.
proof fn way_apart_from_children(
    id: Naming,
    directory: Seq<Seq<char>>,
    path: Seq<char>,
    name: Seq<char>,
)
    requires
        way_apart(id, directory, path),
    ensures
        way_apart(id, directory, joined_path(path, name)),
{
    children_lie_below(id, path, name);
    assert forall|i: int| 0 <= i < directory.len() implies !belongs_to(
        id,
        Place { directory: directory.take(i), name: #[trigger] directory[i] },
        joined_path(path, name),
    ) by {
        let q = Place { directory: directory.take(i), name: directory[i] };
        assert(!belongs_to(id, q, path));
        if belongs_to(id, q, joined_path(path, name)) {
            assert(lies_under(q, directory_at(id, path)));
        }
    }
}

/// Copying a file to a place where nothing is succeeds.
proof fn safe_copies_succeed<D, F>(
    id: Naming,
    order: Order,
    ds: Seq<Card<D, F>>,
    t: Seq<Step>,
    from: Seq<char>,
    to: Seq<char>,
    result: Result<(), FsOpError>,
    stored: Seq<u8>,
)
    requires
        good_steps(id, order, ds, t),
        file_copied_safely(t, from, to, result),
        may_copy(ds[0], place_of(id, from), place_of(id, to), OpenMode::ReadWriteCreate, stored),
    ensures
        result is Ok,
{
    first_step_succeeds(id, ds, t);
}

/// The targets of the children from the `n`th on are free.
pub open spec fn targets_free<D, F>(
    id: Naming,
    order: Order,
    o: Card<D, F>,
    c: Card<D, F>,
    from: Seq<char>,
    to: Seq<char>,
    n: int,
) -> bool {
    forall|j: int|
        n <= j < kids_of(id, order, o, from).len() ==> nothing_at_or_below(
            id,
            c,
            joined_path(to, (#[trigger] kids_of(id, order, o, from)[j]).name@),
        )
}

/// A source that can be copied whole: it is as it was on the card `o`, its folders stand on
/// both cards, and it lies apart from the goal.
pub open spec fn source_ready<D, F>(
    id: Naming,
    o: Card<D, F>,
    c: Card<D, F>,
    from: Seq<char>,
    to: Seq<char>,
    depth: int,
) -> bool {
    &&& rooted(o)
    &&& tree_open(id, o, from, depth)
    &&& files_fit(id, o, from)
    &&& apart(id, from, to)
    &&& way_apart(id, directory_at(id, from), to)
    &&& kept_at_and_below(id, o, c, from)
    &&& folders_stand(c, directory_at(id, from))
    &&& from.len() > 0
    &&& is_entry_path(id, to)
}

/// The source stays ready when only the goal changed.
proof fn source_stays_ready<D, F>(
    id: Naming,
    o: Card<D, F>,
    c: Card<D, F>,
    d: Card<D, F>,
    from: Seq<char>,
    to: Seq<char>,
    depth: int,
)
    requires
        source_ready(id, o, c, from, to, depth),
        only_at_or_below(id, c, d, to),
    ensures
        source_ready(id, o, d, from, to, depth),
{
    source_stays(id, o, c, d, from, to);
    way_stays(id, c, d, directory_at(id, from), to);
}

/// A folder among the children is a source that can be copied whole.
proof fn child_ready<D, F>(
    id: Naming,
    o: Card<D, F>,
    c: Card<D, F>,
    from: Seq<char>,
    to: Seq<char>,
    name: Seq<char>,
    depth: int,
)
    requires
        source_ready(id, o, c, from, to, depth),
        name.len() > 0 && !name.contains('/'),
        holds_folder(o, Place { directory: directory_at(id, from), name: id(name) }),
    ensures
        source_ready(id, o, c, joined_path(from, name), joined_path(to, name), depth + 1),
{
    let source = directory_at(id, from);
    let below = joined_path(from, name);
    let target = joined_path(to, name);
    joined_place(id, from, name);
    joined_place(id, to, name);
    children_lie_below(id, from, name);
    children_lie_below(id, to, name);
    children_stay_apart(id, from, to, name);
    child_tree_open(id, o, from, name, depth);
    assert(kept_at_and_below(id, o, c, below)) by {
        assert forall|place: Place| belongs_to(id, place, below) implies #[trigger] unchanged_at(
            o,
            c,
            place,
        ) by {
            assert(lies_under(place, source));
            assert(belongs_to(id, place, from));
        }
    }
    assert(files_fit(id, o, below)) by {
        assert forall|place: Place| #[trigger]
            o.entries.contains_key(place) && lies_under(place, directory_at(id, below)) implies (
        o.entries[place] matches Entry::File { bytes, .. } ==> bytes.len() < MAX_CHUNKS) by {
            assert(belongs_to(id, place, below));
            assert(lies_under(place, source));
        }
    }
    let own = Place { directory: source, name: id(name) };
    assert(belongs_to(id, own, below));
    assert(unchanged_at(o, c, own));
    longer_way_stands(c, source, id(name));
    let longer = source.push(id(name));
    assert(way_apart(id, longer, target)) by {
        way_apart_from_children(id, source, to, name);
        assert forall|i: int| 0 <= i < longer.len() implies !belongs_to(
            id,
            Place { directory: longer.take(i), name: #[trigger] longer[i] },
            target,
        ) by {
            if i < source.len() {
                assert(longer.take(i) =~= source.take(i));
                assert(longer[i] == source[i]);
                assert(!belongs_to(
                    id,
                    Place { directory: source.take(i), name: source[i] },
                    target,
                ));
            } else {
                assert(longer.take(i) =~= source);
            }
        }
    }
}

proof fn tree_copies_succeed<D, F>(
    id: Naming,
    order: Order,
    o: Card<D, F>,
    ds: Seq<Card<D, F>>,
    t: Seq<Step>,
    from: Seq<char>,
    to: Seq<char>,
    depth: int,
    result: Result<(), FsOpError>,
)
    requires
        good_steps(id, order, ds, t),
        tree_copied(t, from, to, depth, result),
        source_ready(id, o, ds[0], from, to, depth),
        folders_stand(ds[0], place_of(id, to).directory),
        nothing_at_or_below(id, ds[0], to),
    ensures
        result is Ok,
    decreases MAX_TREE_DEPTH - depth, t.len(), 0int,
{
    let own = place_of(id, to);
    let goal = directory_at(id, to);
    first_step_leaves(id, ds, t);
    first_step_succeeds(id, ds, t);
    good_parts(id, order, ds, t, 1);
    assert(belongs_to(id, own, to));
    assert(!ds[0].entries.contains_key(own));
    assert(t[0]->MakeFolder_reply is Ok);
    assert(only_at_or_below(id, ds[0], ds[1], to)) by {
        assert forall|place: Place| !belongs_to(id, place, to) implies #[trigger] unchanged_at(
            ds[0],
            ds[1],
            place,
        ) by {
            same_elsewhere_at(ds[0], ds[1], own, place);
        }
    }
    source_stays_ready(id, o, ds[0], ds[1], from, to, depth);
    assert(folders_stand(ds[1], goal)) by {
        let way = own.directory;
        assert forall|i: int| 0 <= i < way.len() implies holds_folder(
            ds[1],
            Place { directory: way.take(i), name: #[trigger] way[i] },
        ) by {
            let q = Place { directory: way.take(i), name: way[i] };
            assert(holds_folder(ds[0], q));
            assert(q != own);
            same_elsewhere_at(ds[0], ds[1], own, q);
        }
        longer_way_stands(ds[1], way, own.name);
    }
    assert(targets_free(id, order, o, ds[1], from, to, 0)) by {
        assert forall|j: int|
            0 <= j < kids_of(id, order, o, from).len() implies nothing_at_or_below(
            id,
            ds[1],
            joined_path(to, (#[trigger] kids_of(id, order, o, from)[j]).name@),
        ) by {
            let name = kids_of(id, order, o, from)[j].name@;
            children_lie_below(id, to, name);
            assert forall|place: Place| #[trigger]
                ds[1].entries.contains_key(place) implies !belongs_to(
                id,
                place,
                joined_path(to, name),
            ) by {
                if belongs_to(id, place, joined_path(to, name)) {
                    assert(lies_under(place, goal));
                    assert(place != own) by {
                        assert(goal.len() > own.directory.len());
                    }
                    same_elsewhere_at(ds[0], ds[1], own, place);
                    assert(ds[0].entries.contains_key(place));
                    assert(belongs_to(id, place, to));
                }
            }
        }
    }
    batch_copies_succeed(id, order, o, ds.skip(1), t.skip(1), from, to, depth, 0, result);
}

proof fn batch_copies_succeed<D, F>(
    id: Naming,
    order: Order,
    o: Card<D, F>,
    ds: Seq<Card<D, F>>,
    t: Seq<Step>,
    from: Seq<char>,
    to: Seq<char>,
    depth: int,
    skip: int,
    result: Result<(), FsOpError>,
)
    requires
        good_steps(id, order, ds, t),
        batches_copied(t, from, to, depth, skip, result),
        source_ready(id, o, ds[0], from, to, depth),
        folders_stand(ds[0], directory_at(id, to)),
        0 <= skip <= kids_of(id, order, o, from).len(),
        targets_free(id, order, o, ds[0], from, to, skip),
    ensures
        result is Ok,
    decreases MAX_TREE_DEPTH - depth, t.len(), 0int,
{
    let source = directory_at(id, from);
    let listed = choose|listed: Result<(Seq<ChildEntry>, bool), FsOpError>| #[trigger]
        children_listed(t[0], from, skip, listed) && match listed {
            Err(error) => t.len() == 1 && result == Err::<(), FsOpError>(error),
            Ok((batch, more)) => children_copied(
                t.skip(1),
                from,
                to,
                depth,
                batch,
                0,
                more,
                skip + batch.len(),
                result,
            ),
        };
    assert(entries_in(o, source) == entries_in(ds[0], source)) by {
        assert forall|place: Place| lies_under(place, source) implies #[trigger] unchanged_at(
            o,
            ds[0],
            place,
        ) by {
            assert(belongs_to(id, place, from));
        }
        same_entries_listed_alike(o, ds[0], source);
    }
    children_are_fetched(id, order, ds, t, from, skip, listed);
    good_parts(id, order, ds, t, 1);
    let (batch, more) = listed->Ok_0;
    assert(only_at_or_below(id, ds[0], ds[1], to)) by {
        assert forall|place: Place| !belongs_to(id, place, to) implies #[trigger] unchanged_at(
            ds[0],
            ds[1],
            place,
        ) by {}
    }
    source_stays_ready(id, o, ds[0], ds[1], from, to, depth);
    same_entries_same_folders(ds[0], ds[1], directory_at(id, to));
    assert(targets_free(id, order, o, ds[1], from, to, skip)) by {
        assert forall|j: int|
            skip <= j < kids_of(id, order, o, from).len() implies nothing_at_or_below(
            id,
            ds[1],
            joined_path(to, (#[trigger] kids_of(id, order, o, from)[j]).name@),
        ) by {
            let target = joined_path(to, kids_of(id, order, o, from)[j].name@);
            assert(nothing_at_or_below(id, ds[0], target));
            assert forall|place: Place| #[trigger]
                ds[1].entries.contains_key(place) implies !belongs_to(id, place, target) by {
                assert(ds[0].entries.contains_key(place));
            }
        }
    }
    let next = skip + batch.len();
    assert(next - batch.len() + 0 == skip);
    child_copies_succeed(
        id,
        order,
        o,
        ds.skip(1),
        t.skip(1),
        from,
        to,
        depth,
        batch,
        0,
        more,
        next,
        result,
    );
}

proof fn child_copies_succeed<D, F>(
    id: Naming,
    order: Order,
    o: Card<D, F>,
    ds: Seq<Card<D, F>>,
    t: Seq<Step>,
    from: Seq<char>,
    to: Seq<char>,
    depth: int,
    batch: Seq<ChildEntry>,
    i: int,
    more: bool,
    next: int,
    result: Result<(), FsOpError>,
)
    requires
        good_steps(id, order, ds, t),
        children_copied(t, from, to, depth, batch, i, more, next, result),
        source_ready(id, o, ds[0], from, to, depth),
        folders_stand(ds[0], directory_at(id, to)),
        lists(
            id,
            entries_in(o, directory_at(id, from)),
            order(entries_in(o, directory_at(id, from))),
        ),
        i >= 0,
        batch.len() <= next <= kids_of(id, order, o, from).len(),
        batch == child_entries(kids_of(id, order, o, from)).subrange(next - batch.len(), next),
        targets_free(id, order, o, ds[0], from, to, next - batch.len() + i),
    ensures
        result is Ok,
    decreases MAX_TREE_DEPTH - depth, t.len(), batch.len() - i + 1,
{
    let source = directory_at(id, from);
    let goal = directory_at(id, to);
    let kids = kids_of(id, order, o, from);
    if i == batch.len() {
        if more && batch.len() > 0 {
            batch_copies_succeed(id, order, o, ds, t, from, to, depth, next, result);
        }
    } else {
        let name = batch[i].name@;
        let below = joined_path(from, batch[i].name@);
        let target = joined_path(to, batch[i].name@);
        let (k, outcome): (int, Result<(), FsOpError>) = choose|
            k: int,
            outcome: Result<(), FsOpError>,
        |
            {
                &&& #[trigger] mark_end(k, outcome)
                &&& 0 <= k <= t.len()
                &&& if batch[i].is_dir {
                    tree_copied(t.take(k), below, target, depth + 1, outcome)
                } else {
                    file_copied_safely(t.take(k), below, target, outcome)
                }
                &&& if outcome is Err {
                    k == t.len() && result == outcome
                } else {
                    children_copied(t.skip(k), from, to, depth, batch, i + 1, more, next, result)
                }
            };
        let j = next - batch.len() + i;
        assert(batch[i] == child_of(kids[j]));
        assert(name == kids[j].name@);
        children_are_unprotected(id, order, o, from, depth, j);
        joined_place(id, from, name);
        joined_place(id, to, name);
        children_lie_below(id, from, name);
        children_lie_below(id, to, name);
        good_parts(id, order, ds, t, k);
        let c = ds[0];
        let d = ds[k];
        let spot = place_of(id, below);
        assert(nothing_at_or_below(id, c, target));
        if batch[i].is_dir {
            child_ready(id, o, c, from, to, name, depth);
            tree_copies_succeed(
                id,
                order,
                o,
                ds.take(k + 1),
                t.take(k),
                below,
                target,
                depth + 1,
                outcome,
            );
            tree_copy_runs(
                id,
                order,
                o,
                ds.take(k + 1),
                t.take(k),
                below,
                target,
                depth + 1,
                outcome,
            );
        } else {
            let stored = o.entries[spot]->bytes;
            assert(lies_under(spot, source));
            assert(belongs_to(id, spot, from));
            assert(unchanged_at(o, c, spot));
            assert(belongs_to(id, place_of(id, target), target));
            assert(!c.entries.contains_key(place_of(id, target)));
            assert(may_copy(c, spot, place_of(id, target), OpenMode::ReadWriteCreate, stored));
            safe_copies_succeed(
                id,
                order,
                ds.take(k + 1),
                t.take(k),
                below,
                target,
                outcome,
                stored,
            );
            safe_copy_runs(id, ds.take(k + 1), t.take(k), below, target, outcome);
            assert(only_at_or_below(id, c, d, target));
        }
        assert(only_at_or_below(id, c, d, to)) by {
            assert forall|place: Place| !belongs_to(id, place, to) implies #[trigger] unchanged_at(
                c,
                d,
                place,
            ) by {
                assert(!belongs_to(id, place, target));
            }
        }
        source_stays_ready(id, o, c, d, from, to, depth);
        way_lies_apart_from_children(id, to, name);
        way_stays(id, c, d, goal, target);
        assert(targets_free(id, order, o, d, from, to, j + 1)) by {
            assert forall|l: int| j + 1 <= l < kids.len() implies nothing_at_or_below(
                id,
                d,
                joined_path(to, (#[trigger] kids_of(id, order, o, from)[l]).name@),
            ) by {
                let other = kids[l].name@;
                assert(id(kids[l].name@) != id(kids[j].name@));
                children_are_unprotected(id, order, o, from, depth, l);
                assert(nothing_at_or_below(id, c, joined_path(to, kids_of(id, order, o, from)[l].name@)));
                targets_stay_free(id, c, d, to, name, other);
            }
        }
        child_copies_succeed(
            id,
            order,
            o,
            ds.skip(k),
            t.skip(k),
            from,
            to,
            depth,
            batch,
            i + 1,
            more,
            next,
            result,
        );
    }
}

/// A target stays free when another was filled.
proof fn targets_stay_free<D, F>(
    id: Naming,
    c: Card<D, F>,
    d: Card<D, F>,
    to: Seq<char>,
    filled: Seq<char>,
    free: Seq<char>,
)
    requires
        to.len() > 0,
        filled.len() > 0 && !filled.contains('/'),
        free.len() > 0 && !free.contains('/'),
        id(filled) != id(free),
        only_at_or_below(id, c, d, joined_path(to, filled)),
        nothing_at_or_below(id, c, joined_path(to, free)),
    ensures
        nothing_at_or_below(id, d, joined_path(to, free)),
{
    let goal = directory_at(id, to);
    let n = goal.len() as int;
    joined_place(id, to, filled);
    joined_place(id, to, free);
    assert forall|place: Place| #[trigger] d.entries.contains_key(place) implies !belongs_to(
        id,
        place,
        joined_path(to, free),
    ) by {
        if belongs_to(id, place, joined_path(to, free)) {
            assert(!belongs_to(id, place, joined_path(to, filled))) by {
                let one = goal.push(id(filled));
                let two = goal.push(id(free));
                assert(one[n] == id(filled) && two[n] == id(free));
                if one.is_prefix_of(place.directory) && two.is_prefix_of(place.directory) {
                    assert(place.directory[n] == one[n]);
                    assert(place.directory[n] == two[n]);
                }
                assert(one.len() == n + 1 && two.len() == n + 1);
            }
            assert(unchanged_at(c, d, place));
            assert(c.entries.contains_key(place));
        }
    }
}

/// Nothing stands against moving the entry at `from` to `to`: it is there, neither it nor
/// anything below it is protected, nested too deeply or too long, and the goal is free, in a
/// folder that stands, and not inside the source.
pub open spec fn may_move<D, F>(
    id: Naming,
    c: Card<D, F>,
    from: Seq<char>,
    to: Seq<char>,
) -> bool {
    let source = place_of(id, from);
    &&& c.entries.contains_key(source)
    &&& !write_protected(c.entries[source])
    &&& match c.entries[source] {
        Entry::File { bytes, .. } => bytes.len() < MAX_CHUNKS,
        Entry::Folder { .. } => tree_open(id, c, from, 0) && files_fit(id, c, from),
    }
    &&& !c.entries.contains_key(place_of(id, to))
    &&& folders_stand(c, place_of(id, to).directory)
    &&& !lies_under(place_of(id, to), directory_at(id, from))
}

/// In a card whose entries are all in folders that stand, nothing is below what is not there.
proof fn nothing_below_nothing<D, F>(id: Naming, c: Card<D, F>, to: Seq<char>)
    requires
        rooted(c),
        is_entry_path(id, to),
        !c.entries.contains_key(place_of(id, to)),
    ensures
        nothing_at_or_below(id, c, to),
{
    let goal = place_of(id, to);
    let g = directory_at(id, to);
    let n = goal.directory.len() as int;
    assert forall|place: Place| #[trigger] c.entries.contains_key(place) implies !belongs_to(
        id,
        place,
        to,
    ) by {
        if g.is_prefix_of(place.directory) {
            assert(folders_stand(c, place.directory));
            assert(place.directory[n] == g[n]);
            assert(place.directory.take(n) =~= goal.directory) by {
                assert forall|i: int| 0 <= i < n implies place.directory[i]
                    == goal.directory[i] by {
                    assert(place.directory[i] == g[i]);
                }
            }
            assert(holds_folder(
                c,
                Place { directory: place.directory.take(n), name: place.directory[n] },
            ));
        }
    }
}

/// The source tree is open after the copy as it was before.
proof fn source_stays_open<D, F>(
    id: Naming,
    o: Card<D, F>,
    c: Card<D, F>,
    from: Seq<char>,
    to: Seq<char>,
)
    requires
        source_ready(id, o, c, from, to, 0),
        is_entry_path(id, from),
    ensures
        tree_open(id, c, from, 0),
{
    let directory = directory_at(id, from);
    let n = directory.len() as int;
    assert forall|place: Place| #[trigger]
        c.entries.contains_key(place) && lies_under(place, directory) implies {
        &&& o.entries.contains_key(place)
        &&& o.entries[place] == c.entries[place]
        &&& folders_stand(c, place.directory)
    } by {
        assert(belongs_to(id, place, from));
        assert(unchanged_at(o, c, place));
        assert(unprotected(o, place, directory, 0));
        let way = place.directory;
        assert forall|i: int| 0 <= i < way.len() implies holds_folder(
            c,
            Place { directory: way.take(i), name: #[trigger] way[i] },
        ) by {
            let q = Place { directory: way.take(i), name: way[i] };
            assert(holds_folder(o, q));
            assert(way.take(n) =~= directory) by {
                assert forall|l: int| 0 <= l < n implies way[l] == directory[l] by {}
            }
            if i < n {
                assert(way.take(i) =~= directory.take(i));
                assert(way[i] == directory[i]);
                assert(holds_folder(
                    c,
                    Place { directory: directory.take(i), name: directory[i] },
                ));
            } else {
                assert(directory =~= q.directory.take(n));
                assert(lies_under(q, directory));
                assert(belongs_to(id, q, from));
                assert(unchanged_at(o, c, q));
            }
        }
    }
    remaining_tree_open(id, o, c, from, 0);
}

proof fn tree_moves_succeed<D, F>(
    id: Naming,
    order: Order,
    ds: Seq<Card<D, F>>,
    t: Seq<Step>,
    from: Seq<char>,
    to: Seq<char>,
    result: Result<(), FsOpError>,
)
    requires
        good_steps(id, order, ds, t),
        tree_moved(t, from, to, result),
        source_ready(id, ds[0], ds[0], from, to, 0),
        is_entry_path(id, from),
        holds_folder(ds[0], place_of(id, from)),
        folders_stand(ds[0], place_of(id, to).directory),
        nothing_at_or_below(id, ds[0], to),
    ensures
        result is Ok,
{
    let o = ds[0];
    let source = place_of(id, from);
    let goal = place_of(id, to);
    let (k, copied): (int, Result<(), FsOpError>) = choose|k: int, copied: Result<(), FsOpError>|
        {
            &&& 0 <= k <= t.len()
            &&& #[trigger] tree_copied(t.take(k), from, to, 0, copied)
            &&& match copied {
                Err(error) => tree_copy_cleaned_up(t.skip(k), error, to, result),
                Ok(_) => source_tree_removed(t.skip(k), from, to, result),
            }
        };
    good_parts(id, order, ds, t, k);
    tree_copies_succeed(id, order, o, ds.take(k + 1), t.take(k), from, to, 0, copied);
    tree_copy_runs(id, order, o, ds.take(k + 1), t.take(k), from, to, 0, copied);
    let c = ds[k];
    source_stays_ready(id, o, o, c, from, to, 0);
    source_stays_open(id, o, c, from, to);
    let u = t.skip(k);
    let es = ds.skip(k);
    let (m, destroyed, removed): (int, bool, Result<(), FsOpError>) = choose|
        m: int,
        destroyed: bool,
        removed: Result<(), FsOpError>,
    |
        {
            &&& 0 <= m <= u.len()
            &&& #[trigger] tree_deleted(
                u.take(m),
                from,
                0,
                MAX_DELETE_ROUNDS as int,
                false,
                destroyed,
                removed,
            )
            &&& match removed {
                Err(error) => m == u.len() && result == Err::<(), FsOpError>(
                    source_report(error),
                ),
                Ok(_) => move_confirmed(u.skip(m), from, to, result),
            }
        };
    let limit = MAX_DELETE_ROUNDS as int;
    good_parts(id, order, es, u, m);
    let fs = es.take(m + 1);
    tree_removals_succeed(
        id,
        order,
        fs,
        u.take(m),
        from,
        0,
        limit,
        false,
        destroyed,
        removed,
    );
    tree_removal_runs(id, fs, u.take(m), from, 0, limit, false, destroyed, removed);
    assert(belongs_to(id, goal, to));
    assert(!belongs_to(id, goal, from));
    assert(unchanged_at(c, es[m], goal));
    confirming_runs(id, es.skip(m), u.skip(m), from, to, result);
}

proof fn file_moves_succeed<D, F>(
    id: Naming,
    order: Order,
    ds: Seq<Card<D, F>>,
    t: Seq<Step>,
    from: Seq<char>,
    to: Seq<char>,
    result: Result<(), FsOpError>,
    stored: Seq<u8>,
)
    requires
        good_steps(id, order, ds, t),
        file_moved(t, from, to, result),
        may_copy(ds[0], place_of(id, from), place_of(id, to), OpenMode::ReadWriteCreate, stored),
        !write_protected(ds[0].entries[place_of(id, from)]),
    ensures
        result is Ok,
{
    let source = place_of(id, from);
    let goal = place_of(id, to);
    let (k, copied): (int, Result<(), FsOpError>) = choose|k: int, copied: Result<(), FsOpError>|
        {
            &&& 0 <= k <= t.len()
            &&& #[trigger] file_copied_safely(t.take(k), from, to, copied)
            &&& if copied is Err {
                k == t.len() && result == copied
            } else {
                source_file_removed(t.skip(k), from, to, result)
            }
        };
    good_parts(id, order, ds, t, k);
    safe_copies_succeed(id, order, ds.take(k + 1), t.take(k), from, to, copied, stored);
    first_step_succeeds(id, ds.take(k + 1), t.take(k));
    assert(t.take(k).len() == 1);
    let c = ds[k];
    let u = t.skip(k);
    let es = ds.skip(k);
    assert(ds.take(k + 1)[1] == c);
    assert forall|place: Place| #[trigger] holds_folder(ds[0], place) implies holds_folder(
        c,
        place,
    ) by {}
    folders_kept(ds[0], c, source.directory);
    first_step_succeeds(id, es, u);
    assert(may_remove(c, source));
    good_parts(id, order, es, u, 1);
    confirming_runs(id, es.skip(1), u.skip(1), from, to, result);
}

proof fn same_entries_rooted<D, F>(c: Card<D, F>, d: Card<D, F>)
    requires
        rooted(c),
        c.entries == d.entries,
    ensures
        rooted(d),
{
    assert forall|place: Place| #[trigger] d.entries.contains_key(place) implies folders_stand(
        d,
        place.directory,
    ) by {
        assert(c.entries.contains_key(place));
        same_entries_same_folders(c, d, place.directory);
    }
}

/// What a move may start from is ready.
proof fn movable_trees_are_ready<D, F>(
    id: Naming,
    c: Card<D, F>,
    d: Card<D, F>,
    from: Seq<char>,
    to: Seq<char>,
)
    requires
        rooted(c),
        may_move(id, c, from, to),
        is_entry_path(id, from),
        is_entry_path(id, to),
        holds_folder(c, place_of(id, from)),
        c.entries == d.entries,
    ensures
        source_ready(id, d, d, from, to, 0),
        folders_stand(d, place_of(id, to).directory),
        nothing_at_or_below(id, d, to),
{
    let directory = directory_at(id, from);
    same_entries_rooted(c, d);
    same_entries_tree_open(id, c, d, from, 0);
    same_entries_same_folders(c, d, place_of(id, to).directory);
    assert(files_fit(id, d, from)) by {
        assert forall|place: Place| #[trigger]
            d.entries.contains_key(place) && lies_under(place, directory) implies (
        d.entries[place] matches Entry::File { bytes, .. } ==> bytes.len() < MAX_CHUNKS) by {
            assert(c.entries.contains_key(place));
        }
    }
    source_and_goal_lie_apart(id, d, from, to);
    nothing_below_nothing(id, d, to);
    assert(way_apart(id, directory, to)) by {
        assert forall|i: int| 0 <= i < directory.len() implies !belongs_to(
            id,
            Place { directory: directory.take(i), name: #[trigger] directory[i] },
            to,
        ) by {
            let q = Place { directory: directory.take(i), name: directory[i] };
            assert(holds_folder(d, q));
            assert(d.entries.contains_key(q));
        }
    }
    assert(kept_at_and_below(id, d, d, from));
}

proof fn moves_run_well<D, F>(
    id: Naming,
    order: Order,
    ds: Seq<Card<D, F>>,
    t: Seq<Step>,
    from: Seq<char>,
    to: Seq<char>,
    from_form: Result<Seq<char>, NameFault>,
    to_form: Result<Seq<char>, NameFault>,
    result: Result<(), FsOpError>,
)
    requires
        good_steps(id, order, ds, t),
        entry_moved(t, from, to, from_form, to_form, result),
        from_form is Ok && to_form is Ok,
        !same_name(from, to, from_form, to_form),
        !lies_inside(from, to),
        rooted(ds[0]),
        is_entry_path(id, from),
        is_entry_path(id, to),
        may_move(id, ds[0], from, to),
    ensures
        result is Ok,
{
    let source = place_of(id, from);
    let goal = place_of(id, to);
    assert(folders_stand(ds[0], source.directory));
    first_step_leaves(id, ds, t);
    first_step_succeeds(id, ds, t);
    same_entries_same_folders(ds[0], ds[1], goal.directory);
    good_parts(id, order, ds, t, 1);
    first_step_leaves(id, ds.skip(1), t.skip(1));
    first_step_succeeds(id, ds.skip(1), t.skip(1));
    assert(t.skip(1)[0] == t[1]);
    assert(ds.skip(1)[1] == ds[2]);
    good_parts(id, order, ds, t, 2);
    let u = t.skip(2);
    let es = ds.skip(2);
    if t[0]->Find_reply->Ok_0.directory {
        let (k, checked): (int, Result<(), FsOpError>) = choose|
            k: int,
            checked: Result<(), FsOpError>,
        |
            {
                &&& 0 <= k <= u.len()
                &&& #[trigger] subtree_checked(u.take(k), from, 0, checked)
                &&& if checked is Err {
                    k == u.len() && result == checked
                } else {
                    tree_moved(u.skip(k), from, to, result)
                }
            };
        good_parts(id, order, es, u, k);
        same_entries_tree_open(id, ds[0], es[0], from, 0);
        checks_pass(id, order, es.take(k + 1), u.take(k), from, 0, 0, checked);
        check_changes_nothing(id, es.take(k + 1), u.take(k), from, 0, 0, checked);
        movable_trees_are_ready(id, ds[0], es[k], from, to);
        tree_moves_succeed(id, order, es.skip(k), u.skip(k), from, to, result);
    } else {
        let stored = ds[0].entries[source]->bytes;
        same_entries_same_folders(ds[0], es[0], source.directory);
        same_entries_same_folders(ds[0], es[0], goal.directory);
        assert(may_copy(es[0], source, goal, OpenMode::ReadWriteCreate, stored));
        file_moves_succeed(id, order, es, u, from, to, result, stored);
    }
}

/// On a card on which nothing fails a move to a new name succeeds, unless something protects
/// the source: then everything that was at the old name and below is at the new one, nothing
/// is left at the old one, and everything else is as it was.
pub proof fn moves_succeed<M: VolumeAccess>(
    id: Naming,
    order: Order,
    cs: Seq<Card<M::Dir, M::File>>,
    before: Session<M>,
    after: Session<M>,
    from: Seq<char>,
    to: Seq<char>,
    from_form: Result<Seq<char>, NameFault>,
    to_form: Result<Seq<char>, NameFault>,
    result: Result<(), FsOpError>,
)
    requires
        after.follows(&before),
        entry_moved(
            since(before.steps(), after.steps()),
            from,
            to,
            from_form,
            to_form,
            result,
        ),
        reliable_run(id, cs, since(before.calls(), after.calls())),
        walks_tell(id, order, cs, since(before.calls(), after.calls())),
        rooted(cs[0]),
        from.len() > 0 && from.last() != '/',
        to.len() > 0 && to.last() != '/',
        from_form is Ok && to_form is Ok,
        !same_name(from, to, from_form, to_form),
        !lies_inside(from, to),
        may_move(id, cs[0], from, to),
    ensures
        result is Ok,
        move_leaves(id, cs[0], cs.last(), from, to, result),
{
    let steps = since(before.steps(), after.steps());
    let calls = since(before.calls(), after.calls());
    reveal(Session::accounts_since);
    let ds = calls_run_as_good_steps(id, order, cs, calls, after.layout(), steps);
    entry_paths(id, from);
    entry_paths(id, to);
    moves_run_well(id, order, ds, steps, from, to, from_form, to_form, result);
    moves_carry_everything(
        id,
        order,
        cs,
        before,
        after,
        from,
        to,
        from_form,
        to_form,
        result,
    );
}

} // verus!
