//! What a delete makes of a card on which nothing fails.
use vstd::prelude::*;
use vstd::seq_lib::seq_to_set_is_finite;
use vstd::set_lib::{lemma_len_subset, lemma_set_subset_finite};

use crate::boot::MediaLayout;
use crate::carrying_laws::{
    batches_tell, child_entries, children, entries_in, has_child, is_entry_path, joined_place,
    kids_of, lists, same_entries_listed_alike, scan_tells_at, scanning_tells, scans_tell,
    scans_tell_parts, walks_tell, walks_tell_parts, Order,
};
use crate::contents::{
    holds_folder, holds_writable, nothing_below, place_of, run_parts, write_protected, Card, Entry,
    Naming, Place,
};
use crate::contents_laws::{
    first_step_leaves, leaves_at, steps_leave_the_card, steps_run, steps_run_parts,
};
use crate::contents_runs::{lies_under, unchanged_at};
use crate::errors::FsOpError;
use crate::moving::{
    checked_tree_deleted, delete_confirmed, delete_refusal, entry_deleted_verified, folder_deleted,
    tree_delete_report,
};
use crate::names::{joined_path, paths_end_in_their_leaf};
use crate::reliable::{
    files_gone, folders_stand, gone_or_kept, is_file_of, may_remove, may_remove_files,
    reliable_parts, reliable_run, same_entries_same_folders,
};
use crate::reliable_laws::{
    first_step_succeeds, folders_kept, steps_succeed, succeeds_at, successes_run, successes_run_parts,
};
use crate::removal_laws::{
    belongs_to, check_changes_nothing, children_lie_below, deletes_are_reported_truly,
    deletion_leaves, directory_at, only_at_or_below, tree_removal_runs,
};
use crate::session::{explained, step_made, ChildEntry, Session, Step};
use crate::storage::since;
use crate::tree::{
    child_of, children_checked, children_listed, folders_deleted, mark_end, mark_removal_end,
    subtree_checked, tree_checked, tree_deleted, MAX_DELETE_ROUNDS, MAX_TREE_DEPTH,
};
use crate::volume::{Call, EntryRecord, VolumeAccess};

verus! {

/// The cards before, between and after the steps `t`: the walks among them tell what the
/// card holds, and none fails that can succeed.
pub open spec fn good_steps<D, F>(
    id: Naming,
    order: Order,
    ds: Seq<Card<D, F>>,
    t: Seq<Step>,
) -> bool {
    &&& steps_run(id, ds, t)
    &&& successes_run(id, ds, t)
    &&& scans_tell(id, order, ds, t)
}

pub(crate) proof fn good_parts<D, F>(
    id: Naming,
    order: Order,
    ds: Seq<Card<D, F>>,
    t: Seq<Step>,
    k: int,
)
    requires
        good_steps(id, order, ds, t),
        0 <= k <= t.len(),
    ensures
        good_steps(id, order, ds.take(k + 1), t.take(k)),
        good_steps(id, order, ds.skip(k), t.skip(k)),
        ds.take(k + 1).last() == ds[k],
        ds.take(k + 1)[0] == ds[0],
        ds.skip(k)[0] == ds[k],
        ds.skip(k).last() == ds.last(),
{
    steps_run_parts(id, ds, t, k);
    successes_run_parts(id, ds, t, k);
    scans_tell_parts(id, order, ds, t, k);
}

/// A reliable run of the calls of some steps shows the card between those steps.
pub(crate) proof fn calls_run_as_good_steps<D, F>(
    id: Naming,
    order: Order,
    cs: Seq<Card<D, F>>,
    t: Seq<Call<D, F>>,
    layout: MediaLayout,
    steps: Seq<Step>,
) -> (ds: Seq<Card<D, F>>)
    requires
        reliable_run(id, cs, t),
        walks_tell(id, order, cs, t),
        explained(t, layout, steps),
    ensures
        good_steps(id, order, ds, steps),
        ds[0] == cs[0],
        ds.last() == cs.last(),
    decreases steps.len(),
{
    reveal(explained);
    if steps.len() == 0 {
        seq![cs[0]]
    } else {
        let k = choose|k: int|
            0 <= k <= t.len() && explained(#[trigger] t.take(k), layout, steps.drop_last())
                && step_made(t.skip(k), layout, steps.last());
        run_parts(id, cs, t, k);
        reliable_parts(id, cs, t, k);
        walks_tell_parts(id, order, cs, t, k);
        let es = calls_run_as_good_steps(
            id,
            order,
            cs.take(k + 1),
            t.take(k),
            layout,
            steps.drop_last(),
        );
        steps_leave_the_card(id, cs.skip(k), t.skip(k), layout, steps.last());
        steps_succeed(id, cs.skip(k), t.skip(k), layout, steps.last());
        if let Step::Scan { path, rule, reply } = steps.last() {
            scanning_tells(id, order, cs.skip(k), t.skip(k), path, rule, reply);
        }
        let ds = es.push(cs.last());
        assert forall|i: int| 0 <= i < steps.len() implies #[trigger] leaves_at(
            id,
            ds,
            steps,
            i,
        ) by {
            if i < steps.len() - 1 {
                assert(leaves_at(id, es, steps.drop_last(), i));
            }
        }
        assert forall|i: int| 0 <= i < steps.len() implies #[trigger] succeeds_at(
            id,
            ds,
            steps,
            i,
        ) by {
            if i < steps.len() - 1 {
                assert(succeeds_at(id, es, steps.drop_last(), i));
            }
        }
        assert forall|i: int| 0 <= i < steps.len() implies #[trigger] scan_tells_at(
            id,
            order,
            ds,
            steps,
            i,
        ) by {
            if i < steps.len() - 1 {
                assert(scan_tells_at(id, order, es, steps.drop_last(), i));
            }
        }
        ds
    }
}

/// An entry below `directory` that nothing protects: it may be changed, its folders stand, and
/// none is nested too deeply where `directory` itself is at `depth`.
pub open spec fn unprotected<D, F>(
    c: Card<D, F>,
    place: Place,
    directory: Seq<Seq<char>>,
    depth: int,
) -> bool {
    &&& folders_stand(c, place.directory)
    &&& !write_protected(c.entries[place])
    &&& c.entries[place] is Folder ==> depth + place.directory.len() + 1 - directory.len()
        < MAX_TREE_DEPTH
}

/// The folder at `path` stands, and nothing below it is protected.
pub open spec fn tree_open<D, F>(
    id: Naming,
    c: Card<D, F>,
    path: Seq<char>,
    depth: int,
) -> bool {
    let directory = directory_at(id, path);
    &&& 0 <= depth < MAX_TREE_DEPTH
    &&& folders_stand(c, directory)
    &&& forall|place: Place| #[trigger]
        c.entries.contains_key(place) && lies_under(place, directory) ==> unprotected(
            c,
            place,
            directory,
            depth,
        )
}

/// The way to a folder in a folder that stands.
pub(crate) proof fn longer_way_stands<D, F>(c: Card<D, F>, directory: Seq<Seq<char>>, name: Seq<char>)
    requires
        folders_stand(c, directory),
        holds_folder(c, Place { directory, name }),
    ensures
        folders_stand(c, directory.push(name)),
{
    let longer = directory.push(name);
    assert forall|i: int| 0 <= i < longer.len() implies holds_folder(
        c,
        Place { directory: longer.take(i), name: #[trigger] longer[i] },
    ) by {
        if i < directory.len() {
            assert(longer.take(i) =~= directory.take(i));
            assert(longer[i] == directory[i]);
            assert(holds_folder(c, Place { directory: directory.take(i), name: directory[i] }));
        } else {
            assert(longer.take(i) =~= directory);
        }
    }
}

/// What lies below a child lies below its folder.
pub(crate) proof fn child_tree_open<D, F>(
    id: Naming,
    c: Card<D, F>,
    path: Seq<char>,
    name: Seq<char>,
    depth: int,
)
    requires
        tree_open(id, c, path, depth),
        path.len() > 0,
        name.len() > 0 && !name.contains('/'),
        holds_folder(c, Place { directory: directory_at(id, path), name: id(name) }),
    ensures
        tree_open(id, c, joined_path(path, name), depth + 1),
{
    let directory = directory_at(id, path);
    let below = joined_path(path, name);
    let own = Place { directory, name: id(name) };
    joined_place(id, path, name);
    children_lie_below(id, path, name);
    longer_way_stands(c, directory, id(name));
    assert(lies_under(own, directory));
    assert(unprotected(c, own, directory, depth));
    assert forall|place: Place| #[trigger]
        c.entries.contains_key(place) && lies_under(place, directory_at(id, below))
        implies unprotected(c, place, directory_at(id, below), depth + 1) by {
        assert(belongs_to(id, place, below));
        assert(unprotected(c, place, directory, depth));
    }
}

pub(crate) proof fn same_entries_tree_open<D, F>(
    id: Naming,
    c: Card<D, F>,
    d: Card<D, F>,
    path: Seq<char>,
    depth: int,
)
    requires
        tree_open(id, c, path, depth),
        c.entries == d.entries,
    ensures
        tree_open(id, d, path, depth),
{
    let directory = directory_at(id, path);
    same_entries_same_folders(c, d, directory);
    assert forall|place: Place| #[trigger]
        d.entries.contains_key(place) && lies_under(place, directory) implies unprotected(
        d,
        place,
        directory,
        depth,
    ) by {
        assert(c.entries.contains_key(place));
        assert(unprotected(c, place, directory, depth));
        same_entries_same_folders(c, d, place.directory);
    }
}

pub(crate) proof fn same_entries_same_kids<D, F>(
    id: Naming,
    order: Order,
    c: Card<D, F>,
    d: Card<D, F>,
    path: Seq<char>,
)
    requires
        c.entries == d.entries,
    ensures
        entries_in(c, directory_at(id, path)) == entries_in(d, directory_at(id, path)),
        kids_of(id, order, c, path) == kids_of(id, order, d, path),
{
    assert forall|place: Place| lies_under(place, directory_at(id, path)) implies #[trigger] unchanged_at(
        c,
        d,
        place,
    ) by {}
    same_entries_listed_alike(c, d, directory_at(id, path));
}

/// What a walk over the children of a folder that stands fetches.
pub(crate) proof fn children_are_fetched<D, F>(
    id: Naming,
    order: Order,
    ds: Seq<Card<D, F>>,
    t: Seq<Step>,
    path: Seq<char>,
    skip: int,
    listed: Result<(Seq<ChildEntry>, bool), FsOpError>,
)
    requires
        good_steps(id, order, ds, t),
        t.len() > 0,
        children_listed(t[0], path, skip, listed),
        folders_stand(ds[0], directory_at(id, path)),
        0 <= skip,
    ensures
        ds[1].entries == ds[0].entries,
        listed is Ok,
        lists(
            id,
            entries_in(ds[0], directory_at(id, path)),
            order(entries_in(ds[0], directory_at(id, path))),
        ),
        skip <= kids_of(id, order, ds[0], path).len() ==> {
            let (batch, more) = listed->Ok_0;
            let kids = child_entries(kids_of(id, order, ds[0], path));
            let next = skip + batch.len();
            &&& next <= kids.len()
            &&& batch == kids.subrange(skip, next)
            &&& more ==> batch.len() > 0
            &&& !more ==> next == kids.len()
        },
{
    first_step_leaves(id, ds, t);
    first_step_succeeds(id, ds, t);
    assert(scan_tells_at(id, order, ds, t, 0));
    let held = entries_in(ds[0], directory_at(id, path));
    let all = order(held);
    let visited = t[0]->Scan_reply->Ok_0;
    if skip <= kids_of(id, order, ds[0], path).len() {
        batches_tell(id, held, all, visited, skip as usize);
    }
}

/// The look for protected entries finds none.
pub(crate) proof fn checks_pass<D, F>(
    id: Naming,
    order: Order,
    ds: Seq<Card<D, F>>,
    t: Seq<Step>,
    path: Seq<char>,
    depth: int,
    skip: int,
    result: Result<(), FsOpError>,
)
    requires
        good_steps(id, order, ds, t),
        tree_checked(t, path, depth, skip, result),
        tree_open(id, ds[0], path, depth),
        path.len() > 0,
        0 <= skip <= kids_of(id, order, ds[0], path).len(),
    ensures
        result is Ok,
    decreases MAX_TREE_DEPTH - depth, t.len(), 0int,
{
    let listed = choose|listed: Result<(Seq<ChildEntry>, bool), FsOpError>| #[trigger]
        children_listed(t[0], path, skip, listed) && match listed {
            Err(error) => t.len() == 1 && result == Err::<(), FsOpError>(error),
            Ok((batch, more)) => children_checked(
                t.skip(1),
                path,
                depth,
                batch,
                0,
                more,
                skip + batch.len(),
                result,
            ),
        };
    children_are_fetched(id, order, ds, t, path, skip, listed);
    good_parts(id, order, ds, t, 1);
    let (batch, more) = listed->Ok_0;
    same_entries_tree_open(id, ds[0], ds[1], path, depth);
    same_entries_same_kids(id, order, ds[0], ds[1], path);
    children_pass(
        id,
        order,
        ds.skip(1),
        t.skip(1),
        path,
        depth,
        batch,
        0,
        more,
        skip + batch.len(),
        result,
    );
}

/// A child that was fetched is an entry of its folder that nothing protects.
pub(crate) proof fn children_are_unprotected<D, F>(
    id: Naming,
    order: Order,
    c: Card<D, F>,
    path: Seq<char>,
    depth: int,
    j: int,
)
    requires
        tree_open(id, c, path, depth),
        lists(
            id,
            entries_in(c, directory_at(id, path)),
            order(entries_in(c, directory_at(id, path))),
        ),
        0 <= j < kids_of(id, order, c, path).len(),
    ensures
        ({
            let kid = kids_of(id, order, c, path)[j];
            let place = Place { directory: directory_at(id, path), name: id(kid.name@) };
            &&& kid.name@.len() > 0 && !kid.name@.contains('/')
            &&& !kid.read_only
            &&& c.entries.contains_key(place)
            &&& kid.directory == holds_folder(c, place)
            &&& !kid.directory ==> holds_writable(c, place)
        }),
{
    let directory = directory_at(id, path);
    let kid = kids_of(id, order, c, path)[j];
    let place = Place { directory, name: id(kid.name@) };
    assert(entries_in(c, directory).contains_key(id(kid.name@)));
    assert(lies_under(place, directory));
    assert(c.entries.contains_key(place));
    assert(unprotected(c, place, directory, depth));
}

proof fn children_pass<D, F>(
    id: Naming,
    order: Order,
    ds: Seq<Card<D, F>>,
    t: Seq<Step>,
    path: Seq<char>,
    depth: int,
    batch: Seq<ChildEntry>,
    i: int,
    more: bool,
    next: int,
    result: Result<(), FsOpError>,
)
    requires
        good_steps(id, order, ds, t),
        children_checked(t, path, depth, batch, i, more, next, result),
        tree_open(id, ds[0], path, depth),
        path.len() > 0,
        i >= 0,
        lists(
            id,
            entries_in(ds[0], directory_at(id, path)),
            order(entries_in(ds[0], directory_at(id, path))),
        ),
        batch.len() <= next <= kids_of(id, order, ds[0], path).len(),
        batch == child_entries(kids_of(id, order, ds[0], path)).subrange(
            next - batch.len(),
            next,
        ),
    ensures
        result is Ok,
    decreases MAX_TREE_DEPTH - depth, t.len(), batch.len() - i + 1,
{
    if i == batch.len() {
        if more && batch.len() > 0 {
            checks_pass(id, order, ds, t, path, depth, next, result);
        }
    } else {
        let j = next - batch.len() + i;
        let name = batch[i].name@;
        assert(batch[i] == child_of(kids_of(id, order, ds[0], path)[j]));
        children_are_unprotected(id, order, ds[0], path, depth, j);
        if batch[i].is_dir {
            let (k, outcome): (int, Result<(), FsOpError>) = choose|
                k: int,
                outcome: Result<(), FsOpError>,
            |
                #[trigger] mark_end(k, outcome) && 0 <= k <= t.len() && subtree_checked(
                    t.take(k),
                    joined_path(path, batch[i].name@),
                    depth + 1,
                    outcome,
                ) && if outcome is Err {
                    k == t.len() && result == outcome
                } else {
                    children_checked(t.skip(k), path, depth, batch, i + 1, more, next, result)
                };
            let below = joined_path(path, name);
            good_parts(id, order, ds, t, k);
            child_tree_open(id, ds[0], path, name, depth);
            joined_place(id, path, name);
            checks_pass(id, order, ds.take(k + 1), t.take(k), below, depth + 1, 0, outcome);
            check_changes_nothing(id, ds.take(k + 1), t.take(k), below, depth + 1, 0, outcome);
            same_entries_tree_open(id, ds[0], ds[k], path, depth);
            same_entries_same_kids(id, order, ds[0], ds[k], path);
            children_pass(
                id,
                order,
                ds.skip(k),
                t.skip(k),
                path,
                depth,
                batch,
                i + 1,
                more,
                next,
                result,
            );
        } else {
            children_pass(id, order, ds, t, path, depth, batch, i + 1, more, next, result);
        }
    }
}

/// A directory that is listed holds as many names as it has children, at most.
proof fn listed_names_are_few(id: Naming, held: Map<Seq<char>, Entry>, all: Seq<EntryRecord>)
    requires
        lists(id, held, all),
    ensures
        held.dom().finite(),
        held.dom().len() <= children(all).len(),
{
    let kids = children(all);
    let names = kids.map_values(|kid: EntryRecord| id(kid.name@));
    assert(held.dom().subset_of(names.to_set())) by {
        assert forall|name: Seq<char>| held.dom().contains(name) implies names.to_set().contains(
            name,
        ) by {
            assert(held.contains_key(name));
            assert(has_child(id, kids, name));
            let i = choose|i: int| 0 <= i < kids.len() && id((#[trigger] kids[i]).name@) == name;
            assert(names[i] == name);
        }
    }
    seq_to_set_is_finite(names);
    lemma_set_subset_finite(names.to_set(), held.dom());
    names.lemma_cardinality_of_set();
    lemma_len_subset(held.dom(), names.to_set());
}

/// So many rounds suffice to remove what a directory holds.
pub open spec fn rounds_suffice<D, F>(
    c: Card<D, F>,
    directory: Seq<Seq<char>>,
    rounds: int,
) -> bool {
    let names = entries_in(c, directory).dom();
    rounds > 0x1_0000 || names.finite() && names.len() < rounds
}

/// The tree stays open where some of its entries are gone and the folders of the others stand.
pub(crate) proof fn remaining_tree_open<D, F>(
    id: Naming,
    c: Card<D, F>,
    d: Card<D, F>,
    path: Seq<char>,
    depth: int,
)
    requires
        tree_open(id, c, path, depth),
        folders_stand(d, directory_at(id, path)),
        forall|place: Place| #[trigger]
            d.entries.contains_key(place) && lies_under(place, directory_at(id, path)) ==> {
                &&& c.entries.contains_key(place)
                &&& c.entries[place] == d.entries[place]
                &&& folders_stand(d, place.directory)
            },
    ensures
        tree_open(id, d, path, depth),
{
    let directory = directory_at(id, path);
    assert forall|place: Place| #[trigger]
        d.entries.contains_key(place) && lies_under(place, directory) implies unprotected(
        d,
        place,
        directory,
        depth,
    ) by {
        assert(unprotected(c, place, directory, depth));
    }
}

/// The tree stays open when files of its folder are gone.
proof fn open_without_files<D, F>(
    id: Naming,
    c: Card<D, F>,
    d: Card<D, F>,
    path: Seq<char>,
    depth: int,
    batch: Seq<ChildEntry>,
)
    requires
        tree_open(id, c, path, depth),
        may_remove_files(id, c, directory_at(id, path), batch, 0),
        files_gone(id, c, d, directory_at(id, path), batch, 0),
    ensures
        tree_open(id, d, path, depth),
{
    let directory = directory_at(id, path);
    assert forall|place: Place| #[trigger] holds_folder(c, place) implies holds_folder(d, place) by {
        assert(gone_or_kept(id, c, d, directory, batch, 0, place));
        if is_file_of(id, directory, batch, 0, place) {
            let j = choose|j: int|
                0 <= j < batch.len() && !(#[trigger] batch[j]).is_dir && id(batch[j].name@)
                    == place.name;
            assert(holds_writable(c, Place { directory, name: id(batch[j].name@) }));
        }
    }
    folders_kept(c, d, directory);
    assert forall|place: Place| #[trigger]
        d.entries.contains_key(place) && lies_under(place, directory) implies {
        &&& c.entries.contains_key(place)
        &&& c.entries[place] == d.entries[place]
        &&& folders_stand(d, place.directory)
    } by {
        assert(gone_or_kept(id, c, d, directory, batch, 0, place));
        assert(unprotected(c, place, directory, depth));
        folders_kept(c, d, place.directory);
    }
    remaining_tree_open(id, c, d, path, depth);
}

/// Folders on the way to what is not at `path` or below are not there either.
proof fn way_avoids<D, F>(
    id: Naming,
    c: Card<D, F>,
    d: Card<D, F>,
    path: Seq<char>,
    directory: Seq<Seq<char>>,
)
    requires
        is_entry_path(id, path),
        folders_stand(c, directory),
        only_at_or_below(id, c, d, path),
        !directory_at(id, path).is_prefix_of(directory),
    ensures
        folders_stand(d, directory),
{
    let gone = directory_at(id, path);
    let own = place_of(id, path);
    assert forall|i: int| 0 <= i < directory.len() implies holds_folder(
        d,
        Place { directory: directory.take(i), name: #[trigger] directory[i] },
    ) by {
        let q = Place { directory: directory.take(i), name: directory[i] };
        assert(holds_folder(c, q));
        assert(!belongs_to(id, q, path)) by {
            if q == own {
                assert(gone =~= directory.take(i + 1));
                assert(gone.is_prefix_of(directory));
            } else if gone.is_prefix_of(q.directory) {
                assert(gone =~= directory.take(gone.len() as int)) by {
                    assert forall|l: int| 0 <= l < gone.len() implies gone[l]
                        == directory[l] by {
                        assert(gone[l] == q.directory[l]);
                    }
                }
                assert(gone.is_prefix_of(directory));
            }
        }
        assert(unchanged_at(c, d, q));
    }
}

/// The tree stays open when one of its folders is gone with everything in it.
proof fn open_without_folder<D, F>(
    id: Naming,
    c: Card<D, F>,
    d: Card<D, F>,
    path: Seq<char>,
    name: Seq<char>,
    depth: int,
)
    requires
        tree_open(id, c, path, depth),
        path.len() > 0,
        name.len() > 0 && !name.contains('/'),
        only_at_or_below(id, c, d, joined_path(path, name)),
        nothing_below(d, directory_at(id, joined_path(path, name))),
        !d.entries.contains_key(place_of(id, joined_path(path, name))),
    ensures
        tree_open(id, d, path, depth),
{
    let directory = directory_at(id, path);
    let below = joined_path(path, name);
    joined_place(id, path, name);
    assert(!directory_at(id, below).is_prefix_of(directory)) by {
        assert(directory_at(id, below).len() > directory.len());
    }
    way_avoids(id, c, d, below, directory);
    assert forall|place: Place| #[trigger]
        d.entries.contains_key(place) && lies_under(place, directory) implies {
        &&& c.entries.contains_key(place)
        &&& c.entries[place] == d.entries[place]
        &&& folders_stand(d, place.directory)
    } by {
        assert(!belongs_to(id, place, below));
        assert(unchanged_at(c, d, place));
        assert(unprotected(c, place, directory, depth));
        way_avoids(id, c, d, below, place.directory);
    }
    remaining_tree_open(id, c, d, path, depth);
}

/// A folder without children is empty.
proof fn childless_folders_are_empty<D, F>(
    id: Naming,
    order: Order,
    c: Card<D, F>,
    path: Seq<char>,
    depth: int,
)
    requires
        tree_open(id, c, path, depth),
        lists(
            id,
            entries_in(c, directory_at(id, path)),
            order(entries_in(c, directory_at(id, path))),
        ),
        kids_of(id, order, c, path).len() == 0,
    ensures
        nothing_below(c, directory_at(id, path)),
{
    let directory = directory_at(id, path);
    let n = directory.len() as int;
    assert forall|place: Place| #[trigger]
        c.entries.contains_key(place) implies !directory.is_prefix_of(place.directory) by {
        if directory.is_prefix_of(place.directory) {
            assert(lies_under(place, directory));
            assert(unprotected(c, place, directory, depth));
            let x = if place.directory.len() == n {
                place.name
            } else {
                place.directory[n]
            };
            assert(place.directory.take(n) =~= directory) by {
                assert forall|i: int| 0 <= i < n implies place.directory[i] == directory[i] by {}
            }
            if place.directory.len() == n {
                assert(place.directory =~= directory);
            } else {
                assert(holds_folder(
                    c,
                    Place { directory: place.directory.take(n), name: place.directory[n] },
                ));
            }
            assert(c.entries.contains_key(Place { directory, name: x }));
            assert(entries_in(c, directory).contains_key(x));
            assert(has_child(id, kids_of(id, order, c, path), x));
        }
    }
}

/// Removing a tree that nothing protects succeeds.
pub(crate) proof fn tree_removals_succeed<D, F>(
    id: Naming,
    order: Order,
    ds: Seq<Card<D, F>>,
    t: Seq<Step>,
    path: Seq<char>,
    depth: int,
    rounds: int,
    before: bool,
    after: bool,
    result: Result<(), FsOpError>,
)
    requires
        good_steps(id, order, ds, t),
        tree_deleted(t, path, depth, rounds, before, after, result),
        tree_open(id, ds[0], path, depth),
        is_entry_path(id, path),
        rounds_suffice(ds[0], directory_at(id, path), rounds),
    ensures
        result is Ok,
    decreases MAX_TREE_DEPTH - depth, t.len(), 0int,
{
    let own = place_of(id, path);
    let directory = directory_at(id, path);
    let listed = choose|listed: Result<(Seq<ChildEntry>, bool), FsOpError>| #[trigger]
        children_listed(t[0], path, 0, listed) && match listed {
            Err(error) => t.len() == 1 && result == Err::<(), FsOpError>(error) && after == before,
            Ok((batch, _)) => if batch.len() == 0 {
                &&& t.len() == 2
                &&& t[1] matches Step::Delete { path: p, reply } && p == path && result == reply
                    && after == (before || reply is Ok)
            } else {
                &&& t.len() >= 2
                &&& t[1] matches Step::DeleteFiles { path: p, children, destroyed, reply } && {
                    &&& p == path
                    &&& children == batch
                    &&& if reply is Err {
                        t.len() == 2 && result == reply && after == (before || destroyed)
                    } else {
                        folders_deleted(
                            t.skip(2),
                            path,
                            depth,
                            batch,
                            0,
                            rounds - 1,
                            before || destroyed,
                            after,
                            result,
                        )
                    }
                }
            },
        };
    children_are_fetched(id, order, ds, t, path, 0, listed);
    good_parts(id, order, ds, t, 1);
    let (batch, more) = listed->Ok_0;
    let c = ds[1];
    same_entries_tree_open(id, ds[0], c, path, depth);
    same_entries_same_kids(id, order, ds[0], c, path);
    let held = entries_in(c, directory);
    let kids = kids_of(id, order, c, path);
    listed_names_are_few(id, held, order(held));
    first_step_succeeds(id, ds.skip(1), t.skip(1));
    assert(t.skip(1)[0] == t[1]);
    assert(ds.skip(1)[1] == ds[2]);
    if batch.len() == 0 {
        childless_folders_are_empty(id, order, c, path, depth);
        let n = own.directory.len() as int;
        assert(directory.take(n) =~= own.directory);
        assert(directory[n] == own.name);
        assert(holds_folder(c, Place { directory: directory.take(n), name: directory[n] }));
        shorter_way_stands(c, directory, n);
        assert(may_remove(c, own));
    } else {
        assert(may_remove_files(id, c, directory, batch, 0)) by {
            assert forall|j: int|
                0 <= j < batch.len() && !(#[trigger] batch[j]).is_dir implies !batch[j].read_only
                && holds_writable(c, Place { directory, name: id(batch[j].name@) }) by {
                assert(batch[j] == child_of(kids[j]));
                children_are_unprotected(id, order, c, path, depth, j);
            }
            assert forall|j: int, l: int|
                0 <= j < batch.len() && 0 <= l < batch.len() && j != l implies id(
                (#[trigger] batch[j]).name@,
            ) != id((#[trigger] batch[l]).name@) by {
                assert(batch[j] == child_of(kids[j]));
                assert(batch[l] == child_of(kids[l]));
            }
        }
        let d = ds[2];
        open_without_files(id, c, d, path, depth, batch);
        good_parts(id, order, ds, t, 2);
        let x = id(batch[0].name@);
        assert(batch[0] == child_of(kids[0]));
        children_are_unprotected(id, order, c, path, depth, 0);
        assert(held.contains_key(x));
        assert forall|j: int| 0 <= j < batch.len() implies {
            let name = (#[trigger] batch[j]).name@;
            &&& name.len() > 0 && !name.contains('/')
            &&& batch[j].is_dir ==> holds_folder(d, Place { directory, name: id(name) })
        } by {
            assert(batch[j] == child_of(kids[j]));
            children_are_unprotected(id, order, c, path, depth, j);
            let place = Place { directory, name: id(batch[j].name@) };
            assert(gone_or_kept(id, c, d, directory, batch, 0, place));
            if is_file_of(id, directory, batch, 0, place) && batch[j].is_dir {
                let l = choose|l: int|
                    0 <= l < batch.len() && !(#[trigger] batch[l]).is_dir && id(batch[l].name@)
                        == place.name;
                assert(l != j);
                assert(id(batch[l].name@) != id(batch[j].name@));
            }
        }
        assert(entries_in(d, directory).dom().subset_of(held.dom())) by {
            assert forall|name: Seq<char>|
                entries_in(d, directory).dom().contains(name) implies held.dom().contains(
                name,
            ) by {
                let place = Place { directory, name };
                assert(gone_or_kept(id, c, d, directory, batch, 0, place));
            }
        }
        if !batch[0].is_dir {
            let place = Place { directory, name: x };
            assert(gone_or_kept(id, c, d, directory, batch, 0, place));
            assert(is_file_of(id, directory, batch, 0, place));
        }
        folder_removals_succeed(
            id,
            order,
            ds.skip(2),
            t.skip(2),
            path,
            depth,
            batch,
            0,
            rounds - 1,
            before || t[1]->DeleteFiles_destroyed,
            after,
            result,
            held.dom(),
        );
    }
}

pub(crate) proof fn shorter_way_stands<D, F>(c: Card<D, F>, directory: Seq<Seq<char>>, n: int)
    requires
        folders_stand(c, directory),
        0 <= n <= directory.len(),
    ensures
        folders_stand(c, directory.take(n)),
{
    let way = directory.take(n);
    assert forall|i: int| 0 <= i < way.len() implies holds_folder(
        c,
        Place { directory: way.take(i), name: #[trigger] way[i] },
    ) by {
        assert(way.take(i) =~= directory.take(i));
        assert(holds_folder(c, Place { directory: directory.take(i), name: directory[i] }));
    }
}

proof fn folder_removals_succeed<D, F>(
    id: Naming,
    order: Order,
    ds: Seq<Card<D, F>>,
    t: Seq<Step>,
    path: Seq<char>,
    depth: int,
    batch: Seq<ChildEntry>,
    i: int,
    rounds: int,
    before: bool,
    after: bool,
    result: Result<(), FsOpError>,
    names: Set<Seq<char>>,
)
    requires
        good_steps(id, order, ds, t),
        folders_deleted(t, path, depth, batch, i, rounds, before, after, result),
        tree_open(id, ds[0], path, depth),
        is_entry_path(id, path),
        0 <= i,
        batch.len() > 0,
        forall|j: int|
            0 <= j < batch.len() ==> {
                let name = (#[trigger] batch[j]).name@;
                &&& name.len() > 0 && !name.contains('/')
                &&& i <= j && batch[j].is_dir ==> holds_folder(
                    ds[0],
                    Place { directory: directory_at(id, path), name: id(name) },
                )
            },
        forall|j: int, l: int|
            0 <= j < batch.len() && 0 <= l < batch.len() && j != l ==> id(
                (#[trigger] batch[j]).name@,
            ) != id((#[trigger] batch[l]).name@),
        names.finite(),
        names.len() <= rounds,
        entries_in(ds[0], directory_at(id, path)).dom().subset_of(names),
        names.contains(id(batch[0].name@)),
        i > 0 || !batch[0].is_dir ==> !ds[0].entries.contains_key(
            Place { directory: directory_at(id, path), name: id(batch[0].name@) },
        ),
    ensures
        result is Ok,
    decreases MAX_TREE_DEPTH - depth, t.len(), batch.len() - i + 1,
{
    let directory = directory_at(id, path);
    let x = id(batch[0].name@);
    if i == batch.len() {
        let left = entries_in(ds[0], directory).dom();
        assert(!left.contains(x));
        assert(left.subset_of(names.remove(x)));
        lemma_set_subset_finite(names, left);
        lemma_len_subset(left, names.remove(x));
        tree_removals_succeed(id, order, ds, t, path, depth, rounds, before, after, result);
    } else if !batch[i].is_dir {
        folder_removals_succeed(
            id,
            order,
            ds,
            t,
            path,
            depth,
            batch,
            i + 1,
            rounds,
            before,
            after,
            result,
            names,
        );
    } else {
        let name = batch[i].name@;
        let below = joined_path(path, name);
        let (k, outcome, destroyed): (int, Result<(), FsOpError>, bool) = choose|
            k: int,
            outcome: Result<(), FsOpError>,
            destroyed: bool,
        |
            {
                &&& #[trigger] mark_removal_end(k, outcome, destroyed)
                &&& 0 <= k <= t.len()
                &&& tree_deleted(
                    t.take(k),
                    joined_path(path, batch[i].name@),
                    depth + 1,
                    MAX_DELETE_ROUNDS as int,
                    before,
                    destroyed,
                    outcome,
                )
                &&& if outcome is Err {
                    k == t.len() && result == outcome && after == destroyed
                } else {
                    folders_deleted(
                        t.skip(k),
                        path,
                        depth,
                        batch,
                        i + 1,
                        rounds,
                        destroyed,
                        after,
                        result,
                    )
                }
            };
        let limit = MAX_DELETE_ROUNDS as int;
        good_parts(id, order, ds, t, k);
        joined_place(id, path, name);
        child_tree_open(id, ds[0], path, name, depth);
        tree_removals_succeed(
            id,
            order,
            ds.take(k + 1),
            t.take(k),
            below,
            depth + 1,
            limit,
            before,
            destroyed,
            outcome,
        );
        tree_removal_runs(
            id,
            ds.take(k + 1),
            t.take(k),
            below,
            depth + 1,
            limit,
            before,
            destroyed,
            outcome,
        );
        let c = ds[0];
        let d = ds[k];
        open_without_folder(id, c, d, path, name, depth);
        assert forall|j: int| 0 <= j < batch.len() implies {
            let other = (#[trigger] batch[j]).name@;
            &&& other.len() > 0 && !other.contains('/')
            &&& i + 1 <= j && batch[j].is_dir ==> holds_folder(
                d,
                Place { directory, name: id(other) },
            )
        } by {
            if i + 1 <= j && batch[j].is_dir {
                let place = Place { directory, name: id(batch[j].name@) };
                assert(id(batch[j].name@) != id(batch[i].name@));
                assert(!belongs_to(id, place, below)) by {
                    assert(directory_at(id, below).len() > directory.len());
                }
                assert(unchanged_at(c, d, place));
            }
        }
        assert(entries_in(d, directory).dom().subset_of(names)) by {
            assert forall|other: Seq<char>|
                entries_in(d, directory).dom().contains(other) implies names.contains(other) by {
                let place = Place { directory, name: other };
                assert(!belongs_to(id, place, below)) by {
                    assert(d.entries.contains_key(place));
                }
                assert(unchanged_at(c, d, place));
                assert(entries_in(c, directory).dom().contains(other));
            }
        }
        assert(!d.entries.contains_key(Place { directory, name: x })) by {
            let place = Place { directory, name: x };
            if i > 0 && d.entries.contains_key(place) {
                assert(id(batch[0].name@) != id(batch[i].name@));
                assert(!belongs_to(id, place, below)) by {
                    assert(directory_at(id, below).len() > directory.len());
                }
                assert(unchanged_at(c, d, place));
            }
        }
        folder_removals_succeed(
            id,
            order,
            ds.skip(k),
            t.skip(k),
            path,
            depth,
            batch,
            i + 1,
            rounds,
            destroyed,
            after,
            result,
            names,
        );
    }
}

/// Nothing stands against deleting the entry at `path`, as a folder or as a file: it is one
/// and is there, and neither it nor anything below it is protected or nested too deeply.
pub open spec fn may_delete<D, F>(
    id: Naming,
    c: Card<D, F>,
    path: Seq<char>,
    is_dir: bool,
) -> bool {
    let own = place_of(id, path);
    &&& c.entries.contains_key(own)
    &&& c.entries[own] is Folder == is_dir
    &&& !write_protected(c.entries[own])
    &&& folders_stand(c, own.directory)
    &&& is_dir ==> tree_open(id, c, path, 0)
}

proof fn folder_deletes_succeed<D, F>(
    id: Naming,
    order: Order,
    ds: Seq<Card<D, F>>,
    t: Seq<Step>,
    path: Seq<char>,
    result: Result<(), FsOpError>,
)
    requires
        good_steps(id, order, ds, t),
        folder_deleted(t, path, result),
        tree_open(id, ds[0], path, 0),
        is_entry_path(id, path),
        holds_folder(ds[0], place_of(id, path)),
    ensures
        result is Ok,
{
    let (k, checked): (int, Result<(), FsOpError>) = choose|
        k: int,
        checked: Result<(), FsOpError>,
    |
        {
            &&& 0 <= k <= t.len()
            &&& #[trigger] subtree_checked(t.take(k), path, 0, checked)
            &&& if checked is Err {
                k == t.len() && result == checked
            } else {
                checked_tree_deleted(t.skip(k), path, result)
            }
        };
    good_parts(id, order, ds, t, k);
    checks_pass(id, order, ds.take(k + 1), t.take(k), path, 0, 0, checked);
    check_changes_nothing(id, ds.take(k + 1), t.take(k), path, 0, 0, checked);
    same_entries_tree_open(id, ds[0], ds[k], path, 0);
    let u = t.skip(k);
    let es = ds.skip(k);
    let (m, destroyed, removed): (int, bool, Result<(), FsOpError>) = choose|
        m: int,
        destroyed: bool,
        removed: Result<(), FsOpError>,
    |
        {
            &&& 0 <= m <= u.len()
            &&& #[trigger] tree_deleted(
                u.take(m),
                path,
                0,
                MAX_DELETE_ROUNDS as int,
                false,
                destroyed,
                removed,
            )
            &&& match removed {
                Err(error) => m == u.len() && result == Err::<(), FsOpError>(
                    tree_delete_report(error, destroyed),
                ),
                Ok(_) => delete_confirmed(u.skip(m), path, result),
            }
        };
    let limit = MAX_DELETE_ROUNDS as int;
    good_parts(id, order, es, u, m);
    let fs = es.take(m + 1);
    tree_removals_succeed(
        id,
        order,
        fs,
        u.take(m),
        path,
        0,
        limit,
        false,
        destroyed,
        removed,
    );
    tree_removal_runs(id, fs, u.take(m), path, 0, limit, false, destroyed, removed);
    first_step_leaves(id, es.skip(m), u.skip(m));
}

proof fn deletes_run_well<D, F>(
    id: Naming,
    order: Order,
    ds: Seq<Card<D, F>>,
    t: Seq<Step>,
    path: Seq<char>,
    is_dir: bool,
    result: Result<(), FsOpError>,
)
    requires
        good_steps(id, order, ds, t),
        entry_deleted_verified(t, path, is_dir, result),
        may_delete(id, ds[0], path, is_dir),
        is_entry_path(id, path),
    ensures
        result is Ok,
{
    let own = place_of(id, path);
    first_step_leaves(id, ds, t);
    first_step_succeeds(id, ds, t);
    good_parts(id, order, ds, t, 1);
    assert(delete_refusal(t[0]->Find_reply->Ok_0, is_dir) is None);
    let u = t.skip(1);
    let es = ds.skip(1);
    if is_dir {
        same_entries_tree_open(id, ds[0], ds[1], path, 0);
        folder_deletes_succeed(id, order, es, u, path, result);
    } else {
        same_entries_same_folders(ds[0], ds[1], own.directory);
        first_step_leaves(id, es, u);
        first_step_succeeds(id, es, u);
        assert(u[0] == t[1]);
        assert(may_remove(es[0], own));
        assert(u.skip(1) =~= t.skip(2));
        first_step_leaves(id, es.skip(1), u.skip(1));
        assert(u.skip(1)[0] == t.skip(2)[0]);
    }
}

/// On a card on which nothing fails a delete succeeds, unless something protects the entry:
/// then nothing of it is left, and of a folder nothing below it either, and everything else is
/// as it was.
pub proof fn deletes_succeed<M: VolumeAccess>(
    id: Naming,
    order: Order,
    cs: Seq<Card<M::Dir, M::File>>,
    before: Session<M>,
    after: Session<M>,
    path: Seq<char>,
    is_dir: bool,
    result: Result<(), FsOpError>,
)
    requires
        after.follows(&before),
        entry_deleted_verified(since(before.steps(), after.steps()), path, is_dir, result),
        reliable_run(id, cs, since(before.calls(), after.calls())),
        walks_tell(id, order, cs, since(before.calls(), after.calls())),
        path.len() > 0 && path.last() != '/',
        may_delete(id, cs[0], path, is_dir),
    ensures
        result is Ok,
        deletion_leaves(id, cs[0], cs.last(), path, is_dir, result),
{
    let steps = since(before.steps(), after.steps());
    let calls = since(before.calls(), after.calls());
    reveal(Session::accounts_since);
    let ds = calls_run_as_good_steps(id, order, cs, calls, after.layout(), steps);
    entry_paths(id, path);
    deletes_run_well(id, order, ds, steps, path, is_dir, result);
    deletes_are_reported_truly(id, cs, before, after, path, is_dir, result);
}

pub(crate) proof fn entry_paths(id: Naming, path: Seq<char>)
    requires
        path.len() > 0 && path.last() != '/',
    ensures
        is_entry_path(id, path),
{
    paths_end_in_their_leaf(path);
    assert(directory_at(id, path) =~= place_of(id, path).directory.push(place_of(id, path).name));
}

} // verus!
