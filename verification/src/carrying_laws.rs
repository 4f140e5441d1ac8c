//! What moving makes of what a card holds.
use vstd::prelude::*;

use crate::boot::MediaLayout;
use crate::contents::{
    holds_file, holds_folder, nothing_below, place_of, run, run_middle, run_parts,
    write_protected, Card, Entry, Naming, Place,
};
use crate::contents_laws::{
    assessing_changes_nothing, first_step_leaves, leaves_at, steps_leave_the_card, steps_run,
    steps_run_parts,
};
use crate::contents_runs::{
    dir_opening_runs, lies_under, only_under, removal_unchanged_at, same_contents,
    same_elsewhere_at, unchanged_at,
};
use crate::creation::{dir_iterated, path_scanned};
use crate::errors::FsOpError;
use crate::listing_laws::{batches_are_slices_of_the_children, least, listing};
use crate::moving::{
    entry_moved, file_moved, move_confirmed, source_file_removed, source_report,
    source_tree_removed, tree_copy_cleaned_up, tree_moved,
};
use crate::names::{
    joined_path, joining_adds_a_component, leaf_of_joined, lies_inside, parent_of, parent_of_joined,
    paths_end_in_their_leaf, NameFault,
};
use crate::reliable::{folders_stand, same_entries_same_folders};
use crate::removal_laws::{
    belongs_to, check_changes_nothing, children_lie_below, directory_at, only_at_or_below,
    tree_removal_runs,
};
use crate::session::{explained, step_made, ChildEntry, Session, Step};
use crate::storage::since;
use crate::text::same_but_for_case;
use crate::tree::{
    assessed, batches_copied, child_of, cleanup_report, children_copied, children_found,
    children_listed, file_copied_safely, mark_end, probe_steps, subtree_checked, tree_copied,
    tree_deleted, CHILD_BATCH, MAX_DELETE_ROUNDS, MAX_TREE_DEPTH,
};
use crate::volume::{counts, is_child, scanned, Call, EntryRecord, ScanRuleView, VolumeAccess};
use crate::walk::dir_opened;

verus! {

/// In which order a directory lists what it holds.
pub type Order = spec_fn(Map<Seq<char>, Entry>) -> Seq<EntryRecord>;

/// What a directory holds, by name.
pub open spec fn entries_in<D, F>(c: Card<D, F>, directory: Seq<Seq<char>>) -> Map<
    Seq<char>,
    Entry,
> {
    Map::new(
        |name: Seq<char>| c.entries.contains_key(Place { directory, name }),
        |name: Seq<char>| c.entries[Place { directory, name }],
    )
}

/// The children among the records of a directory.
pub open spec fn children(all: Seq<EntryRecord>) -> Seq<EntryRecord> {
    all.filter(|entry: EntryRecord| is_child(entry))
}

/// Some child has the name `name`.
pub open spec fn has_child(id: Naming, kids: Seq<EntryRecord>, name: Seq<char>) -> bool {
    exists|i: int| 0 <= i < kids.len() && id((#[trigger] kids[i]).name@) == name
}

/// The records list every entry of a directory once, and nothing else.
pub open spec fn lists(id: Naming, held: Map<Seq<char>, Entry>, all: Seq<EntryRecord>) -> bool {
    let kids = children(all);
    &&& kids.len() <= 0x1_0000
    &&& forall|i: int|
        0 <= i < kids.len() ==> {
            let name = (#[trigger] kids[i]).name@;
            &&& name.len() > 0 && !name.contains('/')
            &&& held.contains_key(id(name))
            &&& kids[i].directory == (held[id(name)] is Folder)
            &&& kids[i].read_only == write_protected(held[id(name)])
        }
    &&& forall|name: Seq<char>| #[trigger] held.contains_key(name) ==> has_child(id, kids, name)
    &&& forall|i: int, j: int|
        0 <= i < kids.len() && 0 <= j < kids.len() && i != j ==> id((#[trigger] kids[i]).name@)
            != id((#[trigger] kids[j]).name@)
}

/// A walk over a directory tells what one over its whole listing would.
pub open spec fn walk_tells<D, F>(
    id: Naming,
    order: Order,
    c: Card<D, F>,
    directory: Seq<Seq<char>>,
    rule: ScanRuleView,
    visited: Seq<EntryRecord>,
) -> bool {
    let all = order(entries_in(c, directory));
    lists(id, entries_in(c, directory), all) && scanned(rule, visited) == scanned(rule, all)
}

/// The walks among the calls tell what the directories hold.
pub open spec fn walks_tell<D, F>(
    id: Naming,
    order: Order,
    cs: Seq<Card<D, F>>,
    t: Seq<Call<D, F>>,
) -> bool {
    forall|i: int| 0 <= i < t.len() ==> #[trigger] walk_tells_at(id, order, cs, t, i)
}

pub open spec fn walk_tells_at<D, F>(
    id: Naming,
    order: Order,
    cs: Seq<Card<D, F>>,
    t: Seq<Call<D, F>>,
    i: int,
) -> bool {
    t[i] matches Call::Iterate { dir, rule, reply: Ok(visited) } ==> walk_tells(
        id,
        order,
        cs[i],
        cs[i].dirs[dir],
        rule,
        visited,
    )
}

/// The walks among the steps tell what the directories hold.
pub open spec fn scans_tell<D, F>(
    id: Naming,
    order: Order,
    ds: Seq<Card<D, F>>,
    t: Seq<Step>,
) -> bool {
    forall|i: int| 0 <= i < t.len() ==> #[trigger] scan_tells_at(id, order, ds, t, i)
}

pub open spec fn scan_tells_at<D, F>(
    id: Naming,
    order: Order,
    ds: Seq<Card<D, F>>,
    t: Seq<Step>,
    i: int,
) -> bool {
    scan_tells(id, order, ds[i], t[i])
}

pub open spec fn scan_tells<D, F>(id: Naming, order: Order, c: Card<D, F>, step: Step) -> bool {
    step matches Step::Scan { path, rule, reply: Ok(visited) } ==> walk_tells(
        id,
        order,
        c,
        directory_at(id, path),
        rule,
        visited,
    )
}

pub(crate) proof fn walks_tell_parts<D, F>(
    id: Naming,
    order: Order,
    cs: Seq<Card<D, F>>,
    t: Seq<Call<D, F>>,
    k: int,
)
    requires
        cs.len() == t.len() + 1,
        walks_tell(id, order, cs, t),
        0 <= k <= t.len(),
    ensures
        walks_tell(id, order, cs.take(k + 1), t.take(k)),
        walks_tell(id, order, cs.skip(k), t.skip(k)),
{
    assert forall|i: int| 0 <= i < k implies #[trigger] walk_tells_at(
        id,
        order,
        cs.take(k + 1),
        t.take(k),
        i,
    ) by {
        assert(walk_tells_at(id, order, cs, t, i));
    }
    assert forall|i: int| 0 <= i < t.skip(k).len() implies #[trigger] walk_tells_at(
        id,
        order,
        cs.skip(k),
        t.skip(k),
        i,
    ) by {
        assert(walk_tells_at(id, order, cs, t, k + i));
    }
}

pub(crate) proof fn scans_tell_parts<D, F>(
    id: Naming,
    order: Order,
    ds: Seq<Card<D, F>>,
    t: Seq<Step>,
    k: int,
)
    requires
        ds.len() == t.len() + 1,
        scans_tell(id, order, ds, t),
        0 <= k <= t.len(),
    ensures
        scans_tell(id, order, ds.take(k + 1), t.take(k)),
        scans_tell(id, order, ds.skip(k), t.skip(k)),
{
    assert forall|i: int| 0 <= i < k implies #[trigger] scan_tells_at(
        id,
        order,
        ds.take(k + 1),
        t.take(k),
        i,
    ) by {
        assert(scan_tells_at(id, order, ds, t, i));
    }
    assert forall|i: int| 0 <= i < t.skip(k).len() implies #[trigger] scan_tells_at(
        id,
        order,
        ds.skip(k),
        t.skip(k),
        i,
    ) by {
        assert(scan_tells_at(id, order, ds, t, k + i));
    }
}

pub(crate) proof fn same_entries_listed_alike<D, F>(c: Card<D, F>, d: Card<D, F>, directory: Seq<Seq<char>>)
    requires
        forall|place: Place| lies_under(place, directory) ==> #[trigger] unchanged_at(c, d, place),
    ensures
        entries_in(c, directory) == entries_in(d, directory),
{
    let one = entries_in(c, directory);
    let two = entries_in(d, directory);
    assert forall|name: Seq<char>| one.dom().contains(name) == two.dom().contains(name) by {
        let place = Place { directory, name };
        assert(lies_under(place, directory));
        assert(unchanged_at(c, d, place));
    }
    assert(one.dom() =~= two.dom());
    assert forall|name: Seq<char>| one.dom().contains(name) implies one[name] == two[name] by {
        let place = Place { directory, name };
        assert(lies_under(place, directory));
        assert(unchanged_at(c, d, place));
    }
    assert(one =~= two);
}

pub(crate) proof fn scanning_tells<D, F>(
    id: Naming,
    order: Order,
    cs: Seq<Card<D, F>>,
    t: Seq<Call<D, F>>,
    path: Seq<char>,
    rule: ScanRuleView,
    result: Result<Seq<EntryRecord>, FsOpError>,
)
    requires
        run(id, cs, t),
        walks_tell(id, order, cs, t),
        path_scanned(t, path, rule, result),
    ensures
        result matches Ok(visited) ==> walk_tells(
            id,
            order,
            cs[0],
            directory_at(id, path),
            rule,
            visited,
        ),
{
    if let Ok(visited) = result {
        let body = dir_iterated::<D, F>(rule);
        let (k, dir): (int, D) = choose|k: int, dir: D|
            {
                &&& 0 <= k < t.len()
                &&& #[trigger] dir_opened(t.take(k), path, Ok::<D, FsOpError>(dir))
                &&& t.last() == Call::<D, F>::CloseDir { dir }
                &&& body(t.subrange(k, t.len() - 1), dir, result)
            };
        run_middle(id, cs, t, k);
        dir_opening_runs(id, cs.take(k + 1), t.take(k), path, Ok::<D, FsOpError>(dir));
        assert(t.subrange(k, t.len() - 1)[0] == t[k]);
        assert(walk_tells_at(id, order, cs, t, k));
        assert(cs[k].dirs[dir] == directory_at(id, path));
        same_entries_listed_alike(cs[0], cs[k], directory_at(id, path));
    }
}

/// A run of the calls of some steps shows the card between those steps, and the walks among
/// them tell what it holds.
proof fn calls_run_as_telling_steps<D, F>(
    id: Naming,
    order: Order,
    cs: Seq<Card<D, F>>,
    t: Seq<Call<D, F>>,
    layout: MediaLayout,
    steps: Seq<Step>,
) -> (ds: Seq<Card<D, F>>)
    requires
        run(id, cs, t),
        walks_tell(id, order, cs, t),
        explained(t, layout, steps),
    ensures
        steps_run(id, ds, steps),
        scans_tell(id, order, ds, steps),
        ds[0] == cs[0],
        ds.last() == cs.last(),
    decreases steps.len(),
{
    reveal(explained);
    if steps.len() == 0 {
        seq![cs[0]]
    } else {
        let k = choose|k: int|
            0 <= k <= t.len() && explained(#[trigger] t.take(k), layout, steps.drop_last())
                && step_made(t.skip(k), layout, steps.last());
        run_parts(id, cs, t, k);
        walks_tell_parts(id, order, cs, t, k);
        let es = calls_run_as_telling_steps(
            id,
            order,
            cs.take(k + 1),
            t.take(k),
            layout,
            steps.drop_last(),
        );
        steps_leave_the_card(id, cs.skip(k), t.skip(k), layout, steps.last());
        if let Step::Scan { path, rule, reply } = steps.last() {
            scanning_tells(id, order, cs.skip(k), t.skip(k), path, rule, reply);
        }
        let ds = es.push(cs.last());
        assert forall|i: int| 0 <= i < steps.len() implies #[trigger] leaves_at(
            id,
            ds,
            steps,
            i,
        ) by {
            if i < steps.len() - 1 {
                assert(leaves_at(id, es, steps.drop_last(), i));
            }
        }
        assert forall|i: int| 0 <= i < steps.len() implies #[trigger] scan_tells_at(
            id,
            order,
            ds,
            steps,
            i,
        ) by {
            if i < steps.len() - 1 {
                assert(scan_tells_at(id, order, es, steps.drop_last(), i));
            }
        }
        ds
    }
}

/// Every entry is in folders that stand.
pub open spec fn rooted<D, F>(c: Card<D, F>) -> bool {
    forall|place: Place| #[trigger]
        c.entries.contains_key(place) ==> folders_stand(c, place.directory)
}

/// Where an entry below one directory would be below another.
pub open spec fn moved_place(
    place: Place,
    from: Seq<Seq<char>>,
    to: Seq<Seq<char>>,
) -> Place {
    Place { directory: to + place.directory.skip(from.len() as int), name: place.name }
}

/// What `c` holds at `p` is what `d` holds at `q`: a folder, or a file with the same contents.
pub open spec fn carried_at<D, F>(c: Card<D, F>, d: Card<D, F>, p: Place, q: Place) -> bool {
    match c.entries[p] {
        Entry::File { bytes, .. } => holds_file(d, q, bytes),
        Entry::Folder { .. } => holds_folder(d, q),
    }
}

/// Everything below `from` is below `to`.
pub open spec fn carried<D, F>(
    id: Naming,
    c: Card<D, F>,
    d: Card<D, F>,
    from: Seq<char>,
    to: Seq<char>,
) -> bool {
    forall|place: Place| #[trigger]
        c.entries.contains_key(place) && lies_under(place, directory_at(id, from)) ==> carried_at(
            c,
            d,
            place,
            moved_place(place, directory_at(id, from), directory_at(id, to)),
        )
}

/// What is at `below` and below it, below `from`, is at the same place below `to`.
pub open spec fn child_carried<D, F>(
    id: Naming,
    c: Card<D, F>,
    d: Card<D, F>,
    from: Seq<char>,
    to: Seq<char>,
    below: Seq<char>,
) -> bool {
    forall|place: Place| #[trigger]
        c.entries.contains_key(place) && belongs_to(id, place, below) ==> carried_at(
            c,
            d,
            place,
            moved_place(place, directory_at(id, from), directory_at(id, to)),
        )
}

/// No place belongs to both paths.
pub open spec fn apart(id: Naming, from: Seq<char>, to: Seq<char>) -> bool {
    forall|place: Place|
        !(#[trigger] belongs_to(id, place, from) && belongs_to(id, place, to))
}

/// What belongs to `path` is the same on both cards.
pub open spec fn kept_at_and_below<D, F>(
    id: Naming,
    c: Card<D, F>,
    d: Card<D, F>,
    path: Seq<char>,
) -> bool {
    forall|place: Place| belongs_to(id, place, path) ==> #[trigger] unchanged_at(c, d, place)
}

/// The path names an entry of its parent.
pub open spec fn is_entry_path(id: Naming, path: Seq<char>) -> bool {
    &&& path.len() > 0
    &&& directory_at(id, path) == place_of(id, path).directory.push(place_of(id, path).name)
}

/// The place of an entry that is joined to a folder.
pub(crate) proof fn joined_place(id: Naming, path: Seq<char>, name: Seq<char>)
    requires
        path.len() > 0,
        name.len() > 0,
        !name.contains('/'),
    ensures
        place_of(id, joined_path(path, name)) == (Place {
            directory: directory_at(id, path),
            name: id(name),
        }),
        directory_at(id, joined_path(path, name)) == directory_at(id, path).push(id(name)),
        is_entry_path(id, joined_path(path, name)),
{
    let below = joined_path(path, name);
    joining_adds_a_component(path, name);
    parent_of_joined(path, name);
    leaf_of_joined(path, name);
    assert(directory_at(id, below) =~= directory_at(id, path).push(id(name)));
}

pub(crate) proof fn children_stay_apart(
    id: Naming,
    from: Seq<char>,
    to: Seq<char>,
    name: Seq<char>,
)
    requires
        apart(id, from, to),
    ensures
        apart(id, joined_path(from, name), joined_path(to, name)),
{
    children_lie_below(id, from, name);
    children_lie_below(id, to, name);
    assert forall|place: Place|
        !(#[trigger] belongs_to(id, place, joined_path(from, name)) && belongs_to(
            id,
            place,
            joined_path(to, name),
        )) by {
        if belongs_to(id, place, joined_path(from, name)) && belongs_to(
            id,
            place,
            joined_path(to, name),
        ) {
            assert(lies_under(place, directory_at(id, from)));
            assert(lies_under(place, directory_at(id, to)));
            assert(belongs_to(id, place, from));
        }
    }
}

proof fn children_are_listed(skip: usize, limit: usize, all: Seq<EntryRecord>)
    ensures
        listing((ScanRuleView::Children { skip, limit }), all) == children(all),
    decreases all.len(),
{
    reveal(Seq::filter);
    let rule = ScanRuleView::Children { skip, limit };
    if all.len() > 0 {
        children_are_listed(skip, limit, all.drop_last());
        assert(counts(rule, all.last()) == is_child(all.last()));
    }
}

/// The children as the walks over folder trees see them.
pub open spec fn child_entries(kids: Seq<EntryRecord>) -> Seq<ChildEntry> {
    Seq::new(kids.len(), |i: int| child_of(kids[i]))
}

/// A batch of children that a true walk fetched.
pub(crate) proof fn batches_tell(
    id: Naming,
    held: Map<Seq<char>, Entry>,
    all: Seq<EntryRecord>,
    visited: Seq<EntryRecord>,
    skip: usize,
)
    requires
        lists(id, held, all),
        scanned(ScanRuleView::Children { skip, limit: CHILD_BATCH }, visited) == scanned(
            ScanRuleView::Children { skip, limit: CHILD_BATCH },
            all,
        ),
        skip <= children(all).len(),
    ensures
        ({
            let (batch, more) = children_found(visited, skip);
            let kids = child_entries(children(all));
            let next = skip + batch.len();
            &&& next <= kids.len()
            &&& batch == kids.subrange(skip as int, next)
            &&& more ==> batch.len() > 0
            &&& !more ==> next == kids.len()
        }),
{
    let rule = ScanRuleView::Children { skip, limit: CHILD_BATCH };
    let kids = children(all);
    children_are_listed(skip, CHILD_BATCH, all);
    batches_are_slices_of_the_children(skip, CHILD_BATCH, all);
    let n = kids.len() as int;
    let (batch, more) = children_found(visited, skip);
    let end = least(skip + CHILD_BATCH, n);
    assert(scanned(rule, visited).kept == kids.subrange(skip as int, end));
    assert(batch =~= child_entries(kids).subrange(skip as int, end));
}

/// What was carried stays so where its new place is not touched.
proof fn stays_carried<D, F>(
    id: Naming,
    o: Card<D, F>,
    m: Card<D, F>,
    d: Card<D, F>,
    from: Seq<char>,
    to: Seq<char>,
    done: Seq<char>,
    name: Seq<char>,
)
    requires
        from.len() > 0 && to.len() > 0,
        done.len() > 0 && !done.contains('/'),
        name.len() > 0 && !name.contains('/'),
        id(done) != id(name),
        child_carried(id, o, m, from, to, joined_path(from, done)),
        only_at_or_below(id, m, d, joined_path(to, name)),
    ensures
        child_carried(id, o, d, from, to, joined_path(from, done)),
{
    let below = joined_path(from, done);
    let target = joined_path(to, name);
    let source = directory_at(id, from);
    let goal = directory_at(id, to);
    joined_place(id, from, done);
    joined_place(id, to, name);
    assert forall|place: Place| #[trigger]
        o.entries.contains_key(place) && belongs_to(id, place, below) implies carried_at(
        o,
        d,
        place,
        moved_place(place, source, goal),
    ) by {
        let q = moved_place(place, source, goal);
        let n = goal.len() as int;
        assert(!belongs_to(id, q, target)) by {
            if place == place_of(id, below) {
                assert(q.directory =~= goal);
                assert(q.name == id(done));
                assert(goal.push(id(name)).len() > q.directory.len());
            } else {
                let longer = source.push(id(done));
                assert(longer.is_prefix_of(place.directory));
                assert(place.directory[source.len() as int] == longer[source.len() as int]);
                assert(q.directory[n] == id(done));
                assert(q.directory.len() > n);
                if goal.push(id(name)).is_prefix_of(q.directory) {
                    assert(goal.push(id(name))[n] == q.directory[n]);
                }
                if q == place_of(id, target) {
                    assert(q.directory.len() == n);
                }
            }
        }
        assert(unchanged_at(m, d, q));
    }
}

/// The source of a copy stays as it was, and what is below the destination alone changes.
pub(crate) proof fn source_stays<D, F>(
    id: Naming,
    o: Card<D, F>,
    m: Card<D, F>,
    d: Card<D, F>,
    from: Seq<char>,
    to: Seq<char>,
)
    requires
        kept_at_and_below(id, o, m, from),
        apart(id, from, to),
        only_at_or_below(id, m, d, to),
    ensures
        kept_at_and_below(id, o, d, from),
{
    assert forall|place: Place| belongs_to(id, place, from) implies #[trigger] unchanged_at(
        o,
        d,
        place,
    ) by {
        assert(!belongs_to(id, place, to));
        assert(unchanged_at(o, m, place));
        assert(unchanged_at(m, d, place));
    }
}

/// When every child was carried, the whole folder was.
proof fn all_children_carried<D, F>(
    id: Naming,
    o: Card<D, F>,
    d: Card<D, F>,
    from: Seq<char>,
    to: Seq<char>,
    all: Seq<EntryRecord>,
)
    requires
        rooted(o),
        from.len() > 0,
        lists(id, entries_in(o, directory_at(id, from)), all),
        forall|j: int|
            0 <= j < children(all).len() ==> child_carried(
                id,
                o,
                d,
                from,
                to,
                joined_path(from, (#[trigger] children(all)[j]).name@),
            ),
    ensures
        carried(id, o, d, from, to),
{
    let source = directory_at(id, from);
    let n = source.len() as int;
    let held = entries_in(o, source);
    let kids = children(all);
    assert forall|place: Place| #[trigger]
        o.entries.contains_key(place) && lies_under(place, source) implies carried_at(
        o,
        d,
        place,
        moved_place(place, source, directory_at(id, to)),
    ) by {
        let x = if place.directory.len() == n {
            place.name
        } else {
            place.directory[n]
        };
        assert(place.directory.take(n) =~= source) by {
            assert forall|i: int| 0 <= i < n implies place.directory[i] == source[i] by {}
        }
        if place.directory.len() == n {
            assert(place.directory =~= source);
        } else {
            assert(folders_stand(o, place.directory));
            assert(holds_folder(
                o,
                Place { directory: place.directory.take(n), name: place.directory[n] },
            ));
        }
        assert(o.entries.contains_key(Place { directory: source, name: x }));
        assert(held.contains_key(x));
        assert(has_child(id, kids, x));
        let j = choose|j: int| 0 <= j < kids.len() && id((#[trigger] kids[j]).name@) == x;
        let below = joined_path(from, kids[j].name@);
        joined_place(id, from, kids[j].name@);
        if place.directory.len() == n {
            assert(place == place_of(id, below));
        } else {
            assert(source.push(x) =~= place.directory.take(n + 1));
            assert(source.push(x).is_prefix_of(place.directory));
        }
        assert(belongs_to(id, place, below));
        assert(child_carried(id, o, d, from, to, below));
    }
}

pub(crate) proof fn safe_copy_runs<D, F>(
    id: Naming,
    ds: Seq<Card<D, F>>,
    t: Seq<Step>,
    from: Seq<char>,
    to: Seq<char>,
    result: Result<(), FsOpError>,
)
    requires
        steps_run(id, ds, t),
        file_copied_safely(t, from, to, result),
    ensures
        forall|place: Place|
            place != place_of(id, to) ==> #[trigger] unchanged_at(ds[0], ds.last(), place),
        result is Ok ==> same_contents(ds.last(), place_of(id, from), place_of(id, to)),
{
    let own = place_of(id, to);
    first_step_leaves(id, ds, t);
    assert forall|place: Place| place != own implies #[trigger] unchanged_at(
        ds[0],
        ds[1],
        place,
    ) by {
        same_elsewhere_at(ds[0], ds[1], own, place);
    }
    match t[0]->Copy_reply {
        Ok(_) => {
            assert(ds.last() == ds[1]);
        },
        Err(error) => {
            let u = t.skip(1);
            let es = ds.skip(1);
            let n = probe_steps(error);
            let verdict = choose|verdict: (FsOpError, bool)| #[trigger]
                assessed(u.take(n), error, verdict) && if verdict.1 {
                    &&& u.len() == n + 1
                    &&& u.last() matches Step::Delete { path, reply: removed } && path == to
                        && result == Err::<(), FsOpError>(
                        cleanup_report(verdict.0, removed),
                    )
                } else {
                    u.len() == n && result == Err::<(), FsOpError>(verdict.0)
                };
            steps_run_parts(id, es, u, n);
            assessing_changes_nothing(id, es.take(n + 1), u.take(n), error, verdict);
            if verdict.1 {
                first_step_leaves(id, es.skip(n), u.skip(n));
                assert(u.skip(n)[0] == u.last());
                assert(es.skip(n)[1] == es.last());
                let removed = u.last()->Delete_reply;
                assert forall|place: Place| place != own implies #[trigger] unchanged_at(
                    ds[0],
                    ds.last(),
                    place,
                ) by {
                    assert(unchanged_at(ds[0], ds[1], place));
                    removal_unchanged_at(es[n], es.last(), own, removed, place);
                }
            } else {
                assert(es.last() == es[n]);
                assert forall|place: Place| place != own implies #[trigger] unchanged_at(
                    ds[0],
                    ds.last(),
                    place,
                ) by {
                    assert(unchanged_at(ds[0], ds[1], place));
                }
            }
        },
    }
}

/// The children of the folder at `path`, as the card lists them.
pub open spec fn kids_of<D, F>(
    id: Naming,
    order: Order,
    c: Card<D, F>,
    path: Seq<char>,
) -> Seq<EntryRecord> {
    children(order(entries_in(c, directory_at(id, path))))
}

/// The first `n` children were carried.
pub open spec fn carried_up_to<D, F>(
    id: Naming,
    order: Order,
    c: Card<D, F>,
    d: Card<D, F>,
    from: Seq<char>,
    to: Seq<char>,
    n: int,
) -> bool {
    forall|j: int|
        0 <= j < n ==> child_carried(
            id,
            c,
            d,
            from,
            to,
            joined_path(from, (#[trigger] kids_of(id, order, c, from)[j]).name@),
        )
}

/// A folder among the children was carried.
proof fn folder_child_carried<D, F>(
    id: Naming,
    o: Card<D, F>,
    d: Card<D, F>,
    from: Seq<char>,
    to: Seq<char>,
    name: Seq<char>,
)
    requires
        from.len() > 0 && to.len() > 0,
        name.len() > 0 && !name.contains('/'),
        carried(id, o, d, joined_path(from, name), joined_path(to, name)),
        holds_folder(d, place_of(id, joined_path(to, name))),
        holds_folder(o, place_of(id, joined_path(from, name))),
    ensures
        child_carried(id, o, d, from, to, joined_path(from, name)),
{
    let below = joined_path(from, name);
    let target = joined_path(to, name);
    let source = directory_at(id, from);
    let goal = directory_at(id, to);
    joined_place(id, from, name);
    joined_place(id, to, name);
    assert forall|place: Place| #[trigger]
        o.entries.contains_key(place) && belongs_to(id, place, below) implies carried_at(
        o,
        d,
        place,
        moved_place(place, source, goal),
    ) by {
        let q = moved_place(place, source, goal);
        if place == place_of(id, below) {
            assert(q.directory =~= goal);
        } else {
            let longer = source.push(id(name));
            assert(longer.is_prefix_of(place.directory));
            assert(place.directory[source.len() as int] == longer[source.len() as int]);
            assert(q.directory =~= goal.push(id(name)) + place.directory.skip(
                longer.len() as int,
            ));
            assert(q == moved_place(
                place,
                directory_at(id, below),
                directory_at(id, target),
            ));
        }
    }
}

/// A file among the children was carried.
proof fn file_child_carried<D, F>(
    id: Naming,
    o: Card<D, F>,
    d: Card<D, F>,
    from: Seq<char>,
    to: Seq<char>,
    name: Seq<char>,
)
    requires
        from.len() > 0 && to.len() > 0,
        name.len() > 0 && !name.contains('/'),
        rooted(o),
        o.entries.contains_key(place_of(id, joined_path(from, name))),
        !holds_folder(o, place_of(id, joined_path(from, name))),
        unchanged_at(o, d, place_of(id, joined_path(from, name))),
        same_contents(
            d,
            place_of(id, joined_path(from, name)),
            place_of(id, joined_path(to, name)),
        ),
    ensures
        child_carried(id, o, d, from, to, joined_path(from, name)),
{
    let below = joined_path(from, name);
    let source = directory_at(id, from);
    let goal = directory_at(id, to);
    let n = source.len() as int;
    joined_place(id, from, name);
    joined_place(id, to, name);
    assert forall|place: Place| #[trigger]
        o.entries.contains_key(place) && belongs_to(id, place, below) implies carried_at(
        o,
        d,
        place,
        moved_place(place, source, goal),
    ) by {
        let q = moved_place(place, source, goal);
        if place == place_of(id, below) {
            assert(q.directory =~= goal);
            assert(q == place_of(id, joined_path(to, name)));
        } else {
            let longer = source.push(id(name));
            assert(longer.is_prefix_of(place.directory));
            assert(place.directory[n] == longer[n]);
            assert(place.directory.take(n) =~= source) by {
                assert forall|i: int| 0 <= i < n implies place.directory[i] == source[i] by {
                    assert(longer[i] == place.directory[i]);
                }
            }
            assert(folders_stand(o, place.directory));
            assert(holds_folder(
                o,
                Place { directory: place.directory.take(n), name: place.directory[n] },
            ));
        }
    }
}

pub(crate) proof fn tree_copy_runs<D, F>(
    id: Naming,
    order: Order,
    o: Card<D, F>,
    ds: Seq<Card<D, F>>,
    t: Seq<Step>,
    from: Seq<char>,
    to: Seq<char>,
    depth: int,
    result: Result<(), FsOpError>,
)
    requires
        steps_run(id, ds, t),
        scans_tell(id, order, ds, t),
        tree_copied(t, from, to, depth, result),
        rooted(o),
        apart(id, from, to),
        kept_at_and_below(id, o, ds[0], from),
        from.len() > 0,
        is_entry_path(id, to),
    ensures
        only_at_or_below(id, ds[0], ds.last(), to),
        result is Ok ==> carried(id, o, ds.last(), from, to) && holds_folder(
            ds.last(),
            place_of(id, to),
        ),
    decreases MAX_TREE_DEPTH - depth, t.len(), 0int,
{
    let own = place_of(id, to);
    let goal = directory_at(id, to);
    if depth >= MAX_TREE_DEPTH {
        assert(ds.last() == ds[0]);
    } else {
        first_step_leaves(id, ds, t);
        scans_tell_parts(id, order, ds, t, 1);
        assert(only_at_or_below(id, ds[0], ds[1], to)) by {
            assert forall|place: Place| !belongs_to(id, place, to) implies #[trigger] unchanged_at(
                ds[0],
                ds[1],
                place,
            ) by {
                same_elsewhere_at(ds[0], ds[1], own, place);
            }
        }
        if t[0]->MakeFolder_reply is Err {
            assert(ds.last() == ds[1]);
        } else {
            source_stays(id, o, ds[0], ds[1], from, to);
            batches_copy_run(
                id,
                order,
                o,
                ds.skip(1),
                t.skip(1),
                from,
                to,
                depth,
                0,
                result,
            );
            assert forall|place: Place| !belongs_to(id, place, to) implies #[trigger] unchanged_at(
                ds[0],
                ds.last(),
                place,
            ) by {
                assert(!lies_under(place, goal));
                assert(unchanged_at(ds[0], ds[1], place));
                assert(unchanged_at(ds[1], ds.last(), place));
            }
            assert(!lies_under(own, goal)) by {
                assert(goal.len() > own.directory.len());
            }
            assert(unchanged_at(ds[1], ds.last(), own));
        }
    }
}

proof fn batches_copy_run<D, F>(
    id: Naming,
    order: Order,
    o: Card<D, F>,
    ds: Seq<Card<D, F>>,
    t: Seq<Step>,
    from: Seq<char>,
    to: Seq<char>,
    depth: int,
    skip: int,
    result: Result<(), FsOpError>,
)
    requires
        steps_run(id, ds, t),
        scans_tell(id, order, ds, t),
        batches_copied(t, from, to, depth, skip, result),
        rooted(o),
        apart(id, from, to),
        kept_at_and_below(id, o, ds[0], from),
        from.len() > 0,
        is_entry_path(id, to),
        0 <= skip <= kids_of(id, order, o, from).len(),
        carried_up_to(id, order, o, ds[0], from, to, skip),
    ensures
        only_under(ds[0], ds.last(), directory_at(id, to)),
        result is Ok ==> carried(id, o, ds.last(), from, to),
    decreases MAX_TREE_DEPTH - depth, t.len(), 0int,
{
    let listed = choose|listed: Result<(Seq<ChildEntry>, bool), FsOpError>| #[trigger]
        children_listed(t[0], from, skip, listed) && match listed {
            Err(error) => t.len() == 1 && result == Err::<(), FsOpError>(error),
            Ok((batch, more)) => children_copied(
                t.skip(1),
                from,
                to,
                depth,
                batch,
                0,
                more,
                skip + batch.len(),
                result,
            ),
        };
    first_step_leaves(id, ds, t);
    scans_tell_parts(id, order, ds, t, 1);
    if listed is Err {
        assert(ds.last() == ds[1]);
    } else {
        let source = directory_at(id, from);
        let (batch, more) = listed->Ok_0;
        assert(scan_tells_at(id, order, ds, t, 0));
        assert(entries_in(o, source) == entries_in(ds[0], source)) by {
            assert forall|place: Place| lies_under(place, source) implies #[trigger] unchanged_at(
                o,
                ds[0],
                place,
            ) by {
                assert(belongs_to(id, place, from));
            }
            same_entries_listed_alike(o, ds[0], source);
        }
        let all = order(entries_in(o, source));
        let visited = t[0]->Scan_reply->Ok_0;
        batches_tell(id, entries_in(o, source), all, visited, skip as usize);
        assert(kept_at_and_below(id, o, ds[1], from)) by {
            assert forall|place: Place| belongs_to(id, place, from) implies #[trigger] unchanged_at(
                o,
                ds[1],
                place,
            ) by {
                assert(unchanged_at(o, ds[0], place));
            }
        }
        assert(carried_up_to(id, order, o, ds[1], from, to, skip)) by {
            same_contents_carried_alike(id, order, o, ds[0], ds[1], from, to, skip);
        }
        let next = skip + batch.len();
        assert(next - batch.len() + 0 == skip);
        children_copy_run(
            id,
            order,
            o,
            ds.skip(1),
            t.skip(1),
            from,
            to,
            depth,
            batch,
            0,
            more,
            next,
            result,
        );
        assert forall|place: Place|
            !lies_under(place, directory_at(id, to)) implies #[trigger] unchanged_at(
            ds[0],
            ds.last(),
            place,
        ) by {
            assert(unchanged_at(ds[1], ds.last(), place));
        }
    }
}

proof fn same_contents_carried_alike<D, F>(
    id: Naming,
    order: Order,
    o: Card<D, F>,
    m: Card<D, F>,
    d: Card<D, F>,
    from: Seq<char>,
    to: Seq<char>,
    n: int,
)
    requires
        m.entries == d.entries,
        carried_up_to(id, order, o, m, from, to, n),
    ensures
        carried_up_to(id, order, o, d, from, to, n),
{
    let source = directory_at(id, from);
    let goal = directory_at(id, to);
    assert forall|j: int| 0 <= j < n implies child_carried(
        id,
        o,
        d,
        from,
        to,
        joined_path(from, (#[trigger] kids_of(id, order, o, from)[j]).name@),
    ) by {
        let below = joined_path(from, kids_of(id, order, o, from)[j].name@);
        assert(child_carried(id, o, m, from, to, below));
        assert forall|place: Place| #[trigger]
            o.entries.contains_key(place) && belongs_to(id, place, below) implies carried_at(
            o,
            d,
            place,
            moved_place(place, source, goal),
        ) by {
            assert(carried_at(o, m, place, moved_place(place, source, goal)));
        }
    }
}

proof fn children_copy_run<D, F>(
    id: Naming,
    order: Order,
    o: Card<D, F>,
    ds: Seq<Card<D, F>>,
    t: Seq<Step>,
    from: Seq<char>,
    to: Seq<char>,
    depth: int,
    batch: Seq<ChildEntry>,
    i: int,
    more: bool,
    next: int,
    result: Result<(), FsOpError>,
)
    requires
        steps_run(id, ds, t),
        scans_tell(id, order, ds, t),
        children_copied(t, from, to, depth, batch, i, more, next, result),
        rooted(o),
        apart(id, from, to),
        kept_at_and_below(id, o, ds[0], from),
        from.len() > 0,
        is_entry_path(id, to),
        lists(
            id,
            entries_in(o, directory_at(id, from)),
            order(entries_in(o, directory_at(id, from))),
        ),
        i >= 0,
        batch.len() <= next <= kids_of(id, order, o, from).len(),
        batch == child_entries(kids_of(id, order, o, from)).subrange(next - batch.len(), next),
        more ==> batch.len() > 0,
        !more ==> next == kids_of(id, order, o, from).len(),
        carried_up_to(id, order, o, ds[0], from, to, next - batch.len() + i),
    ensures
        only_under(ds[0], ds.last(), directory_at(id, to)),
        result is Ok ==> carried(id, o, ds.last(), from, to),
    decreases MAX_TREE_DEPTH - depth, t.len(), batch.len() - i + 1,
{
    let source = directory_at(id, from);
    let goal = directory_at(id, to);
    let kids = kids_of(id, order, o, from);
    if i == batch.len() {
        if more && batch.len() > 0 {
            batches_copy_run(id, order, o, ds, t, from, to, depth, next, result);
        } else {
            assert(ds.last() == ds[0]);
            all_children_carried(id, o, ds[0], from, to, order(entries_in(o, source)));
        }
    } else {
        let name = batch[i].name@;
        let below = joined_path(from, batch[i].name@);
        let target = joined_path(to, batch[i].name@);
        let (k, outcome): (int, Result<(), FsOpError>) = choose|
            k: int,
            outcome: Result<(), FsOpError>,
        |
            {
                &&& #[trigger] mark_end(k, outcome)
                &&& 0 <= k <= t.len()
                &&& if batch[i].is_dir {
                    tree_copied(t.take(k), below, target, depth + 1, outcome)
                } else {
                    file_copied_safely(t.take(k), below, target, outcome)
                }
                &&& if outcome is Err {
                    k == t.len() && result == outcome
                } else {
                    children_copied(t.skip(k), from, to, depth, batch, i + 1, more, next, result)
                }
            };
        let j = next - batch.len() + i;
        assert(batch[i] == child_of(kids[j]));
        assert(name == kids[j].name@);
        joined_place(id, from, name);
        joined_place(id, to, name);
        children_lie_below(id, from, name);
        children_lie_below(id, to, name);
        children_stay_apart(id, from, to, name);
        assert(kept_at_and_below(id, o, ds[0], below)) by {
            assert forall|place: Place| belongs_to(id, place, below) implies #[trigger] unchanged_at(
                o,
                ds[0],
                place,
            ) by {
                assert(lies_under(place, source));
                assert(belongs_to(id, place, from));
            }
        }
        steps_run_parts(id, ds, t, k);
        scans_tell_parts(id, order, ds, t, k);
        let spot = place_of(id, below);
        assert(entries_in(o, source).contains_key(id(name)));
        assert(o.entries.contains_key(spot));
        if batch[i].is_dir {
            tree_copy_runs(
                id,
                order,
                o,
                ds.take(k + 1),
                t.take(k),
                below,
                target,
                depth + 1,
                outcome,
            );
            if outcome is Ok {
                folder_child_carried(id, o, ds[k], from, to, name);
            }
        } else {
            safe_copy_runs(id, ds.take(k + 1), t.take(k), below, target, outcome);
            assert(only_at_or_below(id, ds[0], ds[k], target));
            if outcome is Ok {
                assert(belongs_to(id, spot, below));
                assert(unchanged_at(o, ds[0], spot));
                assert(spot != place_of(id, target));
                assert(unchanged_at(ds[0], ds[k], spot));
                file_child_carried(id, o, ds[k], from, to, name);
            }
        }
        assert(only_under(ds[0], ds[k], goal)) by {
            assert forall|place: Place| !lies_under(place, goal) implies #[trigger] unchanged_at(
                ds[0],
                ds[k],
                place,
            ) by {
                assert(!belongs_to(id, place, target));
            }
        }
        if outcome is Err {
            assert(ds.last() == ds[k]);
        } else {
            assert(only_at_or_below(id, ds[0], ds[k], to)) by {
                assert forall|place: Place| !belongs_to(id, place, to) implies #[trigger] unchanged_at(
                    ds[0],
                    ds[k],
                    place,
                ) by {
                    assert(!lies_under(place, goal));
                }
            }
            source_stays(id, o, ds[0], ds[k], from, to);
            assert forall|l: int| 0 <= l < j + 1 implies child_carried(
                id,
                o,
                ds[k],
                from,
                to,
                joined_path(from, (#[trigger] kids[l]).name@),
            ) by {
                if l < j {
                    assert(kids_of(id, order, o, from)[l] == kids[l]);
                    stays_carried(id, o, ds[0], ds[k], from, to, kids[l].name@, name);
                }
            }
            assert(carried_up_to(id, order, o, ds[k], from, to, j + 1));
            children_copy_run(
                id,
                order,
                o,
                ds.skip(k),
                t.skip(k),
                from,
                to,
                depth,
                batch,
                i + 1,
                more,
                next,
                result,
            );
            assert forall|place: Place| !lies_under(place, goal) implies #[trigger] unchanged_at(
                ds[0],
                ds.last(),
                place,
            ) by {
                assert(unchanged_at(ds[0], ds[k], place));
                assert(unchanged_at(ds[k], ds.last(), place));
            }
        }
    }
}

/// Everything that was at `from` and below is at `to` and below.
pub open spec fn whole_carried<D, F>(
    id: Naming,
    c: Card<D, F>,
    d: Card<D, F>,
    from: Seq<char>,
    to: Seq<char>,
) -> bool {
    &&& carried_at(c, d, place_of(id, from), place_of(id, to))
    &&& carried(id, c, d, from, to)
}

/// What a move leaves. A success leaves everything at the new name and nothing at the old one.
/// After a failure everything is at the new name, or the old one is untouched. Nothing else is
/// ever touched.
pub open spec fn move_leaves<D, F>(
    id: Naming,
    c: Card<D, F>,
    d: Card<D, F>,
    from: Seq<char>,
    to: Seq<char>,
    result: Result<(), FsOpError>,
) -> bool {
    &&& forall|place: Place|
        !belongs_to(id, place, from) && !belongs_to(id, place, to) ==> #[trigger] unchanged_at(
            c,
            d,
            place,
        )
    &&& match result {
        Ok(_) => {
            &&& whole_carried(id, c, d, from, to)
            &&& forall|place: Place| #[trigger]
                belongs_to(id, place, from) ==> !d.entries.contains_key(place)
        },
        Err(_) => kept_at_and_below(id, c, d, from) || whole_carried(id, c, d, from, to),
    }
}

/// An entry that is there and one that is not, and is not below the first, lie apart.
pub(crate) proof fn source_and_goal_lie_apart<D, F>(
    id: Naming,
    c: Card<D, F>,
    from: Seq<char>,
    to: Seq<char>,
)
    requires
        rooted(c),
        is_entry_path(id, from),
        is_entry_path(id, to),
        c.entries.contains_key(place_of(id, from)),
        !c.entries.contains_key(place_of(id, to)),
        !lies_under(place_of(id, to), directory_at(id, from)),
    ensures
        apart(id, from, to),
{
    let f = directory_at(id, from);
    let g = directory_at(id, to);
    let source = place_of(id, from);
    let goal = place_of(id, to);
    assert(!lies_under(source, g)) by {
        if g.is_prefix_of(source.directory) {
            let n = goal.directory.len() as int;
            assert(folders_stand(c, source.directory));
            assert(source.directory[n] == g[n]);
            assert(source.directory.take(n) =~= goal.directory) by {
                assert forall|i: int| 0 <= i < n implies source.directory[i]
                    == goal.directory[i] by {
                    assert(source.directory[i] == g[i]);
                }
            }
            assert(holds_folder(
                c,
                Place { directory: source.directory.take(n), name: source.directory[n] },
            ));
        }
    }
    assert forall|place: Place|
        !(#[trigger] belongs_to(id, place, from) && belongs_to(id, place, to)) by {
        if lies_under(place, f) && lies_under(place, g) {
            if f.len() < g.len() {
                assert(f =~= goal.directory.take(f.len() as int)) by {
                    assert forall|i: int| 0 <= i < f.len() implies f[i] == goal.directory[i] by {
                        assert(f[i] == place.directory[i]);
                        assert(g[i] == place.directory[i]);
                    }
                }
                assert(lies_under(goal, f));
            } else if g.len() < f.len() {
                assert(g =~= source.directory.take(g.len() as int)) by {
                    assert forall|i: int| 0 <= i < g.len() implies g[i] == source.directory[i] by {
                        assert(f[i] == place.directory[i]);
                        assert(g[i] == place.directory[i]);
                    }
                }
                assert(lies_under(source, g));
            } else {
                assert(f =~= g) by {
                    assert forall|i: int| 0 <= i < f.len() implies f[i] == g[i] by {
                        assert(f[i] == place.directory[i]);
                        assert(g[i] == place.directory[i]);
                    }
                }
                let n = source.directory.len() as int;
                assert(goal.directory =~= g.take(n));
                assert(source.directory =~= f.take(n));
                assert(source.name == f[n] && goal.name == g[n]);
                assert(source == goal);
            }
        }
    }
}

/// What was carried stays so when the old name is removed.
proof fn removal_spares_the_copy<D, F>(
    id: Naming,
    c: Card<D, F>,
    m: Card<D, F>,
    d: Card<D, F>,
    from: Seq<char>,
    to: Seq<char>,
)
    requires
        apart(id, from, to),
        whole_carried(id, c, m, from, to),
        only_at_or_below(id, m, d, from),
    ensures
        whole_carried(id, c, d, from, to),
{
    let f = directory_at(id, from);
    let g = directory_at(id, to);
    let goal = place_of(id, to);
    assert(belongs_to(id, goal, to));
    assert(!belongs_to(id, goal, from));
    assert(unchanged_at(m, d, goal));
    assert forall|place: Place| #[trigger]
        c.entries.contains_key(place) && lies_under(place, f) implies carried_at(
        c,
        d,
        place,
        moved_place(place, f, g),
    ) by {
        let q = moved_place(place, f, g);
        assert(g =~= q.directory.take(g.len() as int));
        assert(belongs_to(id, q, to));
        assert(!belongs_to(id, q, from));
        assert(unchanged_at(m, d, q));
    }
}

/// The looks after a move find what is there.
pub(crate) proof fn confirming_runs<D, F>(
    id: Naming,
    ds: Seq<Card<D, F>>,
    t: Seq<Step>,
    from: Seq<char>,
    to: Seq<char>,
    result: Result<(), FsOpError>,
)
    requires
        steps_run(id, ds, t),
        move_confirmed(t, from, to, result),
        !ds[0].entries.contains_key(place_of(id, from)),
        ds[0].entries.contains_key(place_of(id, to)),
    ensures
        ds.last().entries == ds[0].entries,
        result is Ok,
{
    first_step_leaves(id, ds, t);
    first_step_leaves(id, ds.skip(1), t.skip(1));
    assert(t.skip(1)[0] == t[1]);
    assert(ds.skip(1)[1] == ds[2]);
    assert(ds.last() == ds[2]);
}

proof fn tree_move_runs<D, F>(
    id: Naming,
    order: Order,
    ds: Seq<Card<D, F>>,
    t: Seq<Step>,
    from: Seq<char>,
    to: Seq<char>,
    result: Result<(), FsOpError>,
)
    requires
        steps_run(id, ds, t),
        scans_tell(id, order, ds, t),
        tree_moved(t, from, to, result),
        rooted(ds[0]),
        apart(id, from, to),
        is_entry_path(id, from),
        is_entry_path(id, to),
        holds_folder(ds[0], place_of(id, from)),
    ensures
        move_leaves(id, ds[0], ds.last(), from, to, result),
{
    let source = place_of(id, from);
    let goal = place_of(id, to);
    let (k, copied): (int, Result<(), FsOpError>) = choose|k: int, copied: Result<(), FsOpError>|
        {
            &&& 0 <= k <= t.len()
            &&& #[trigger] tree_copied(t.take(k), from, to, 0, copied)
            &&& match copied {
                Err(error) => tree_copy_cleaned_up(t.skip(k), error, to, result),
                Ok(_) => source_tree_removed(t.skip(k), from, to, result),
            }
        };
    steps_run_parts(id, ds, t, k);
    scans_tell_parts(id, order, ds, t, k);
    tree_copy_runs(id, order, ds[0], ds.take(k + 1), t.take(k), from, to, 0, copied);
    source_stays(id, ds[0], ds[0], ds[k], from, to);
    let u = t.skip(k);
    let es = ds.skip(k);
    match copied {
        Err(error) => {
            tree_cleanup_runs(id, es, u, error, to, result);
            source_stays(id, ds[0], es[0], es.last(), from, to);
            assert forall|place: Place|
                !belongs_to(id, place, from) && !belongs_to(id, place, to)
                implies #[trigger] unchanged_at(ds[0], ds.last(), place) by {
                assert(unchanged_at(ds[0], ds[k], place));
                assert(unchanged_at(es[0], es.last(), place));
            }
        },
        Ok(_) => {
            let (m, destroyed, removed): (int, bool, Result<(), FsOpError>) = choose|
                m: int,
                destroyed: bool,
                removed: Result<(), FsOpError>,
            |
                {
                    &&& 0 <= m <= u.len()
                    &&& #[trigger] tree_deleted(
                        u.take(m),
                        from,
                        0,
                        MAX_DELETE_ROUNDS as int,
                        false,
                        destroyed,
                        removed,
                    )
                    &&& match removed {
                        Err(error) => m == u.len() && result == Err::<(), FsOpError>(
                            source_report(error),
                        ),
                        Ok(_) => move_confirmed(u.skip(m), from, to, result),
                    }
                };
            steps_run_parts(id, es, u, m);
            tree_removal_runs(
                id,
                es.take(m + 1),
                u.take(m),
                from,
                0,
                MAX_DELETE_ROUNDS as int,
                false,
                destroyed,
                removed,
            );
            assert(belongs_to(id, source, from));
            assert(unchanged_at(ds[0], ds[k], source));
            assert(whole_carried(id, ds[0], ds[k], from, to));
            removal_spares_the_copy(id, ds[0], ds[k], es[m], from, to);
            if removed is Ok {
                assert(nothing_below(es[m], directory_at(id, from)));
                confirming_runs(id, es.skip(m), u.skip(m), from, to, result);
                assert forall|place: Place| #[trigger]
                    belongs_to(id, place, from) implies !ds.last().entries.contains_key(place) by {
                    if es[m].entries.contains_key(place) {
                        assert(place != source);
                    }
                }
                assert(es.skip(m).last() == ds.last());
                same_entries_carried_alike(id, ds[0], es[m], ds.last(), from, to);
            } else {
                assert(es.last() == es[m]);
            }
            assert forall|place: Place|
                !belongs_to(id, place, from) && !belongs_to(id, place, to)
                implies #[trigger] unchanged_at(ds[0], ds.last(), place) by {
                assert(unchanged_at(ds[0], ds[k], place));
                assert(unchanged_at(es[0], es[m], place));
            }
        },
    }
}

proof fn same_entries_carried_alike<D, F>(
    id: Naming,
    c: Card<D, F>,
    m: Card<D, F>,
    d: Card<D, F>,
    from: Seq<char>,
    to: Seq<char>,
)
    requires
        whole_carried(id, c, m, from, to),
        d.entries == m.entries,
    ensures
        whole_carried(id, c, d, from, to),
{
    let f = directory_at(id, from);
    let g = directory_at(id, to);
    assert forall|place: Place| #[trigger]
        c.entries.contains_key(place) && lies_under(place, f) implies carried_at(
        c,
        d,
        place,
        moved_place(place, f, g),
    ) by {
        assert(carried_at(c, m, place, moved_place(place, f, g)));
    }
}

proof fn tree_cleanup_runs<D, F>(
    id: Naming,
    ds: Seq<Card<D, F>>,
    t: Seq<Step>,
    error: FsOpError,
    to: Seq<char>,
    result: Result<(), FsOpError>,
)
    requires
        steps_run(id, ds, t),
        tree_copy_cleaned_up(t, error, to, result),
    ensures
        only_at_or_below(id, ds[0], ds.last(), to),
        result is Err,
{
    let n = probe_steps(error);
    let verdict = choose|verdict: (FsOpError, bool)| #[trigger]
        assessed(t.take(n), error, verdict) && if verdict.1 {
            exists|destroyed: bool, removed: Result<(), FsOpError>| #[trigger]
                tree_deleted(
                    t.skip(n),
                    to,
                    0,
                    MAX_DELETE_ROUNDS as int,
                    false,
                    destroyed,
                    removed,
                ) && result == Err::<(), FsOpError>(
                    cleanup_report(verdict.0, removed),
                )
        } else {
            t.len() == n && result == Err::<(), FsOpError>(verdict.0)
        };
    steps_run_parts(id, ds, t, n);
    assessing_changes_nothing(id, ds.take(n + 1), t.take(n), error, verdict);
    if verdict.1 {
        let u = t.skip(n);
        let (destroyed, removed) = choose|destroyed: bool, removed: Result<(), FsOpError>| #[trigger]
            tree_deleted(u, to, 0, MAX_DELETE_ROUNDS as int, false, destroyed, removed) && result
                == Err::<(), FsOpError>(cleanup_report(verdict.0, removed));
        tree_removal_runs(
            id,
            ds.skip(n),
            u,
            to,
            0,
            MAX_DELETE_ROUNDS as int,
            false,
            destroyed,
            removed,
        );
        assert forall|place: Place| !belongs_to(id, place, to) implies #[trigger] unchanged_at(
            ds[0],
            ds.last(),
            place,
        ) by {
            assert(unchanged_at(ds[n], ds.last(), place));
        }
    } else {
        assert(ds.last() == ds[n]);
    }
}

proof fn file_move_runs<D, F>(
    id: Naming,
    ds: Seq<Card<D, F>>,
    t: Seq<Step>,
    from: Seq<char>,
    to: Seq<char>,
    result: Result<(), FsOpError>,
)
    requires
        steps_run(id, ds, t),
        file_moved(t, from, to, result),
        rooted(ds[0]),
        apart(id, from, to),
        is_entry_path(id, from),
        ds[0].entries.contains_key(place_of(id, from)),
        !holds_folder(ds[0], place_of(id, from)),
    ensures
        move_leaves(id, ds[0], ds.last(), from, to, result),
{
    let c = ds[0];
    let source = place_of(id, from);
    let goal = place_of(id, to);
    let f = directory_at(id, from);
    assert(belongs_to(id, source, from));
    assert(belongs_to(id, goal, to));
    assert(!belongs_to(id, goal, from));
    assert forall|place: Place| #[trigger]
        c.entries.contains_key(place) implies !lies_under(place, f) by {
        if f.is_prefix_of(place.directory) {
            let n = source.directory.len() as int;
            assert(folders_stand(c, place.directory));
            assert(place.directory[n] == f[n]);
            assert(place.directory.take(n) =~= source.directory) by {
                assert forall|i: int| 0 <= i < n implies place.directory[i]
                    == source.directory[i] by {
                    assert(place.directory[i] == f[i]);
                }
            }
            assert(holds_folder(
                c,
                Place { directory: place.directory.take(n), name: place.directory[n] },
            ));
        }
    }
    let (k, copied): (int, Result<(), FsOpError>) = choose|k: int, copied: Result<(), FsOpError>|
        {
            &&& 0 <= k <= t.len()
            &&& #[trigger] file_copied_safely(t.take(k), from, to, copied)
            &&& if copied is Err {
                k == t.len() && result == copied
            } else {
                source_file_removed(t.skip(k), from, to, result)
            }
        };
    steps_run_parts(id, ds, t, k);
    safe_copy_runs(id, ds.take(k + 1), t.take(k), from, to, copied);
    if copied is Err {
        assert(ds.last() == ds[k]);
        assert forall|place: Place| belongs_to(id, place, from) implies #[trigger] unchanged_at(
            c,
            ds.last(),
            place,
        ) by {
            assert(place != goal);
        }
    } else {
        let u = t.skip(k);
        let es = ds.skip(k);
        assert(unchanged_at(c, es[0], source));
        assert(same_contents(es[0], source, goal));
        assert(carried_at(c, es[0], source, goal));
        first_step_leaves(id, es, u);
        let removed = u[0]->Delete_reply;
        assert forall|place: Place| place != source implies #[trigger] unchanged_at(
            es[0],
            es[1],
            place,
        ) by {
            removal_unchanged_at(es[0], es[1], source, removed, place);
        }
        assert(unchanged_at(es[0], es[1], goal));
        assert(carried_at(c, es[1], source, goal));
        if removed is Err {
            assert(es.last() == es[1]);
        } else {
            confirming_runs(id, es.skip(1), u.skip(1), from, to, result);
            assert forall|place: Place| #[trigger]
                belongs_to(id, place, from) implies !ds.last().entries.contains_key(place) by {
                if place != source {
                    assert(place != goal);
                    assert(unchanged_at(c, es[0], place));
                    assert(unchanged_at(es[0], es[1], place));
                }
            }
        }
        assert forall|place: Place|
            !belongs_to(id, place, from) && !belongs_to(id, place, to)
            implies #[trigger] unchanged_at(c, ds.last(), place) by {
            assert(unchanged_at(c, es[0], place));
            assert(unchanged_at(es[0], es[1], place));
        }
    }
}

/// Both names mean the same entry: letter case does not matter, nor what an 8.3 name drops.
pub open spec fn same_name(
    from: Seq<char>,
    to: Seq<char>,
    from_form: Result<Seq<char>, NameFault>,
    to_form: Result<Seq<char>, NameFault>,
) -> bool {
    same_but_for_case(parent_of(from), parent_of(to)) && from_form == to_form
}

proof fn moves_run<D, F>(
    id: Naming,
    order: Order,
    ds: Seq<Card<D, F>>,
    t: Seq<Step>,
    from: Seq<char>,
    to: Seq<char>,
    from_form: Result<Seq<char>, NameFault>,
    to_form: Result<Seq<char>, NameFault>,
    result: Result<(), FsOpError>,
)
    requires
        steps_run(id, ds, t),
        scans_tell(id, order, ds, t),
        entry_moved(t, from, to, from_form, to_form, result),
        rooted(ds[0]),
        is_entry_path(id, from),
        is_entry_path(id, to),
        lies_under(place_of(id, to), directory_at(id, from)) ==> lies_inside(from, to),
    ensures
        same_name(from, to, from_form, to_form) ==> ds.last().entries == ds[0].entries,
        !same_name(from, to, from_form, to_form) ==> move_leaves(
            id,
            ds[0],
            ds.last(),
            from,
            to,
            result,
        ),
{
    let source = place_of(id, from);
    if t.len() == 0 {
        assert(ds.last() == ds[0]);
    } else {
        first_step_leaves(id, ds, t);
        if t.len() == 1 {
            assert(ds.last() == ds[1]);
        } else {
            first_step_leaves(id, ds.skip(1), t.skip(1));
            assert(t.skip(1)[0] == t[1]);
            assert(ds.skip(1)[1] == ds[2]);
            assert(t.skip(1).skip(1) =~= t.skip(2));
            assert(ds.skip(1).skip(1) =~= ds.skip(2));
            let found = t[1]->Find_reply;
            if found matches Err(error) && error.says_not_found() {
                let es = ds.skip(2);
                let u = t.skip(2);
                scans_tell_parts(id, order, ds, t, 2);
                assert(es[0].entries == ds[0].entries);
                assert(rooted(es[0])) by {
                    assert forall|place: Place| #[trigger]
                        es[0].entries.contains_key(place) implies folders_stand(
                        es[0],
                        place.directory,
                    ) by {
                        assert(ds[0].entries.contains_key(place));
                        same_entries_same_folders(
                            ds[0],
                            es[0],
                            place.directory,
                        );
                    }
                }
                source_and_goal_lie_apart(id, es[0], from, to);
                if t[0]->Find_reply->Ok_0.directory {
                    let (k, checked): (int, Result<(), FsOpError>) = choose|
                        k: int,
                        checked: Result<(), FsOpError>,
                    |
                        {
                            &&& 0 <= k <= u.len()
                            &&& #[trigger] subtree_checked(u.take(k), from, 0, checked)
                            &&& if checked is Err {
                                k == u.len() && result == checked
                            } else {
                                tree_moved(u.skip(k), from, to, result)
                            }
                        };
                    steps_run_parts(id, es, u, k);
                    scans_tell_parts(id, order, es, u, k);
                    check_changes_nothing(id, es.take(k + 1), u.take(k), from, 0, 0, checked);
                    if checked is Err {
                        assert(es.last() == es[k]);
                    } else {
                        assert(rooted(es[k])) by {
                            assert forall|place: Place| #[trigger]
                                es[k].entries.contains_key(place) implies folders_stand(
                                es[k],
                                place.directory,
                            ) by {
                                assert(ds[0].entries.contains_key(place));
                                same_entries_same_folders(
                                    ds[0],
                                    es[k],
                                    place.directory,
                                );
                            }
                        }
                        tree_move_runs(id, order, es.skip(k), u.skip(k), from, to, result);
                        same_start_same_move(id, es[k], ds[0], ds.last(), from, to, result);
                    }
                } else {
                    file_move_runs(id, es, u, from, to, result);
                    same_start_same_move(id, es[0], ds[0], ds.last(), from, to, result);
                }
            } else {
                assert(ds.last() == ds[2]);
            }
        }
    }
}

proof fn same_start_same_move<D, F>(
    id: Naming,
    c: Card<D, F>,
    start: Card<D, F>,
    d: Card<D, F>,
    from: Seq<char>,
    to: Seq<char>,
    result: Result<(), FsOpError>,
)
    requires
        c.entries == start.entries,
        move_leaves(id, c, d, from, to, result),
    ensures
        move_leaves(id, start, d, from, to, result),
{
    let f = directory_at(id, from);
    let g = directory_at(id, to);
    assert forall|place: Place| #[trigger] unchanged_at(start, d, place) == unchanged_at(
        c,
        d,
        place,
    ) by {}
    if whole_carried(id, c, d, from, to) {
        assert forall|place: Place| #[trigger]
            start.entries.contains_key(place) && lies_under(place, f) implies carried_at(
            start,
            d,
            place,
            moved_place(place, f, g),
        ) by {
            assert(c.entries.contains_key(place));
        }
        assert(whole_carried(id, start, d, from, to));
    }
}

/// A move carries the whole tree: after a success everything that was at the old name and
/// below is at the new name and below, with the same contents, and nothing is left at the old
/// one. After a failure either everything is at the new name or the old one is untouched, so
/// nothing is ever lost. Nothing else on the card is touched, and a move onto itself changes
/// nothing. The paths are spelled alike: a destination inside the source shows it in its text.
pub proof fn moves_carry_everything<M: VolumeAccess>(
    id: Naming,
    order: Order,
    cs: Seq<Card<M::Dir, M::File>>,
    before: Session<M>,
    after: Session<M>,
    from: Seq<char>,
    to: Seq<char>,
    from_form: Result<Seq<char>, NameFault>,
    to_form: Result<Seq<char>, NameFault>,
    result: Result<(), FsOpError>,
)
    requires
        after.follows(&before),
        entry_moved(
            since(before.steps(), after.steps()),
            from,
            to,
            from_form,
            to_form,
            result,
        ),
        run(id, cs, since(before.calls(), after.calls())),
        walks_tell(id, order, cs, since(before.calls(), after.calls())),
        rooted(cs[0]),
        from.len() > 0 && from.last() != '/',
        to.len() > 0 && to.last() != '/',
        lies_under(place_of(id, to), directory_at(id, from)) ==> lies_inside(from, to),
    ensures
        same_name(from, to, from_form, to_form) ==> cs.last().entries == cs[0].entries,
        !same_name(from, to, from_form, to_form) ==> move_leaves(
            id,
            cs[0],
            cs.last(),
            from,
            to,
            result,
        ),
{
    let steps = since(before.steps(), after.steps());
    let calls = since(before.calls(), after.calls());
    reveal(Session::accounts_since);
    let ds = calls_run_as_telling_steps(id, order, cs, calls, after.layout(), steps);
    paths_end_in_their_leaf(from);
    paths_end_in_their_leaf(to);
    assert(directory_at(id, from) =~= place_of(id, from).directory.push(place_of(id, from).name));
    assert(directory_at(id, to) =~= place_of(id, to).directory.push(place_of(id, to).name));
    moves_run(id, order, ds, steps, from, to, from_form, to_form, result);
}

} // verus!
