//! What the pages of a folder show of it.
use vstd::prelude::*;

use crate::card::page_rule;
use crate::names::joined_path;
use crate::text::same_but_for_case;
use crate::volume::{counts, is_child, scanned, EntryRecord, ScanRuleView};

verus! {

/// The entries that the rule takes notice of, in the order of the folder.
pub open spec fn listing(rule: ScanRuleView, visited: Seq<EntryRecord>) -> Seq<EntryRecord> {
    visited.filter(|entry: EntryRecord| counts(rule, entry))
}

/// The smaller of two numbers.
pub open spec fn least(a: int, b: int) -> int {
    if a < b {
        a
    } else {
        b
    }
}

proof fn listing_grows(rule: ScanRuleView, visited: Seq<EntryRecord>)
    requires
        visited.len() > 0,
    ensures
        listing(rule, visited) == if counts(rule, visited.last()) {
            listing(rule, visited.drop_last()).push(visited.last())
        } else {
            listing(rule, visited.drop_last())
        },
{
    reveal(Seq::filter);
}

proof fn empty_listing(rule: ScanRuleView, visited: Seq<EntryRecord>)
    requires
        visited.len() == 0,
    ensures
        listing(rule, visited).len() == 0,
{
    reveal(Seq::filter);
}

/// A page is a slice of the folder's listing, and comes with the listing's length: pages
/// side by side show every entry once.
pub proof fn pages_are_slices_of_the_listing(
    directory: Seq<char>,
    offset: usize,
    limit: usize,
    folders_only: bool,
    excluded: Option<Seq<char>>,
    visited: Seq<EntryRecord>,
)
    requires
        listing(page_rule(directory, offset, limit, folders_only, excluded), visited).len()
            <= usize::MAX,
    ensures
        ({
            let rule = page_rule(directory, offset, limit, folders_only, excluded);
            let all = listing(rule, visited);
            let n = all.len() as int;
            let state = scanned(rule, visited);
            &&& !state.over
            &&& state.seen == n
            &&& state.kept == all.subrange(least(offset as int, n), least(offset + limit, n))
        }),
    decreases visited.len(),
{
    let rule = page_rule(directory, offset, limit, folders_only, excluded);
    let all = listing(rule, visited);
    if visited.len() == 0 {
        empty_listing(rule, visited);
        assert(all.subrange(0, 0) =~= Seq::<EntryRecord>::empty());
    } else {
        listing_grows(rule, visited);
        pages_are_slices_of_the_listing(
            directory,
            offset,
            limit,
            folders_only,
            excluded,
            visited.drop_last(),
        );
        let before = listing(rule, visited.drop_last());
        let m = before.len() as int;
        let n = all.len() as int;
        let state = scanned(rule, visited);
        assert(state.kept =~= all.subrange(least(offset as int, n), least(offset + limit, n)));
    }
}

/// A batch of children is a slice of all of them, and the walk says whether more follow.
pub proof fn batches_are_slices_of_the_children(
    skip: usize,
    limit: usize,
    visited: Seq<EntryRecord>,
)
    requires
        listing((ScanRuleView::Children { skip, limit }), visited).len() < usize::MAX,
    ensures
        ({
            let rule = ScanRuleView::Children { skip, limit };
            let all = listing(rule, visited);
            let n = all.len() as int;
            let state = scanned(rule, visited);
            &&& state.over == (n > skip + limit)
            &&& state.kept == all.subrange(least(skip as int, n), least(skip + limit, n))
            &&& state.seen == least(skip + limit, n)
        }),
    decreases visited.len(),
{
    let rule = ScanRuleView::Children { skip, limit };
    let all = listing(rule, visited);
    if visited.len() == 0 {
        empty_listing(rule, visited);
        assert(all.subrange(0, 0) =~= Seq::<EntryRecord>::empty());
    } else {
        listing_grows(rule, visited);
        batches_are_slices_of_the_children(skip, limit, visited.drop_last());
        let n = all.len() as int;
        let state = scanned(rule, visited);
        assert(state.kept =~= all.subrange(least(skip as int, n), least(skip + limit, n)));
    }
}

/// `path` is that of the entry, letter case aside.
pub open spec fn is_at(directory: Seq<char>, entry: EntryRecord, path: Seq<char>) -> bool {
    same_but_for_case(joined_path(directory, entry.name@), path)
}

/// The place of an entry counts as the pages do: the entry stands at that place of the
/// folder's listing, and nothing before it has its path.
pub proof fn places_are_places_in_the_listing(
    directory: Seq<char>,
    target: Seq<char>,
    visited: Seq<EntryRecord>,
)
    requires
        listing(page_rule(directory, 0, 0, false, None), visited).len() < usize::MAX,
    ensures
        ({
            let all = listing(page_rule(directory, 0, 0, false, None), visited);
            let state = scanned((ScanRuleView::Find { directory, target }), visited);
            &&& 0 <= state.seen <= all.len()
            &&& forall|i: int| 0 <= i < state.seen ==> !#[trigger] is_at(directory, all[i], target)
            &&& state.over ==> state.seen < all.len() && is_at(directory, all[state.seen], target)
            &&& !state.over ==> state.seen == all.len()
        }),
    decreases visited.len(),
{
    let paging = page_rule(directory, 0, 0, false, None);
    let finding = ScanRuleView::Find { directory, target };
    let all = listing(paging, visited);
    if visited.len() == 0 {
        empty_listing(paging, visited);
    } else {
        listing_grows(paging, visited);
        places_are_places_in_the_listing(directory, target, visited.drop_last());
        let entry = visited.last();
        assert(counts(paging, entry) == is_child(entry));
        assert(counts(finding, entry) == is_child(entry));
        let before = listing(paging, visited.drop_last());
        let state = scanned(finding, visited);
        assert forall|i: int| 0 <= i < state.seen implies !#[trigger] is_at(
            directory,
            all[i],
            target,
        ) by {
            if i < before.len() {
                assert(all[i] == before[i]);
                if i < scanned(finding, visited.drop_last()).seen {
                    assert(!is_at(directory, before[i], target));
                }
            }
        }
    }
}

} // verus!
