//! What browsing shows, and where it leads.
use vstd::prelude::*;
use vstd::utf8::encode_utf8;

use crate::card::{item_of, measured_anew, page_rule, CardFs, DirectoryItem, ItemView};
use crate::card_laws::only_looks;
use crate::errors::FsOpError;
use crate::explorer::{
    explorer_with_page, gone_up, is_past_the_end, mark_listing, page_read, place_asked, refreshed,
    refreshed_at, refreshed_further, space_asked, turned_to, Explorer, ExplorerView,
};
use crate::handlers::explorer_pressed;
use crate::input::Button;
use crate::listing_laws::{
    is_at, listing, pages_are_slices_of_the_listing, places_are_places_in_the_listing,
};
use crate::names::{
    components_of, joined_path, joining_adds_a_component, leaf_of, leaf_of_joined, parent_of,
    parent_of_joined,
};
use crate::notice::Notice;
use crate::screens::{ActionChoice, MediaIdentity, NewChoice, Screen};
use crate::session::Step;
use crate::storage::cut;
use crate::text::same_but_for_case;
use crate::volume::{is_child, scanned, EntryRecord, ScanRuleView, VolumeAccess};

verus! {

/// The step leaves every file and folder as it is.
pub open spec fn keeps_entries(step: Step) -> bool {
    only_looks(step) || step is OpenVolume || step is CloseVolume
}

/// The card is the same one, later, and nothing was asked of it that could change a file or
/// folder.
pub open spec fn only_browsed<M: VolumeAccess>(before: CardFs<M>, after: CardFs<M>) -> bool {
    &&& after.follows(&before)
    &&& forall|i: int|
        0 <= i < after.steps_since(&before).len() ==> keeps_entries(
            #[trigger] after.steps_since(&before)[i],
        )
}

proof fn browsing_goes_on<M: VolumeAccess>(a: CardFs<M>, b: CardFs<M>, c: CardFs<M>)
    requires
        only_browsed(a, b),
        only_browsed(b, c),
    ensures
        only_browsed(a, c),
{
    broadcast use crate::session::follow_on;

    assert(c.volume().follows(&a.volume()));
    cut(a.steps(), b.steps(), c.steps());
    let t = c.steps_since(&a);
    let n = b.steps_since(&a).len() as int;
    assert forall|i: int| 0 <= i < t.len() implies keeps_entries(#[trigger] t[i]) by {
        if i < n {
            assert(t.take(n)[i] == b.steps_since(&a)[i]);
        } else {
            assert(t.skip(n)[i - n] == c.steps_since(&b)[i - n]);
        }
    }
}

proof fn asking_for_space_browses<M: VolumeAccess>(
    before: CardFs<M>,
    after: CardFs<M>,
    answer: Option<u64>,
)
    requires
        space_asked(before, after, answer),
    ensures
        only_browsed(before, after),
{
    let t = after.steps_since(&before);
    assert forall|k: int| 0 <= k <= 2 && measured_anew(
        #[trigger] t.skip(k),
        after.space(),
        answer,
    ) && k <= t.len() implies t.len() == k + 1 && t[k] is Measure by {
        let u = t.skip(k);
        assert(u[0] is Measure);
        assert(u.len() == 1);
    }
    assert(t.skip(0) =~= t);
    assert forall|i: int| 0 <= i < t.len() implies keeps_entries(#[trigger] t[i]) by {
        assert(measured_anew(t.skip(0), after.space(), answer) ==> t.len() == 1);
        assert(measured_anew(t.skip(1), after.space(), answer) && 1 <= t.len() ==> t.len() == 2);
        assert(measured_anew(t.skip(2), after.space(), answer) && 2 <= t.len() ==> t.len() == 3);
    }
}

/// Names as a card stores them: never empty, and without a slash.
pub open spec fn plain_names(visited: Seq<EntryRecord>) -> bool {
    forall|i: int|
        0 <= i < visited.len() ==> (#[trigger] visited[i]).name@.len() > 0
            && !visited[i].name@.contains('/')
}

/// Every listing that was delivered since holds names as a card stores them, and no more of
/// them than can be counted.
pub open spec fn plainly_listed(t: Seq<Step>) -> bool {
    forall|i: int|
        0 <= i < t.len() ==> (#[trigger] t[i] matches Step::Scan { reply: Ok(visited), .. }
            ==> plain_names(visited) && visited.len() < usize::MAX)
}

/// Every row is an entry of the folder that is shown.
pub open spec fn rows_are_in(path: Seq<char>, rows: Seq<ItemView>) -> bool {
    forall|i: int|
        0 <= i < rows.len() ==> parent_of((#[trigger] rows[i]).path) == path && components_of(
            rows[i].path,
        ) == components_of(path).push(leaf_of(rows[i].path))
}

/// The row shows this record.
pub open spec fn row_shows(path: Seq<char>, row: ItemView, record: EntryRecord) -> bool {
    &&& parent_of(row.path) == path
    &&& leaf_of(row.path) == record.name@
    &&& row.is_dir == record.directory
    &&& row.size == record.size
    &&& record.long_name is None ==> row.name == record.name@
}

proof fn kept_records_are_plain(rule: ScanRuleView, visited: Seq<EntryRecord>)
    requires
        plain_names(visited),
    ensures
        plain_names(scanned(rule, visited).kept),
        scanned(rule, visited).seen >= 0,
        rule matches ScanRuleView::Page { limit, .. } ==> scanned(rule, visited).kept.len() <= limit,
    decreases visited.len(),
{
    if visited.len() > 0 {
        assert forall|i: int| 0 <= i < visited.drop_last().len() implies (
        #[trigger] visited.drop_last()[i]).name@.len() > 0
            && !visited.drop_last()[i].name@.contains('/') by {
            assert(visited.drop_last()[i] == visited[i]);
        }
        kept_records_are_plain(rule, visited.drop_last());
    }
}

proof fn items_are_in(path: Seq<char>, record: EntryRecord)
    requires
        path.len() > 0,
        record.name@.len() > 0,
        !record.name@.contains('/'),
    ensures
        row_shows(path, item_of(path, record), record),
        components_of(item_of(path, record).path) == components_of(path).push(record.name@),
{
    parent_of_joined(path, record.name@);
    leaf_of_joined(path, record.name@);
    joining_adds_a_component(path, record.name@);
}

/// One page as it was read: its rows are consecutive entries of the folder, from the offset
/// on, and the total counts them all.
pub open spec fn page_shows(
    path: Seq<char>,
    offset: int,
    rows: Seq<ItemView>,
    total: int,
    visited: Seq<EntryRecord>,
) -> bool {
    let all = visited.filter(|entry: EntryRecord| is_child(entry));
    &&& total == all.len()
    &&& rows.len() == if offset >= all.len() {
        0
    } else if offset + 8 <= all.len() {
        8
    } else {
        all.len() - offset
    }
    &&& forall|i: int| 0 <= i < rows.len() ==> row_shows(path, #[trigger] rows[i], all[offset + i])
}

proof fn pages_are_read_truly<M: VolumeAccess>(
    before: CardFs<M>,
    after: CardFs<M>,
    path: Seq<char>,
    offset: int,
    page: Result<(Seq<ItemView>, int), FsOpError>,
)
    requires
        page_read(before, after, path, offset, false, None, page),
        plainly_listed(after.steps_since(&before)),
        path.len() > 0,
        0 <= offset <= usize::MAX,
    ensures
        only_browsed(before, after),
        page matches Ok((rows, total)) ==> {
            &&& rows.len() <= 8
            &&& rows_are_in(path, rows)
            &&& exists|visited: Seq<EntryRecord>| #[trigger]
                page_shows(path, offset, rows, total, visited)
        },
{
    let t = after.steps_since(&before);
    assert(t.len() == 1);
    if let Ok((rows, total)) = page {
        let visited = t[0]->Scan_reply->Ok_0;
        let rule = page_rule(path, offset as usize, 8, false, None);
        let state = scanned(rule, visited);
        kept_records_are_plain(rule, visited);
        assert forall|i: int| 0 <= i < rows.len() implies row_shows(
            path,
            #[trigger] rows[i],
            state.kept[i],
        ) && components_of(rows[i].path) == components_of(path).push(leaf_of(rows[i].path)) by {
            items_are_in(path, state.kept[i]);
        }
        let all = visited.filter(|entry: EntryRecord| is_child(entry));
        assert(listing(rule, visited) == all) by {
            children_alone_are_listed(rule, visited);
        }
        filtered_is_no_longer(visited);
        pages_are_slices_of_the_listing(path, offset as usize, 8, false, None, visited);
        assert(page_shows(path, offset, rows, total, visited));
    }
}

proof fn filtered_is_no_longer(visited: Seq<EntryRecord>)
    ensures
        visited.filter(|entry: EntryRecord| is_child(entry)).len() <= visited.len(),
    decreases visited.len(),
{
    reveal(Seq::filter);
    if visited.len() > 0 {
        filtered_is_no_longer(visited.drop_last());
    }
}

proof fn children_alone_are_listed(rule: ScanRuleView, visited: Seq<EntryRecord>)
    requires
        rule matches ScanRuleView::Page { folders_only, excluded, .. } && !folders_only
            && excluded is None,
    ensures
        listing(rule, visited) == visited.filter(|entry: EntryRecord| is_child(entry)),
    decreases visited.len(),
{
    reveal(Seq::filter);
    if visited.len() > 0 {
        children_alone_are_listed(rule, visited.drop_last());
        assert(crate::volume::counts(rule, visited.last()) == is_child(visited.last()));
    }
}

proof fn plain_parts<M: VolumeAccess>(a: CardFs<M>, b: CardFs<M>, c: CardFs<M>)
    requires
        b.follows(&a),
        c.follows(&b),
        plainly_listed(c.steps_since(&a)),
    ensures
        plainly_listed(b.steps_since(&a)),
        plainly_listed(c.steps_since(&b)),
{
    cut(a.steps(), b.steps(), c.steps());
    let t = c.steps_since(&a);
    let n = b.steps_since(&a).len() as int;
    assert forall|i: int| 0 <= i < n implies (
    #[trigger] b.steps_since(&a)[i] matches Step::Scan { reply: Ok(visited), .. } ==> plain_names(
        visited,
    ) && visited.len() < usize::MAX) by {
        assert(t.take(n)[i] == t[i]);
    }
    assert forall|i: int| 0 <= i < c.steps_since(&b).len() implies (
    #[trigger] c.steps_since(&b)[i] matches Step::Scan { reply: Ok(visited), .. } ==> plain_names(
        visited,
    ) && visited.len() < usize::MAX) by {
        assert(t.skip(n)[i] == t[n + i]);
    }
}

/// What the explorer shows is a page of the folder at its path, with a row of it selected.
pub open spec fn shows_folder(e: ExplorerView, path: Seq<char>) -> bool {
    &&& e.path == path
    &&& e.entries.len() <= 8
    &&& rows_are_in(path, e.entries)
    &&& e.entries.len() > 0 ==> {
        &&& 0 <= e.selected < e.entries.len()
        &&& exists|visited: Seq<EntryRecord>| #[trigger]
            page_shows(path, e.offset, e.entries, e.total, visited)
    }
}

proof fn follows_through<M: VolumeAccess>(
    before: CardFs<M>,
    after: CardFs<M>,
    e: ExplorerView,
    r: ExplorerView,
)
    requires
        refreshed(before, after, e, r),
        e.offset >= 0,
    ensures
        after.follows(&before),
    decreases e.offset,
{
    broadcast use crate::session::follow_on;

    let (asked, free, read, page) = choose|
        asked: CardFs<M>,
        free: Option<u64>,
        read: CardFs<M>,
        page: Result<(Seq<ItemView>, int), FsOpError>,
    |
        {
            &&& #[trigger] space_asked(before, asked, free)
            &&& #[trigger] page_read(asked, read, e.path, e.offset, false, None, page)
            &&& if is_past_the_end(e.offset, page) && e.offset > 0 {
                refreshed_further(read, after, explorer_with_page(e, free, page), r)
            } else {
                after == read && r == explorer_with_page(e, free, page)
            }
        };
    assert(read.volume().follows(&before.volume()));
    if is_past_the_end(e.offset, page) && e.offset > 0 {
        let middle = explorer_with_page(e, free, page);
        let inner = choose|inner: ExplorerView| #[trigger]
            mark_listing(inner) && refreshed(read, after, middle, inner) && r == (ExplorerView {
                status: None,
                ..inner
            });
        follows_through(read, after, middle, inner);
        assert(after.volume().follows(&before.volume()));
    }
}

/// Refreshing shows the folder that the explorer is in, as the card lists it, and changes
/// nothing on the card.
pub proof fn refreshing_shows_the_folder<M: VolumeAccess>(
    before: CardFs<M>,
    after: CardFs<M>,
    e: ExplorerView,
    r: ExplorerView,
)
    requires
        refreshed(before, after, e, r),
        plainly_listed(after.steps_since(&before)),
        e.path.len() > 0,
        0 <= e.offset <= usize::MAX,
        e.selected >= 0,
    ensures
        only_browsed(before, after),
        shows_folder(r, e.path),
        0 <= r.offset <= e.offset,
        r.selected <= e.selected,
        r.entries.len() > 0 && r.offset == e.offset && e.selected < r.entries.len() ==> r.selected
            == e.selected,
        r.status is None || r.status == Some(Notice::FolderUnreadable),
    decreases e.offset,
{
    broadcast use crate::session::follow_on;

    let (asked, free, read, page) = choose|
        asked: CardFs<M>,
        free: Option<u64>,
        read: CardFs<M>,
        page: Result<(Seq<ItemView>, int), FsOpError>,
    |
        {
            &&& #[trigger] space_asked(before, asked, free)
            &&& #[trigger] page_read(asked, read, e.path, e.offset, false, None, page)
            &&& if is_past_the_end(e.offset, page) && e.offset > 0 {
                refreshed_further(read, after, explorer_with_page(e, free, page), r)
            } else {
                after == read && r == explorer_with_page(e, free, page)
            }
        };
    assert(read.volume().follows(&before.volume()));
    asking_for_space_browses(before, asked, free);
    if is_past_the_end(e.offset, page) && e.offset > 0 {
        let middle = explorer_with_page(e, free, page);
        let inner = choose|inner: ExplorerView| #[trigger]
            mark_listing(inner) && refreshed(read, after, middle, inner) && r == (ExplorerView {
                status: None,
                ..inner
            });
        follows_through(read, after, middle, inner);
        plain_parts(before, read, after);
        plain_parts(before, asked, read);
        pages_are_read_truly(asked, read, e.path, e.offset, page);
        refreshing_shows_the_folder(read, after, middle, inner);
        browsing_goes_on(before, asked, read);
        browsing_goes_on(before, read, after);
        assert(shows_folder(inner, e.path));
        if r.entries.len() > 0 {
            let visited = choose|visited: Seq<EntryRecord>| #[trigger]
                page_shows(e.path, inner.offset, inner.entries, inner.total, visited);
            assert(page_shows(e.path, r.offset, r.entries, r.total, visited));
        }
        assert(shows_folder(r, e.path));
    } else {
        plain_parts(before, asked, read);
        pages_are_read_truly(asked, read, e.path, e.offset, page);
        browsing_goes_on(before, asked, read);
        if let Ok((rows, total)) = page {
            let visited = choose|visited: Seq<EntryRecord>| #[trigger]
                page_shows(e.path, e.offset, rows, total, visited);
            assert(r.entries == rows);
            assert(rows.len() > 0 ==> page_shows(e.path, r.offset, r.entries, r.total, visited));
            assert(shows_folder(r, e.path));
        } else {
            assert(r.entries.len() == 0);
            assert(shows_folder(r, e.path));
        }
    }
}

/// Going up leaves the folder that is shown: its last component goes, and nothing else.
/// From an entry of the folder `p` one comes to `p`.
pub proof fn going_up_shows_the_parent<M: VolumeAccess>(
    before: CardFs<M>,
    after: CardFs<M>,
    e: ExplorerView,
    r: ExplorerView,
    p: Seq<char>,
    name: Seq<char>,
)
    requires
        gone_up(before, after, e, r),
        plainly_listed(after.steps_since(&before)),
        e.path == joined_path(p, name),
        p.len() > 0,
        name.len() > 0,
        !name.contains('/'),
    ensures
        only_browsed(before, after),
        shows_folder(r, p),
        r.offset == 0,
        components_of(r.path) == components_of(e.path).drop_last(),
{
    parent_of_joined(p, name);
    joining_adds_a_component(p, name);
    reveal_strlit("/");
    assert(e.path != "/"@) by {
        assert(e.path.len() > 1);
    }
    refreshing_shows_the_folder(
        before,
        after,
        ExplorerView { path: parent_of(e.path), offset: 0, selected: 0, ..e },
        r,
    );
    assert(components_of(p).push(name).drop_last() =~= components_of(p));
}

/// The root has no parent: going up from it changes nothing.
pub proof fn the_root_has_no_parent<M: VolumeAccess>(
    before: CardFs<M>,
    after: CardFs<M>,
    e: ExplorerView,
    r: ExplorerView,
)
    requires
        gone_up(before, after, e, r),
        e.path == "/"@,
    ensures
        r == e,
        after == before,
{
}

/// The row that is selected.
pub open spec fn highlighted(explorer: Explorer) -> Option<DirectoryItem> {
    if explorer.selected < explorer.entries@.len() {
        Some(explorer.entries@[explorer.selected as int])
    } else {
        None
    }
}

/// Opening a folder shows that folder, from its start.
pub proof fn opening_a_folder_shows_it<M: VolumeAccess>(
    before: CardFs<M>,
    after: CardFs<M>,
    explorer: Explorer,
    button: Button,
    identity: Option<MediaIdentity>,
    screen: Screen,
)
    requires
        explorer_pressed(before, after, explorer, button, identity, screen),
        plainly_listed(after.steps_since(&before)),
        button == Button::Right || button == Button::Click,
        explorer.selected < explorer.entries@.len(),
        explorer.entries@[explorer.selected as int].is_dir,
        explorer.entries@[explorer.selected as int].path@.len() > 0,
    ensures
        only_browsed(before, after),
        screen matches Screen::Explorer(shown) && shows_folder(
            shown@,
            explorer.entries@[explorer.selected as int].path@,
        ) && shown.offset == 0,
{
    let item = explorer.entries@[explorer.selected as int];
    let shown = screen->Explorer_0;
    refreshing_shows_the_folder(
        before,
        after,
        ExplorerView { path: item.path@, offset: 0, selected: 0, ..explorer@ },
        shown@,
    );
}

/// Going into a folder that is listed and up again leads back to where one came from.
pub proof fn up_leads_back<M: VolumeAccess>(
    before: CardFs<M>,
    middle: CardFs<M>,
    after: CardFs<M>,
    explorer: Explorer,
    inner: Explorer,
    into: Button,
    out: Button,
    identity: Option<MediaIdentity>,
    screen: Screen,
)
    requires
        shows_folder(explorer@, explorer.path@),
        explorer.path@.len() > 0,
        explorer.selected < explorer.entries@.len(),
        explorer.entries@[explorer.selected as int].is_dir,
        into == Button::Right || into == Button::Click,
        out == Button::Left || out == Button::TopLeft,
        explorer_pressed(before, middle, explorer, into, identity, Screen::Explorer(inner)),
        explorer_pressed(middle, after, inner, out, identity, screen),
        plainly_listed(middle.steps_since(&before)),
        plainly_listed(after.steps_since(&middle)),
        exists|name: Seq<char>|
            name.len() > 0 && !name.contains('/')
                && explorer.entries@[explorer.selected as int].path@ == #[trigger] joined_path(
                explorer.path@,
                name,
            ),
    ensures
        screen matches Screen::Explorer(shown) && shows_folder(shown@, explorer.path@),
{
    let item = explorer.entries@[explorer.selected as int];
    let name = choose|name: Seq<char>|
        name.len() > 0 && !name.contains('/') && item.path@ == #[trigger] joined_path(
            explorer.path@,
            name,
        );
    opening_a_folder_shows_it(before, middle, explorer, into, identity, Screen::Explorer(inner));
    going_up_shows_the_parent(
        middle,
        after,
        inner@,
        screen->Explorer_0@,
        explorer.path@,
        name,
    );
}

/// The top right button opens the actions for the row that is selected, and asks nothing of
/// the card.
pub proof fn actions_are_for_the_selected_row<M: VolumeAccess>(
    before: CardFs<M>,
    after: CardFs<M>,
    explorer: Explorer,
    identity: Option<MediaIdentity>,
    screen: Screen,
)
    requires
        explorer_pressed(before, after, explorer, Button::TopRight, identity, screen),
    ensures
        after == before,
        screen matches Screen::ActionMenu(menu) && menu.explorer == explorer && menu.item
            == highlighted(explorer),
        explorer.selected < explorer.entries@.len() ==> (screen matches Screen::ActionMenu(menu)
            && menu.item == Some(explorer.entries@[explorer.selected as int])),
{
}

/// Moving down goes to the next entry, on the same page or on the one that begins an entry
/// later; moving up to the one before. The first and the last entry are not left.
pub proof fn the_selection_moves_by_one<M: VolumeAccess>(
    before: CardFs<M>,
    after: CardFs<M>,
    explorer: Explorer,
    button: Button,
    identity: Option<MediaIdentity>,
    screen: Screen,
)
    requires
        explorer_pressed(before, after, explorer, button, identity, screen),
        button == Button::Up || button == Button::Down,
        plainly_listed(after.steps_since(&before)),
        explorer.path@.len() > 0,
        explorer.selected < explorer.entries@.len(),
        explorer.offset < usize::MAX,
    ensures
        screen is Explorer,
        screen->Explorer_0.path@ == explorer.path@,
        button == Button::Down && explorer.selected + 1 < explorer.entries@.len() ==> after == before
            && screen->Explorer_0@ == (ExplorerView {
            selected: explorer.selected + 1,
            ..explorer@
        }),
        button == Button::Up && explorer.selected > 0 ==> after == before && screen->Explorer_0@ == (
        ExplorerView { selected: explorer.selected - 1, ..explorer@ }),
        button == Button::Down && explorer.selected + 1 == explorer.entries@.len()
            && explorer.offset + explorer.entries@.len() < explorer.total
            && screen->Explorer_0.entries@.len() == explorer.entries@.len()
            && screen->Explorer_0.offset > explorer.offset ==> screen->Explorer_0.offset
            + screen->Explorer_0.selected == explorer.offset + explorer.selected + 1,
        button == Button::Up && explorer.selected == 0 && explorer.offset > 0
            && screen->Explorer_0.offset + 1 >= explorer.offset && screen->Explorer_0.entries@.len() > 0
            ==> screen->Explorer_0.offset + screen->Explorer_0.selected == explorer.offset - 1,
        button == Button::Up && explorer.selected == 0 && explorer.offset == 0 ==> after == before
            && screen->Explorer_0@ == explorer@,
        button == Button::Down && explorer.selected + 1 == explorer.entries@.len()
            && explorer.offset + explorer.entries@.len() >= explorer.total ==> after == before
            && screen->Explorer_0@ == explorer@,
        only_browsed(before, after) || after == before,
{
    let e = explorer@;
    let shown = screen->Explorer_0;
    assert(e.entries.len() == explorer.entries@.len());
    assert(shown@.entries.len() == shown.entries@.len());
    if button == Button::Down && explorer.selected + 1 == explorer.entries@.len()
        && explorer.offset + explorer.entries@.len() < explorer.total {
        let start = ExplorerView { offset: e.offset + 1, ..e };
        let read = choose|read: ExplorerView| #[trigger]
            mark_listing(read) && refreshed(before, after, start, read)
                && crate::handlers::is_explorer(
                screen,
                ExplorerView { selected: crate::handlers::last_row(read), ..read },
            );
        refreshing_shows_the_folder(before, after, start, read);
    }
    if button == Button::Up && explorer.selected == 0 && explorer.offset > 0 {
        refreshing_shows_the_folder(
            before,
            after,
            ExplorerView { offset: e.offset - 1, ..e },
            shown@,
        );
    }
}

/// Up takes back what down did, and down what up did, on one page.
pub proof fn up_and_down_undo_each_other<M: VolumeAccess>(
    card: CardFs<M>,
    first: CardFs<M>,
    second: CardFs<M>,
    explorer: Explorer,
    other: Explorer,
    identity: Option<MediaIdentity>,
    screen: Screen,
)
    requires
        explorer.selected + 1 < explorer.entries@.len(),
        explorer_pressed(
            card,
            first,
            explorer,
            Button::Down,
            identity,
            Screen::Explorer(other),
        ),
        explorer_pressed(first, second, other, Button::Up, identity, screen),
    ensures
        second == card,
        screen matches Screen::Explorer(shown) && shown@ == explorer@,
{
}

/// A document opens from the row that is selected: it is read at that row's path, the editor
/// holds exactly the bytes that were read, and remembers that path. Nothing on the card
/// changes, and what cannot be opened stays in the explorer.
pub proof fn documents_open_from_the_selected_row<M: VolumeAccess>(
    before: CardFs<M>,
    after: CardFs<M>,
    explorer: Explorer,
    button: Button,
    identity: Option<MediaIdentity>,
    screen: Screen,
)
    requires
        explorer_pressed(before, after, explorer, button, identity, screen),
        button == Button::Right || button == Button::Click,
        explorer.selected < explorer.entries@.len(),
        !explorer.entries@[explorer.selected as int].is_dir,
    ensures
        only_browsed(before, after) || after == before,
        screen matches Screen::Editor(editor) ==> {
            let item = explorer.entries@[explorer.selected as int];
            let t = after.steps_since(&before);
            &&& editor.path@ == item.path@
            &&& editor.name@ == item.name@
            &&& editor.explorer == explorer
            &&& identity is Some ==> identity == Some(editor.identity)
            &&& t.len() == 2
            &&& t[1] == Step::Read {
                path: item.path@,
                reply: Ok::<Seq<u8>, FsOpError>(encode_utf8(editor.buffer.text())),
            }
            &&& editor.buffer.before() == Seq::<char>::empty()
            &&& !editor.buffer.dirty()
            &&& item.name@.len() >= 4 && same_but_for_case(
                item.name@.skip(item.name@.len() - 4),
                ".txt"@,
            )
        },
        !(screen is Editor) ==> (screen matches Screen::Explorer(shown) && shown@ == (ExplorerView {
            status: shown.status,
            ..explorer@
        }) && shown.status is Some),
{
    broadcast use vstd::utf8::decode_utf8_encode_utf8;

    reveal_strlit(".txt");
    assert(".txt"@ =~= seq!['.', 't', 'x', 't']);
    let t = after.steps_since(&before);
    if let Screen::Editor(editor) = screen {
        let bytes = t[1]->Read_reply->Ok_0;
        assert(editor.buffer.text() =~= editor.buffer.after());
        assert(encode_utf8(editor.buffer.text()) == bytes);
    }
}

/// The walks over the folder at `path` went as one over the records `all` would.
pub open spec fn folder_walked(t: Seq<Step>, path: Seq<char>, all: Seq<EntryRecord>) -> bool {
    forall|i: int|
        0 <= i < t.len() ==> (#[trigger] t[i] matches Step::Scan { path: p, rule, reply }
            ==> p == path && (reply matches Ok(visited) && scanned(rule, visited) == scanned(
            rule,
            all,
        )))
}

proof fn walked_parts<M: VolumeAccess>(
    a: CardFs<M>,
    b: CardFs<M>,
    c: CardFs<M>,
    path: Seq<char>,
    all: Seq<EntryRecord>,
)
    requires
        b.follows(&a),
        c.follows(&b),
        folder_walked(c.steps_since(&a), path, all),
    ensures
        folder_walked(b.steps_since(&a), path, all),
        folder_walked(c.steps_since(&b), path, all),
{
    cut(a.steps(), b.steps(), c.steps());
    let t = c.steps_since(&a);
    let n = b.steps_since(&a).len() as int;
    assert forall|i: int| 0 <= i < n implies (
    #[trigger] b.steps_since(&a)[i] matches Step::Scan { path: p, rule, reply } ==> p == path && (
    reply matches Ok(visited) && scanned(rule, visited) == scanned(rule, all))) by {
        assert(t.take(n)[i] == t[i]);
    }
    assert forall|i: int| 0 <= i < c.steps_since(&b).len() implies (
    #[trigger] c.steps_since(&b)[i] matches Step::Scan { path: p, rule, reply } ==> p == path && (
    reply matches Ok(visited) && scanned(rule, visited) == scanned(rule, all))) by {
        assert(t.skip(n)[i] == t[n + i]);
    }
}

/// What was just created, renamed or moved is selected: where the folder holds an entry at
/// the path in question, the explorer turns to the page that shows it and selects its row.
pub proof fn the_target_is_selected<M: VolumeAccess>(
    before: CardFs<M>,
    after: CardFs<M>,
    e: ExplorerView,
    target: Seq<char>,
    r: ExplorerView,
    all: Seq<EntryRecord>,
    j: int,
)
    requires
        refreshed_at(before, after, e, target, r),
        e.offset >= 0,
        folder_walked(after.steps_since(&before), e.path, all),
        all.len() < usize::MAX,
        0 <= j < all.len(),
        is_child(all[j]),
        same_but_for_case(joined_path(e.path, all[j].name@), target),
    ensures
        0 <= r.selected < r.entries.len(),
        same_but_for_case(r.entries[r.selected].path, target),
        r.path == e.path,
{
    broadcast use crate::session::follow_on;

    let (found, place) = choose|found: CardFs<M>, place: Result<Option<usize>, FsOpError>| #[trigger]
        place_asked(before, found, e.path, target, place) && refreshed(
            found,
            after,
            turned_to(e, place),
            r,
        );
    let start = turned_to(e, place);
    follows_through(found, after, start, r);
    walked_parts(before, found, after, e.path, all);
    let finding = ScanRuleView::Find { directory: e.path, target };
    let look = found.steps_since(&before);
    assert(look[0] is Scan);
    let paging = page_rule(e.path, 0, 0, false, None);
    let kids = all.filter(|entry: EntryRecord| is_child(entry));
    children_alone_are_listed(paging, all);
    filtered_is_no_longer(all);
    places_are_places_in_the_listing(e.path, target, all);
    let state = scanned(finding, all);
    child_is_listed(all, j);
    let l = choose|l: int| 0 <= l < kids.len() && kids[l] == all[j];
    assert(is_at(e.path, kids[l], target));
    assert(state.over) by {
        if !state.over {
            assert(!is_at(e.path, kids[l], target));
        }
    }
    let index = state.seen;
    assert(place == Ok::<Option<usize>, FsOpError>(Some(index as usize)));
    let offset = index - index % 8;
    assert(start.offset == offset && start.selected == index % 8);
    let (asked, free, read, page) = choose|
        asked: CardFs<M>,
        free: Option<u64>,
        read: CardFs<M>,
        page: Result<(Seq<ItemView>, int), FsOpError>,
    |
        {
            &&& #[trigger] space_asked(found, asked, free)
            &&& #[trigger] page_read(asked, read, start.path, start.offset, false, None, page)
            &&& if is_past_the_end(start.offset, page) && start.offset > 0 {
                refreshed_further(read, after, explorer_with_page(start, free, page), r)
            } else {
                after == read && r == explorer_with_page(start, free, page)
            }
        };
    let rule = page_rule(e.path, offset as usize, 8, false, None);
    let t = read.steps_since(&asked);
    if is_past_the_end(start.offset, page) && start.offset > 0 {
        let middle = explorer_with_page(start, free, page);
        let inner = choose|inner: ExplorerView| #[trigger]
            mark_listing(inner) && refreshed(read, after, middle, inner) && r == (ExplorerView {
                status: None,
                ..inner
            });
        follows_through(read, after, middle, inner);
        assert(read.volume().follows(&found.volume()));
        walked_parts(found, read, after, e.path, all);
    }
    walked_parts(found, asked, read, e.path, all);
    assert(t[0] is Scan);
    children_alone_are_listed(rule, all);
    pages_are_slices_of_the_listing(e.path, offset as usize, 8, false, None, all);
    let rows = page->Ok_0.0;
    assert(rows.len() > index % 8);
    let kept = scanned(rule, all).kept;
    assert(kept[index % 8] == kids[index]);
    assert(rows[index % 8] == item_of(e.path, kids[index]));
    assert(is_at(e.path, kids[index], target));
}

proof fn child_is_listed(all: Seq<EntryRecord>, j: int)
    requires
        0 <= j < all.len(),
        is_child(all[j]),
    ensures
        all.filter(|entry: EntryRecord| is_child(entry)).contains(all[j]),
{
    all.lemma_filter_contains(|entry: EntryRecord| is_child(entry), j);
}

/// The menus open from the explorer without a look at the card, each on its first choice, and
/// come back to where they were opened.
pub proof fn menus_open_on_their_first_choice<M: VolumeAccess>(
    before: CardFs<M>,
    after: CardFs<M>,
    explorer: Explorer,
    button: Button,
    identity: Option<MediaIdentity>,
    screen: Screen,
)
    requires
        explorer_pressed(before, after, explorer, button, identity, screen),
    ensures
        button == Button::TopMiddle ==> after == before && (screen matches Screen::NewMenu(menu)
            && menu.choice == NewChoice::TextFile && menu.explorer == explorer),
        button == Button::TopRight ==> after == before && (screen matches Screen::ActionMenu(menu)
            && menu.choice == ActionChoice::Rename && menu.explorer == explorer),
        button != Button::TopMiddle ==> !(screen is NewMenu),
        button != Button::TopRight ==> !(screen is ActionMenu),
{
}

} // verus!
