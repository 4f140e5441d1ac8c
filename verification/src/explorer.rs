//! The explorer and the folder picker: paged listings with a selection.
use vstd::prelude::*;

use crate::card::{
    index_found, item_views, page_listed, page_rule, page_view, space_answered, CardFs,
    DirectoryItem, ItemView,
};
use crate::errors::FsOpError;
use crate::names::{parent_of, parent_path};
use crate::notice::Notice;
use crate::text::same_text;
use crate::volume::VolumeAccess;

verus! {

/// Rows of a listing on the display.
pub const EXPLORER_PAGE_ROWS: usize = 8;

/// A folder's listing, of which one page is shown and one row selected.
pub struct Explorer {
    pub path: String,
    pub offset: usize,
    pub selected: usize,
    pub entries: Vec<DirectoryItem>,
    pub total: usize,
    pub free_bytes: Option<u64>,
    pub status: Option<Notice>,
}

/// An [`Explorer`] over plain text.
pub struct ExplorerView {
    pub path: Seq<char>,
    pub offset: int,
    pub selected: int,
    pub entries: Seq<ItemView>,
    pub total: int,
    pub free_bytes: Option<u64>,
    pub status: Option<Notice>,
}

/// The explorer at the root, before anything was read.
pub open spec fn root_view() -> ExplorerView {
    ExplorerView {
        path: "/"@,
        offset: 0,
        selected: 0,
        entries: Seq::empty(),
        total: 0,
        free_bytes: None,
        status: None,
    }
}

/// The offset one page up.
pub open spec fn page_up(offset: int) -> int {
    if offset <= EXPLORER_PAGE_ROWS { 0 } else { offset - EXPLORER_PAGE_ROWS }
}

/// A selection that fits a page of `rows` rows.
pub open spec fn fitted(selected: int, rows: int) -> int {
    if rows == 0 {
        0
    } else if selected < rows {
        selected
    } else {
        rows - 1
    }
}

/// Asking for the free space.
pub open spec fn space_asked<M: VolumeAccess>(
    before: CardFs<M>,
    after: CardFs<M>,
    answer: Option<u64>,
) -> bool {
    &&& after.wf()
    &&& after.follows(&before)
    &&& after.layout() == before.layout()
    &&& space_answered(
        after.steps_since(&before),
        before.layout().fat32,
        before.space(),
        after.space(),
        answer,
    )
}

/// Reading a page of eight rows of the folder at `path`.
pub open spec fn page_read<M: VolumeAccess>(
    before: CardFs<M>,
    after: CardFs<M>,
    path: Seq<char>,
    offset: int,
    folders_only: bool,
    excluded: Option<Seq<char>>,
    result: Result<(Seq<ItemView>, int), FsOpError>,
) -> bool {
    &&& after.looked(&before)
    &&& page_listed(
        after.steps_since(&before),
        page_rule(path, offset as usize, EXPLORER_PAGE_ROWS, folders_only, excluded),
        path,
        result,
    )
}

/// What a page that was read makes of the explorer. An empty page beyond the start
/// is left for the one before it.
pub open spec fn explorer_with_page(
    e: ExplorerView,
    free: Option<u64>,
    page: Result<(Seq<ItemView>, int), FsOpError>,
) -> ExplorerView {
    match page {
        Err(_) => ExplorerView {
            free_bytes: free,
            entries: Seq::empty(),
            total: 0,
            status: Some(Notice::FolderUnreadable),
            ..e
        },
        Ok((items, total)) => ExplorerView {
            free_bytes: free,
            entries: items,
            total,
            selected: fitted(e.selected, items.len() as int),
            offset: if items.len() == 0 { page_up(e.offset) } else { e.offset },
            status: None,
            ..e
        },
    }
}

/// The page that was read is empty, but not the first one.
pub open spec fn is_past_the_end(
    offset: int,
    page: Result<(Seq<ItemView>, int), FsOpError>,
) -> bool {
    page matches Ok((items, _)) && items.len() == 0 && offset != 0
}

/// Refreshing the explorer: the free space, then the page; where the page lies
/// past the end of the listing, the same one page up.
pub open spec fn refreshed<M: VolumeAccess>(
    before: CardFs<M>,
    after: CardFs<M>,
    e: ExplorerView,
    result: ExplorerView,
) -> bool
    decreases e.offset, 0int,
    when e.offset >= 0
{
    exists|
        asked: CardFs<M>,
        free: Option<u64>,
        read: CardFs<M>,
        page: Result<(Seq<ItemView>, int), FsOpError>,
    |
        {
            &&& #[trigger] space_asked(before, asked, free)
            &&& #[trigger] page_read(asked, read, e.path, e.offset, false, None, page)
            &&& if is_past_the_end(e.offset, page) && e.offset > 0 {
                refreshed_further(read, after, explorer_with_page(e, free, page), result)
            } else {
                after == read && result == explorer_with_page(e, free, page)
            }
        }
}

/// Refreshing one page up. Whatever comes of it, the listing itself was read, so no
/// failure is shown.
pub open spec fn refreshed_further<M: VolumeAccess>(
    before: CardFs<M>,
    after: CardFs<M>,
    e: ExplorerView,
    result: ExplorerView,
) -> bool
    decreases e.offset, 1int,
    when e.offset >= 0
{
    exists|inner: ExplorerView| #[trigger]
        mark_listing(inner) && refreshed(before, after, e, inner) && result == (ExplorerView {
            status: None,
            ..inner
        })
}

/// A mere mark: it always holds, and names an explorer for the relations that use it.
pub open spec fn mark_listing(e: ExplorerView) -> bool {
    true
}

/// Looking for the place of an entry.
pub open spec fn place_asked<M: VolumeAccess>(
    before: CardFs<M>,
    after: CardFs<M>,
    directory: Seq<char>,
    target: Seq<char>,
    result: Result<Option<usize>, FsOpError>,
) -> bool {
    &&& after.looked(&before)
    &&& index_found(after.steps_since(&before), directory, target, result)
}

/// The explorer with the entry at `index` of the listing on its page and selected.
pub open spec fn turned_to(
    e: ExplorerView,
    found: Result<Option<usize>, FsOpError>,
) -> ExplorerView {
    match found {
        Ok(Some(index)) => ExplorerView {
            offset: index - index % EXPLORER_PAGE_ROWS,
            selected: (index % EXPLORER_PAGE_ROWS) as int,
            ..e
        },
        _ => e,
    }
}

/// Refreshing with the entry at `target` selected, if it is found.
pub open spec fn refreshed_at<M: VolumeAccess>(
    before: CardFs<M>,
    after: CardFs<M>,
    e: ExplorerView,
    target: Seq<char>,
    result: ExplorerView,
) -> bool {
    exists|found: CardFs<M>, place: Result<Option<usize>, FsOpError>| #[trigger]
        place_asked(before, found, e.path, target, place) && refreshed(
            found,
            after,
            turned_to(e, place),
            result,
        )
}

/// Going to the folder at `path`, from its first page on.
pub open spec fn entering(e: ExplorerView, path: Seq<char>) -> ExplorerView {
    ExplorerView { path, offset: 0, selected: 0, ..e }
}

/// Going to the parent folder; the root has none.
pub open spec fn gone_up<M: VolumeAccess>(
    before: CardFs<M>,
    after: CardFs<M>,
    e: ExplorerView,
    result: ExplorerView,
) -> bool {
    if e.path == "/"@ {
        after == before && result == e
    } else {
        refreshed(before, after, entering(e, parent_of(e.path)), result)
    }
}

impl Explorer {
    pub open spec fn view(&self) -> ExplorerView {
        ExplorerView {
            path: self.path@,
            offset: self.offset as int,
            selected: self.selected as int,
            entries: item_views(self.entries@),
            total: self.total as int,
            free_bytes: self.free_bytes,
            status: self.status,
        }
    }

    /// The listing fits the display.
    pub open spec fn wf(&self) -> bool {
        self.entries@.len() <= EXPLORER_PAGE_ROWS
    }

    /// The explorer at the root.
    pub fn root() -> (explorer: Self)
        ensures
            explorer@ == root_view(),
            explorer.wf(),
    {
        let explorer = Explorer {
            path: "/".to_owned(),
            offset: 0,
            selected: 0,
            entries: Vec::new(),
            total: 0,
            free_bytes: None,
            status: None,
        };
        assert(explorer@.entries =~= Seq::empty());
        explorer
    }

    /// Take over a page that was read; says whether another page must be.
    pub fn take_page(
        &mut self,
        free: Option<u64>,
        page: Result<(Vec<DirectoryItem>, usize), FsOpError>,
    ) -> (again: bool)
        ensures
            final(self)@ == explorer_with_page(old(self)@, free, page_view(page)),
            again == is_past_the_end(old(self)@.offset, page_view(page)),
            final(self).entries@.len() == (match page {
                Ok((items, _)) => items@.len(),
                Err(_) => 0,
            }),
    {
        self.free_bytes = free;
        match page {
            Ok((entries, total)) => {
                let rows: usize = entries.len();
                self.entries = entries;
                self.total = total;
                self.status = None;
                if rows == 0 {
                    self.selected = 0;
                    if self.offset != 0 {
                        self.offset = self.offset.saturating_sub(EXPLORER_PAGE_ROWS);
                        return true;
                    }
                } else if self.selected >= rows {
                    self.selected = rows - 1;
                }
                false
            },
            Err(_) => {
                self.entries = Vec::new();
                self.total = 0;
                self.status = Some(Notice::FolderUnreadable);
                assert(item_views(self.entries@) =~= Seq::empty());
                false
            },
        }
    }

    /// Read the free space and the page anew.
    pub fn refresh<M: VolumeAccess>(&mut self, card: &mut CardFs<M>)
        requires
            old(card).wf(),
        ensures
            final(card).wf(),
            refreshed(*old(card), *final(card), old(self)@, final(self)@),
            final(self).wf(),
        decreases old(self).offset,
    {
        let ghost before = *card;
        let ghost e = self@;
        let free = card.free_space_bytes();
        let ghost asked = *card;
        let page = card.read_directory_page(self.path.as_str(), self.offset, EXPLORER_PAGE_ROWS);
        let ghost read = *card;
        let ghost seen = page_view(page);
        proof {
            assert(space_asked(before, asked, free));
            assert(page_read(asked, read, e.path, e.offset, false, None, seen));
        }
        if self.take_page(free, page) {
            let ghost middle = self@;
            self.refresh(card);
            let ghost inner = self@;
            self.status = None;
            proof {
                assert(mark_listing(inner));
                assert(self@ =~= ExplorerView { status: None, ..inner });
                assert(refreshed_further(read, *card, middle, self@));
            }
        }
    }

    /// Go to the parent folder.
    pub fn go_parent<M: VolumeAccess>(&mut self, card: &mut CardFs<M>)
        requires
            old(card).wf(),
            old(self).wf(),
        ensures
            final(card).wf(),
            final(self).wf(),
            gone_up(*old(card), *final(card), old(self)@, final(self)@),
    {
        if !same_text(self.path.as_str(), "/") {
            self.path = parent_path(self.path.as_str());
            self.offset = 0;
            self.selected = 0;
            self.refresh(card);
        }
    }

    /// Refresh with the entry at `target` selected.
    pub fn refresh_select_path<M: VolumeAccess>(&mut self, card: &mut CardFs<M>, target: &str)
        requires
            old(card).wf(),
        ensures
            final(card).wf(),
            refreshed_at(*old(card), *final(card), old(self)@, target@, final(self)@),
            final(self).wf(),
    {
        let ghost before = *card;
        let ghost e = self@;
        let place = card.entry_index(self.path.as_str(), target);
        let ghost found = *card;
        proof {
            assert(place_asked(before, found, e.path, target@, place));
        }
        if let Ok(Some(index)) = place {
            self.selected = index % EXPLORER_PAGE_ROWS;
            self.offset = index - index % EXPLORER_PAGE_ROWS;
        }
        self.refresh(card);
    }
}

} // verus!
