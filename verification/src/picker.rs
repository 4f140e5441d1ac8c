//! The folder picker: where an entry is to be moved.
use vstd::prelude::*;

use crate::card::{item_views, page_view, CardFs, DirectoryItem, ItemView};
use crate::errors::FsOpError;
use crate::explorer::{
    fitted, is_past_the_end, page_read, page_up, Explorer, EXPLORER_PAGE_ROWS,
};
use crate::names::{parent_of, parent_path};
use crate::notice::Notice;
use crate::text::same_text;
use crate::volume::VolumeAccess;

verus! {

/// A listing of folders to choose from, for moving `source`. A folder cannot be
/// moved into itself, so it is not listed.
pub struct MovePicker {
    pub origin: Explorer,
    pub source: DirectoryItem,
    pub path: String,
    pub offset: usize,
    pub selected: usize,
    pub entries: Vec<DirectoryItem>,
    pub total: usize,
    pub status: Option<Notice>,
}

/// The listing of a [`MovePicker`] over plain text. The explorer that it came from stays as it
/// is, and stands apart.
pub struct PickerView {
    pub source: ItemView,
    pub path: Seq<char>,
    pub offset: int,
    pub selected: int,
    pub entries: Seq<ItemView>,
    pub total: int,
    pub status: Option<Notice>,
}

/// The picker before anything was read, in the folder of the entry to be moved.
pub open spec fn picker_for(source: ItemView) -> PickerView {
    PickerView {
        source,
        path: parent_of(source.path),
        offset: 0,
        selected: 0,
        entries: Seq::empty(),
        total: 0,
        status: None,
    }
}

/// The path that is left out of the listing.
pub open spec fn excluded_from(source: ItemView) -> Option<Seq<char>> {
    if source.is_dir { Some(source.path) } else { None }
}

/// What a page that was read makes of the picker.
pub open spec fn picker_with_page(
    p: PickerView,
    page: Result<(Seq<ItemView>, int), FsOpError>,
) -> PickerView {
    match page {
        Err(_) => PickerView {
            entries: Seq::empty(),
            total: 0,
            status: Some(Notice::FolderUnreadable),
            ..p
        },
        Ok((items, total)) => PickerView {
            entries: items,
            total,
            selected: fitted(p.selected, items.len() as int),
            offset: if items.len() == 0 { page_up(p.offset) } else { p.offset },
            status: None,
            ..p
        },
    }
}

/// Reading the picker's page anew; where it lies past the end of the listing, the
/// one before it.
pub open spec fn picker_refreshed<M: VolumeAccess>(
    before: CardFs<M>,
    after: CardFs<M>,
    p: PickerView,
    result: PickerView,
) -> bool
    decreases p.offset, 0int,
    when p.offset >= 0
{
    exists|read: CardFs<M>, page: Result<(Seq<ItemView>, int), FsOpError>|
        {
            &&& #[trigger] page_read(
                before,
                read,
                p.path,
                p.offset,
                true,
                excluded_from(p.source),
                page,
            )
            &&& if is_past_the_end(p.offset, page) && p.offset > 0 {
                picker_refreshed_further(read, after, picker_with_page(p, page), result)
            } else {
                after == read && result == picker_with_page(p, page)
            }
        }
}

/// Reading the page before. Whatever comes of it, no failure is shown.
pub open spec fn picker_refreshed_further<M: VolumeAccess>(
    before: CardFs<M>,
    after: CardFs<M>,
    p: PickerView,
    result: PickerView,
) -> bool
    decreases p.offset, 1int,
    when p.offset >= 0
{
    exists|inner: PickerView| #[trigger]
        mark_folders(inner) && picker_refreshed(before, after, p, inner) && result == (PickerView {
            status: None,
            ..inner
        })
}

/// A mere mark: it always holds, and names a picker for the relation above.
pub open spec fn mark_folders(p: PickerView) -> bool {
    true
}

/// Going to the folder at `path`, from its first page on.
pub open spec fn picker_entering(p: PickerView, path: Seq<char>) -> PickerView {
    PickerView { path, offset: 0, selected: 0, ..p }
}

/// Going to the parent folder; the root has none.
pub open spec fn picker_gone_up<M: VolumeAccess>(
    before: CardFs<M>,
    after: CardFs<M>,
    p: PickerView,
    result: PickerView,
) -> bool {
    if p.path == "/"@ {
        after == before && result == p
    } else {
        picker_refreshed(before, after, picker_entering(p, parent_of(p.path)), result)
    }
}

impl MovePicker {
    pub open spec fn view(&self) -> PickerView {
        PickerView {
            source: self.source@,
            path: self.path@,
            offset: self.offset as int,
            selected: self.selected as int,
            entries: item_views(self.entries@),
            total: self.total as int,
            status: self.status,
        }
    }

    /// The listings fit the display.
    pub open spec fn wf(&self) -> bool {
        self.entries@.len() <= EXPLORER_PAGE_ROWS && self.origin.wf()
    }

    /// A picker for moving `source`, before anything was read.
    pub fn new(origin: Explorer, source: DirectoryItem) -> (picker: Self)
        ensures
            origin.wf() ==> picker.wf(),
            picker@ == picker_for(source@),
            picker.origin == origin,
            picker.source == source,
    {
        let path = parent_path(source.path.as_str());
        let picker = MovePicker {
            origin,
            source,
            path,
            offset: 0,
            selected: 0,
            entries: Vec::new(),
            total: 0,
            status: None,
        };
        assert(picker@.entries =~= Seq::empty());
        picker
    }

    /// Take over a page that was read; says whether another page must be.
    pub fn take_page(&mut self, page: Result<(Vec<DirectoryItem>, usize), FsOpError>) -> (again: bool)
        ensures
            final(self)@ == picker_with_page(old(self)@, page_view(page)),
            final(self).origin == old(self).origin,
            final(self).source == old(self).source,
            again == is_past_the_end(old(self)@.offset, page_view(page)),
            final(self).entries@.len() == (match page {
                Ok((items, _)) => items@.len(),
                Err(_) => 0,
            }),
    {
        match page {
            Ok((entries, total)) => {
                let rows: usize = entries.len();
                self.entries = entries;
                self.total = total;
                self.status = None;
                if rows == 0 {
                    self.selected = 0;
                    if self.offset != 0 {
                        self.offset = self.offset.saturating_sub(EXPLORER_PAGE_ROWS);
                        return true;
                    }
                } else if self.selected >= rows {
                    self.selected = rows - 1;
                }
                false
            },
            Err(_) => {
                self.entries = Vec::new();
                self.total = 0;
                self.status = Some(Notice::FolderUnreadable);
                assert(item_views(self.entries@) =~= Seq::empty());
                false
            },
        }
    }

    /// Read the page anew.
    pub fn refresh<M: VolumeAccess>(&mut self, card: &mut CardFs<M>)
        requires
            old(card).wf(),
        ensures
            final(card).wf(),
            final(self).origin == old(self).origin,
            final(self).source == old(self).source,
            picker_refreshed(*old(card), *final(card), old(self)@, final(self)@),
            old(self).origin.wf() ==> final(self).wf(),
        decreases old(self).offset,
    {
        let ghost before = *card;
        let ghost p = self@;
        let excluded = if self.source.is_dir { Some(self.source.path.as_str()) } else { None };
        let page = card.read_directory_folders_page(
            self.path.as_str(),
            self.offset,
            EXPLORER_PAGE_ROWS,
            excluded,
        );
        let ghost read = *card;
        let ghost seen = page_view(page);
        proof {
            assert(page_read(before, read, p.path, p.offset, true, excluded_from(p.source), seen));
        }
        if self.take_page(page) {
            let ghost middle = self@;
            self.refresh(card);
            let ghost inner = self@;
            self.status = None;
            proof {
                assert(mark_folders(inner));
                assert(self@ =~= PickerView { status: None, ..inner });
                assert(picker_refreshed_further(read, *card, middle, self@));
            }
        }
    }

    /// Go to the parent folder.
    pub fn go_parent<M: VolumeAccess>(&mut self, card: &mut CardFs<M>)
        requires
            old(card).wf(),
        ensures
            final(card).wf(),
            final(self).origin == old(self).origin,
            final(self).source == old(self).source,
            picker_gone_up(*old(card), *final(card), old(self)@, final(self)@),
            old(self).wf() ==> final(self).wf(),
    {
        if !same_text(self.path.as_str(), "/") {
            self.path = parent_path(self.path.as_str());
            self.offset = 0;
            self.selected = 0;
            self.refresh(card);
        }
    }
}

} // verus!
