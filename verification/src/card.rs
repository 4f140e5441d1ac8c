//! The mounted card: operations on paths.
use vstd::prelude::*;
use vstd::utf8::{decode_utf8, valid_utf8};

use crate::boot::MediaLayout;
use crate::editor::{has_crlf, EditError, NewlineStyle, TextBuffer, MAX_DOCUMENT_BYTES};
use crate::errors::{FsOpError, LoadError, SaveError, VolumeError};
use crate::files::bytes_view;
use crate::moving::{entry_deleted_verified, entry_moved};
use crate::names::{join_path, joined_path, leaf_of, short_form};
use crate::saving::{document_saved, presence, save_view};
use crate::session::{follow_on, stays, RefusedMount, Session, Step};
use crate::storage::{cut, no_more, one_more, since};
use crate::tree::{assessed, copy_cleaned_up};
use crate::volume::{
    scanned, EntryFacts, EntryRecord, OpenMode, ScanRule, ScanRuleView, VolumeAccess,
};

verus! {

broadcast use {follow_on, stays};

/// An entry as the explorer shows it. `name` is the long name where there is one,
/// `path` is made of 8.3 names.
#[derive(Clone, Debug, PartialEq, Eq)]
pub struct DirectoryItem {
    pub name: String,
    pub path: String,
    pub is_dir: bool,
    pub size: u64,
    pub hidden: bool,
    pub system: bool,
}

/// A [`DirectoryItem`] over plain text.
pub struct ItemView {
    pub name: Seq<char>,
    pub path: Seq<char>,
    pub is_dir: bool,
    pub size: u64,
    pub hidden: bool,
    pub system: bool,
}

impl DirectoryItem {
    pub open spec fn view(&self) -> ItemView {
        ItemView {
            name: self.name@,
            path: self.path@,
            is_dir: self.is_dir,
            size: self.size,
            hidden: self.hidden,
            system: self.system,
        }
    }
}

/// What an entry of the folder `directory` looks like in the explorer.
pub open spec fn item_of(directory: Seq<char>, entry: EntryRecord) -> ItemView {
    ItemView {
        name: match entry.long_name {
            Some(long) => if long@.len() > 0 {
                long@
            } else {
                entry.name@
            },
            None => entry.name@,
        },
        path: joined_path(directory, entry.name@),
        is_dir: entry.directory,
        size: entry.size as u64,
        hidden: entry.hidden,
        system: entry.system,
    }
}

/// The views of a list of items.
pub open spec fn item_views(items: Seq<DirectoryItem>) -> Seq<ItemView> {
    items.map_values(|item: DirectoryItem| item@)
}

/// The moment that is stored with what is written to the card.
#[derive(Clone, Copy, Debug, PartialEq, Eq, Structural)]
pub struct EntryTime {
    pub year_since_1970: u8,
    pub zero_indexed_month: u8,
    pub zero_indexed_day: u8,
    pub hours: u8,
    pub minutes: u8,
    pub seconds: u8,
}

/// The device has no calendar clock, so what it writes carries a fixed time.
pub struct FixedTimeSource;

impl FixedTimeSource {
    /// The first of January 2020.
    pub fn timestamp(&self) -> (time: EntryTime)
        ensures
            time == (EntryTime {
                year_since_1970: 50,
                zero_indexed_month: 0,
                zero_indexed_day: 0,
                hours: 0,
                minutes: 0,
                seconds: 0,
            }),
    {
        EntryTime {
            year_since_1970: 50,
            zero_indexed_month: 0,
            zero_indexed_day: 0,
            hours: 0,
            minutes: 0,
            seconds: 0,
        }
    }
}

/// Where the free-space figure, and on FAT32 the count on the card and the volume
/// handle behind it, stand.
#[derive(Clone, Copy, Debug, PartialEq, Eq, Structural)]
pub enum FreeSpaceState {
    /// The figure, if there is one, still matches the card.
    Clean,
    /// Something was changed; the count must reach the card before it is read.
    Stale,
    /// Writing the count failed with the volume intact. Nothing is retried until
    /// the next change, so that a hung card does not stall every look.
    FlushFailed,
    /// The volume was closed and could not be opened again. Each query retries.
    VolumeDead,
}

/// A mounted card.
pub struct CardFs<M: VolumeAccess> {
    session: Session<M>,
    free_space: Option<u64>,
    free_space_state: FreeSpaceState,
}

/// What a change makes of the state: a dead volume stays dead.
pub open spec fn staled(state: FreeSpaceState) -> FreeSpaceState {
    if state == FreeSpaceState::VolumeDead {
        state
    } else {
        FreeSpaceState::Stale
    }
}

/// The figure and its state, and the steps and the answer of a query for it.
pub open spec fn space_answered(
    t: Seq<Step>,
    fat32: bool,
    before: (Option<u64>, FreeSpaceState),
    after: (Option<u64>, FreeSpaceState),
    answer: Option<u64>,
) -> bool {
    match before.1 {
        FreeSpaceState::FlushFailed => t.len() == 0 && after == before && answer is None,
        FreeSpaceState::VolumeDead => {
            &&& t.len() >= 1
            &&& t[0] matches Step::OpenVolume { reply } && if reply is Err {
                t.len() == 1 && after == before && answer is None
            } else {
                measured_anew(t.skip(1), after, answer)
            }
        },
        FreeSpaceState::Stale => if fat32 {
            &&& t.len() >= 1
            &&& t[0] matches Step::CloseVolume { reply } && if reply matches Err(
                VolumeError::VolumeStillInUse,
            ) {
                &&& t.len() == 1
                &&& after == (before.0, FreeSpaceState::FlushFailed)
                &&& answer is None
            } else {
                &&& t.len() >= 2
                &&& t[1] matches Step::OpenVolume { reply: opened } && if opened is Err {
                    &&& t.len() == 2
                    &&& after == (before.0, FreeSpaceState::VolumeDead)
                    &&& answer is None
                } else {
                    measured_anew(t.skip(2), after, answer)
                }
            }
        } else {
            measured_anew(t, after, answer)
        },
        FreeSpaceState::Clean => if before.0 is Some {
            t.len() == 0 && after == before && answer == before.0
        } else {
            measured_anew(t, after, answer)
        },
    }
}

/// Measuring, and keeping the figure.
pub open spec fn measured_anew(
    t: Seq<Step>,
    after: (Option<u64>, FreeSpaceState),
    answer: Option<u64>,
) -> bool {
    &&& t == seq![Step::Measure { reply: answer }]
    &&& after == (answer, FreeSpaceState::Clean)
}

/// The rule for a page of the folder `directory`.
pub open spec fn page_rule(
    directory: Seq<char>,
    offset: usize,
    limit: usize,
    folders_only: bool,
    excluded: Option<Seq<char>>,
) -> ScanRuleView {
    ScanRuleView::Page { directory, offset, limit, folders_only, excluded }
}

/// A page of a folder and the number of its entries.
pub open spec fn page_listed(
    t: Seq<Step>,
    rule: ScanRuleView,
    directory: Seq<char>,
    result: Result<(Seq<ItemView>, int), FsOpError>,
) -> bool {
    &&& t.len() == 1
    &&& t[0] matches Step::Scan { path, rule: r, reply } && {
        &&& path == directory
        &&& r == rule
        &&& result == match reply {
            Err(error) => Err(error),
            Ok(visited) => {
                let state = scanned(rule, visited);
                Ok(
                    (
                        Seq::new(state.kept.len(), |i: int| item_of(directory, state.kept[i])),
                        state.seen,
                    ),
                )
            },
        }
    }
}

pub open spec fn page_view(result: Result<(Vec<DirectoryItem>, usize), FsOpError>) -> Result<
    (Seq<ItemView>, int),
    FsOpError,
> {
    match result {
        Ok((items, total)) => Ok((item_views(items@), total as int)),
        Err(error) => Err(error),
    }
}

/// The place of an entry in its folder's listing.
pub open spec fn index_found(
    t: Seq<Step>,
    directory: Seq<char>,
    target: Seq<char>,
    result: Result<Option<usize>, FsOpError>,
) -> bool {
    let rule = ScanRuleView::Find { directory, target };
    &&& t.len() == 1
    &&& t[0] matches Step::Scan { path, rule: r, reply } && {
        &&& path == directory
        &&& r == rule
        &&& match reply {
            Err(error) => result == Err::<Option<usize>, FsOpError>(error),
            Ok(visited) => result == Ok::<Option<usize>, FsOpError>(
                if scanned(rule, visited).over && scanned(rule, visited).seen < usize::MAX {
                    Some(scanned(rule, visited).seen as usize)
                } else {
                    None
                },
            ),
        }
    }
}

/// What a look at a document says: it can be read, or why it cannot be opened.
pub open spec fn load_refusal(found: Result<EntryFacts, FsOpError>) -> Option<LoadError> {
    match found {
        Err(error) => Some(LoadError::Filesystem(error)),
        Ok(facts) => if facts.directory {
            Some(LoadError::Filesystem(FsOpError::IsADirectory))
        } else if facts.size > MAX_DOCUMENT_BYTES {
            Some(LoadError::TooLarge)
        } else {
            None
        },
    }
}

/// A document made of `bytes`, with the cursor at its start.
pub open spec fn document_of(result: Result<TextBuffer, LoadError>, bytes: Seq<u8>) -> bool {
    match result {
        Ok(buffer) => {
            &&& bytes.len() <= MAX_DOCUMENT_BYTES
            &&& valid_utf8(bytes)
            &&& buffer.wf()
            &&& buffer.before() == Seq::<char>::empty()
            &&& buffer.after() == decode_utf8(bytes)
            &&& !buffer.dirty()
            &&& buffer.newline_style() == if has_crlf(bytes) {
                NewlineStyle::CrLf
            } else {
                NewlineStyle::Lf
            }
        },
        Err(LoadError::TooLarge) => bytes.len() > MAX_DOCUMENT_BYTES,
        Err(LoadError::InvalidUtf8) => bytes.len() <= MAX_DOCUMENT_BYTES && !valid_utf8(bytes),
        Err(LoadError::Filesystem(_)) => false,
    }
}

/// Opening the document at `path`.
pub open spec fn document_loaded(
    t: Seq<Step>,
    path: Seq<char>,
    result: Result<TextBuffer, LoadError>,
) -> bool {
    &&& t.len() >= 1
    &&& t[0] matches Step::Find { path: p, reply } && p == path && match load_refusal(reply) {
        Some(error) => t.len() == 1 && result == Err::<TextBuffer, LoadError>(error),
        None => {
            &&& t.len() == 2
            &&& t[1] matches Step::Read { path: q, reply: contents } && q == path && match contents {
                Err(error) => result == Err::<TextBuffer, LoadError>(LoadError::Filesystem(error)),
                Ok(bytes) => document_of(result, bytes),
            }
        },
    }
}

/// Turn bytes into a document.
pub fn open_document(bytes: Vec<u8>) -> (result: Result<TextBuffer, LoadError>)
    ensures
        document_of(result, bytes@),
{
    match TextBuffer::from_bytes(bytes) {
        Ok(buffer) => Ok(buffer),
        Err(EditError::TooLarge) => Err(LoadError::TooLarge),
        Err(EditError::InvalidUtf8) => Err(LoadError::InvalidUtf8),
    }
}

/// A page has no more entries than it was asked for.
proof fn pages_fit(rule: ScanRuleView, visited: Seq<EntryRecord>)
    ensures
        rule matches ScanRuleView::Page { limit, .. } ==> scanned(rule, visited).kept.len() <= limit,
    decreases visited.len(),
{
    if visited.len() > 0 {
        pages_fit(rule, visited.drop_last());
    }
}

fn make_item(directory: &str, entry: &EntryRecord) -> (item: DirectoryItem)
    ensures
        item@ == item_of(directory@, *entry),
{
    let name = match &entry.long_name {
        Some(long) => if long.as_str().is_empty() {
            entry.name.clone()
        } else {
            long.clone()
        },
        None => entry.name.clone(),
    };
    DirectoryItem {
        name,
        path: join_path(directory, entry.name.as_str()),
        is_dir: entry.directory,
        size: entry.size as u64,
        hidden: entry.hidden,
        system: entry.system,
    }
}

/// How a mount with this layout can end: with a fresh card, or refused by the answer to
/// opening the volume.
pub open spec fn mount_ended<M: VolumeAccess>(
    outcome: Result<CardFs<M>, RefusedMount<M>>,
    layout: MediaLayout,
) -> bool {
    match outcome {
        Ok(card) => card.is_fresh(layout),
        Err(refused) => refused.comes_from(layout),
    }
}

/// A mount without the calls of a refusal.
pub open spec fn mount_report<M: VolumeAccess>(
    outcome: Result<CardFs<M>, RefusedMount<M>>,
) -> Result<CardFs<M>, VolumeError> {
    match outcome {
        Ok(card) => Ok(card),
        Err(refused) => Err(refused.error),
    }
}

impl<M: VolumeAccess> CardFs<M> {
    /// The mounted volume.
    pub closed spec fn volume(&self) -> Session<M> {
        self.session
    }

    /// Every step taken on the card so far, oldest first.
    pub open spec fn steps(&self) -> Seq<Step> {
        self.volume().steps()
    }

    pub open spec fn layout(&self) -> MediaLayout {
        self.volume().layout()
    }

    /// The free-space figure and its state.
    pub closed spec fn space(&self) -> (Option<u64>, FreeSpaceState) {
        (self.free_space, self.free_space_state)
    }

    /// The steps are what was asked of the filesystem layer.
    pub open spec fn wf(&self) -> bool {
        self.volume().wf()
    }

    /// The same card, some steps later.
    pub open spec fn follows(&self, earlier: &CardFs<M>) -> bool {
        self.volume().follows(&earlier.volume())
    }

    /// What an operation that only looks leaves alone.
    pub open spec fn looked(&self, earlier: &CardFs<M>) -> bool {
        &&& self.wf()
        &&& self.follows(earlier)
        &&& self.layout() == earlier.layout()
        &&& self.space() == earlier.space()
    }

    /// What an operation that may change the card does to the free-space figure.
    pub open spec fn changed(&self, earlier: &CardFs<M>) -> bool {
        &&& self.wf()
        &&& self.follows(earlier)
        &&& self.layout() == earlier.layout()
        &&& self.space() == (earlier.space().0, staled(earlier.space().1))
    }

    /// The steps taken since.
    pub open spec fn steps_since(&self, earlier: &CardFs<M>) -> Seq<Step> {
        since(earlier.steps(), self.steps())
    }

    /// The card was just mounted with this layout, and nothing else was done.
    pub open spec fn is_fresh(&self, layout: MediaLayout) -> bool {
        &&& self.wf()
        &&& self.layout() == layout
        &&& self.steps() == seq![Step::Mount]
        &&& self.space() == (None::<u64>, FreeSpaceState::Clean)
    }

    /// Mount the volume described by `layout`, after repairing its FATs. A refusal gives
    /// the volume back, with the calls that were made.
    pub fn mount_or_return(layer: M, layout: MediaLayout) -> (result: Result<Self, RefusedMount<M>>)
        requires
            layout.start_lba + layout.sector_count <= u32::MAX,
        ensures
            mount_ended(result, layout),
    {
        match Session::mount(layer, layout) {
            Ok(session) => Ok(
                CardFs { session, free_space: None, free_space_state: FreeSpaceState::Clean },
            ),
            Err(refused) => Err(refused),
        }
    }

    /// Mount the volume described by `layout`, after repairing its FATs. The error is what
    /// opening the volume was answered with.
    pub fn mount(layer: M, layout: MediaLayout) -> (result: Result<Self, VolumeError>)
        requires
            layout.start_lba + layout.sector_count <= u32::MAX,
        ensures
            exists|outcome: Result<CardFs<M>, RefusedMount<M>>| #[trigger]
                mount_ended(outcome, layout) && result == mount_report(outcome),
            result matches Ok(card) ==> card.is_fresh(layout),
    {
        let outcome = CardFs::mount_or_return(layer, layout);
        assert(mount_ended(outcome, layout));
        CardFs::report_mount(outcome)
    }

    /// What is reported of a mount.
    pub fn report_mount(outcome: Result<Self, RefusedMount<M>>) -> (result: Result<
        Self,
        VolumeError,
    >)
        ensures
            result == mount_report(outcome),
    {
        match outcome {
            Ok(card) => Ok(card),
            Err(refused) => Err(refused.error),
        }
    }

    /// The filesystem layer itself.
    pub closed spec fn layer(&self) -> M {
        self.session.layer()
    }

    /// Unmount, and give the filesystem layer back.
    pub fn into_layer(self) -> (layer: M)
        ensures
            layer == self.layer(),
    {
        self.session.into_layer()
    }

    /// The free-space figure may no longer match the card.
    pub fn mark_free_space_stale(&mut self)
        requires
            old(self).wf(),
        ensures
            final(self).wf(),
            final(self).volume() == old(self).volume(),
            final(self).space() == (old(self).space().0, staled(old(self).space().1)),
    {
        if self.free_space_state != FreeSpaceState::VolumeDead {
            self.free_space_state = FreeSpaceState::Stale;
        }
    }

    fn measure(&mut self) -> (answer: Option<u64>)
        requires
            old(self).wf(),
        ensures
            final(self).wf(),
            final(self).follows(old(self)),
            measured_anew(
                since(old(self).session.steps(), final(self).session.steps()),
                final(self).space(),
                answer,
            ),
    {
        let answer = self.session.measure_free_space();
        self.free_space = answer;
        self.free_space_state = FreeSpaceState::Clean;
        answer
    }

    /// Bytes still free on the volume, or `None` where that cannot be told.
    pub fn free_space_bytes(&mut self) -> (answer: Option<u64>)
        requires
            old(self).wf(),
        ensures
            final(self).wf(),
            final(self).follows(old(self)),
            final(self).layout() == old(self).layout(),
            space_answered(
                final(self).steps_since(old(self)),
                old(self).layout().fat32,
                old(self).space(),
                final(self).space(),
                answer,
            ),
    {
        let ghost first = *self;
        proof {
            no_more(self.session.steps());
            no_more(self.session.calls());
        }
        match self.free_space_state {
            FreeSpaceState::FlushFailed => None,
            FreeSpaceState::VolumeDead => {
                let reply = self.session.reopen_volume();
                let ghost opened = self.session;
                if reply.is_err() {
                    return None;
                }
                let answer = self.measure();
                proof {
                    cut(first.session.steps(), opened.steps(), self.session.steps());
                    let t = since(first.session.steps(), self.session.steps());
                    assert(t[0] == t.take(1)[0]);
                }
                answer
            },
            FreeSpaceState::Stale => {
                if !self.session.media_layout().fat32 {
                    return self.measure();
                }
                let reply = self.session.close_volume();
                let ghost close = Step::CloseVolume { reply };
                let ghost closed = self.session;
                if matches!(reply, Err(VolumeError::VolumeStillInUse)) {
                    self.free_space_state = FreeSpaceState::FlushFailed;
                    return None;
                }
                let reply = self.session.reopen_volume();
                let ghost open = Step::OpenVolume { reply };
                let ghost opened = self.session;
                proof {
                    one_more(first.session.steps(), closed.steps(), open);
                    assert(since(first.session.steps(), opened.steps()) =~= seq![close, open]);
                }
                if reply.is_err() {
                    self.free_space_state = FreeSpaceState::VolumeDead;
                    return None;
                }
                let answer = self.measure();
                proof {
                    cut(first.session.steps(), opened.steps(), self.session.steps());
                    let t = since(first.session.steps(), self.session.steps());
                    assert(t[0] == t.take(2)[0] && t[1] == t.take(2)[1]);
                }
                answer
            },
            FreeSpaceState::Clean => {
                if self.free_space.is_some() {
                    return self.free_space;
                }
                self.measure()
            },
        }
    }

    fn list_directory_page(
        &mut self,
        path: &str,
        offset: usize,
        limit: usize,
        folders_only: bool,
        excluded_path: Option<&str>,
    ) -> (result: Result<(Vec<DirectoryItem>, usize), FsOpError>)
        requires
            old(self).wf(),
        ensures
            final(self).looked(old(self)),
            page_listed(
                final(self).steps_since(old(self)),
                page_rule(
                    path@,
                    offset,
                    limit,
                    folders_only,
                    match excluded_path {
                        Some(excluded) => Some(excluded@),
                        None => None,
                    },
                ),
                path@,
                page_view(result),
            ),
            result matches Ok((items, _)) ==> items@.len() <= limit,
    {
        let excluded = match excluded_path {
            Some(excluded) => Some(excluded.to_owned()),
            None => None,
        };
        let rule = ScanRule::Page {
            directory: path.to_owned(),
            offset,
            limit,
            folders_only,
            excluded,
        };
        let ghost asked = rule@;
        let scan = match self.session.scan(path, rule) {
            Ok(scan) => scan,
            Err(error) => return Err(error),
        };
        let ghost visited = scan.visited();
        let ghost state = scanned(asked, visited);
        let (total, kept, _over) = scan.into_parts();
        proof {
            pages_fit(asked, visited);
        }
        let mut items: Vec<DirectoryItem> = Vec::new();
        for i in 0..kept.len()
            invariant
                kept@ == state.kept,
                items@.len() == i,
                forall|j: int| 0 <= j < i ==> #[trigger] items@[j]@ == item_of(path@, kept@[j]),
        {
            items.push(make_item(path, &kept[i]));
        }
        assert(item_views(items@) =~= Seq::new(
            state.kept.len(),
            |i: int| item_of(path@, state.kept[i]),
        ));
        Ok((items, total))
    }

    /// A page of the folder at `path`, and the number of its entries.
    pub fn read_directory_page(&mut self, path: &str, offset: usize, limit: usize) -> (result: Result<
        (Vec<DirectoryItem>, usize),
        FsOpError,
    >)
        requires
            old(self).wf(),
        ensures
            final(self).looked(old(self)),
            page_listed(
                final(self).steps_since(old(self)),
                page_rule(path@, offset, limit, false, None),
                path@,
                page_view(result),
            ),
            result matches Ok((items, _)) ==> items@.len() <= limit,
    {
        self.list_directory_page(path, offset, limit, false, None)
    }

    /// A page of the folders in the folder at `path`, without the one at
    /// `excluded_path`, and the number of them.
    pub fn read_directory_folders_page(
        &mut self,
        path: &str,
        offset: usize,
        limit: usize,
        excluded_path: Option<&str>,
    ) -> (result: Result<(Vec<DirectoryItem>, usize), FsOpError>)
        requires
            old(self).wf(),
        ensures
            final(self).looked(old(self)),
            page_listed(
                final(self).steps_since(old(self)),
                page_rule(
                    path@,
                    offset,
                    limit,
                    true,
                    match excluded_path {
                        Some(excluded) => Some(excluded@),
                        None => None,
                    },
                ),
                path@,
                page_view(result),
            ),
            result matches Ok((items, _)) ==> items@.len() <= limit,
    {
        self.list_directory_page(path, offset, limit, true, excluded_path)
    }

    /// Place of `target_path` in the listing of the folder at `dir_path`.
    pub fn entry_index(&mut self, dir_path: &str, target_path: &str) -> (result: Result<
        Option<usize>,
        FsOpError,
    >)
        requires
            old(self).wf(),
        ensures
            final(self).looked(old(self)),
            index_found(final(self).steps_since(old(self)), dir_path@, target_path@, result),
    {
        let rule = ScanRule::Find {
            directory: dir_path.to_owned(),
            target: target_path.to_owned(),
        };
        match self.session.scan(dir_path, rule) {
            Ok(scan) => {
                let (index, _kept, over) = scan.into_parts();
                if over && index < usize::MAX {
                    Ok(Some(index))
                } else {
                    Ok(None)
                }
            },
            Err(error) => Err(error),
        }
    }

    /// Open the document at `path`.
    pub fn load_text(&mut self, path: &str) -> (result: Result<TextBuffer, LoadError>)
        requires
            old(self).wf(),
        ensures
            final(self).looked(old(self)),
            document_loaded(final(self).steps_since(old(self)), path@, result),
    {
        let ghost first = self.session;
        let found = self.session.find_entry(path);
        let ghost look = Step::Find { path: path@, reply: found };
        let ghost looked = self.session;
        let facts = match found {
            Ok(facts) => facts,
            Err(error) => return Err(LoadError::Filesystem(error)),
        };
        if facts.directory {
            return Err(LoadError::Filesystem(FsOpError::IsADirectory));
        }
        if facts.size > MAX_DOCUMENT_BYTES as u32 {
            return Err(LoadError::TooLarge);
        }
        let contents = self.session.read_file(path);
        proof {
            let read = Step::Read { path: path@, reply: bytes_view(contents) };
            one_more(first.steps(), looked.steps(), read);
            assert(since(first.steps(), self.session.steps()) =~= seq![look, read]);
        }
        match contents {
            Ok(bytes) => open_document(bytes),
            Err(error) => Err(LoadError::Filesystem(error)),
        }
    }

    /// Read the whole file at `path`.
    pub fn read_file(&mut self, path: &str) -> (result: Result<Vec<u8>, FsOpError>)
        requires
            old(self).wf(),
        ensures
            final(self).looked(old(self)),
            final(self).steps_since(old(self)) == seq![
                Step::Read { path: path@, reply: bytes_view(result) },
            ],
    {
        self.session.read_file(path)
    }

    /// Create an empty file at `path`, where there must be nothing yet.
    pub fn create_empty(&mut self, path: &str) -> (result: Result<(), FsOpError>)
        requires
            old(self).wf(),
        ensures
            final(self).changed(old(self)),
            final(self).steps_since(old(self)) == seq![
                Step::CreateFile { path: path@, reply: result },
            ],
    {
        self.mark_free_space_stale();
        self.session.create_file(path)
    }

    /// Create a folder at `path`, where there must be nothing yet.
    pub fn create_directory_verified(&mut self, path: &str) -> (result: Result<(), FsOpError>)
        requires
            old(self).wf(),
        ensures
            final(self).changed(old(self)),
            final(self).steps_since(old(self)) == seq![
                Step::CreateFolder { path: path@, reply: result },
            ],
    {
        self.mark_free_space_stale();
        self.session.create_folder(path)
    }

    /// Whether there is an entry at `path`; 8.3 names have no case.
    pub fn entry_exists(&mut self, path: &str) -> (result: Result<bool, FsOpError>)
        requires
            old(self).wf(),
        ensures
            final(self).looked(old(self)),
            exists|reply: Result<EntryFacts, FsOpError>|
                #![trigger presence(reply)]
                final(self).steps_since(old(self)) == seq![Step::Find { path: path@, reply }]
                    && result == presence(reply),
    {
        let ghost first = self.session;
        let result = self.session.entry_exists(path);
        proof {
            let reply = choose|reply: Result<EntryFacts, FsOpError>| #[trigger]
                self.session.took(&first, Step::Find { path: path@, reply }) && result == presence(
                    reply,
                );
            assert(result == presence(reply));
        }
        result
    }

    /// Rename or move an entry. The destination is never replaced.
    pub fn move_entry_verified(&mut self, from: &str, to: &str) -> (result: Result<(), FsOpError>)
        requires
            old(self).wf(),
        ensures
            final(self).changed(old(self)),
            entry_moved(
                final(self).steps_since(old(self)),
                from@,
                to@,
                short_form(leaf_of(from@)),
                short_form(leaf_of(to@)),
                result,
            ),
    {
        self.mark_free_space_stale();
        self.session.move_entry(from, to)
    }

    /// Delete the entry at `path`, a folder with all it holds.
    pub fn delete_verified(&mut self, path: &str, is_dir: bool) -> (result: Result<(), FsOpError>)
        requires
            old(self).wf(),
        ensures
            final(self).changed(old(self)),
            entry_deleted_verified(final(self).steps_since(old(self)), path@, is_dir, result),
    {
        self.mark_free_space_stale();
        self.session.delete_entry(path, is_dir)
    }

    /// Replace a file's contents and verify every byte by reading it back.
    pub fn save_verified(&mut self, path: &str, contents: &[u8]) -> (result: Result<(), FsOpError>)
        requires
            old(self).wf(),
        ensures
            final(self).changed(old(self)),
            final(self).steps_since(old(self)) == seq![
                Step::Save { path: path@, contents: contents@, reply: result },
            ],
    {
        self.mark_free_space_stale();
        self.session.save_verified(path, contents)
    }

    /// Replace a document, keeping a proven copy of both its old and its new
    /// contents on the card at every step.
    pub fn save_transactional(&mut self, path: &str, contents: &[u8]) -> (result: Result<
        (),
        SaveError,
    >)
        requires
            old(self).wf(),
        ensures
            final(self).changed(old(self)),
            document_saved(
                final(self).steps_since(old(self)),
                path@,
                contents@,
                save_view(result),
            ),
    {
        self.mark_free_space_stale();
        self.session.save_document(path, contents)
    }

    /// Look up the entry at `path`.
    pub fn find_entry(&mut self, path: &str) -> (reply: Result<EntryFacts, FsOpError>)
        requires
            old(self).wf(),
        ensures
            final(self).looked(old(self)),
            final(self).steps_since(old(self)) == seq![Step::Find { path: path@, reply }],
    {
        self.session.find_entry(path)
    }

    /// Copy a file and prove the copy by comparing the two.
    pub fn copy_file_contents(&mut self, from: &str, to: &str, mode: OpenMode) -> (reply: Result<
        (),
        FsOpError,
    >)
        requires
            old(self).wf(),
        ensures
            final(self).looked(old(self)),
            final(self).steps_since(old(self)) == seq![
                Step::Copy { from: from@, to: to@, mode, reply },
            ],
    {
        self.session.copy_file_contents(from, to, mode)
    }

    /// Whether rollback may follow a failure, and the failure to report.
    pub fn assess_failure(&mut self, error: FsOpError) -> (verdict: (FsOpError, bool))
        requires
            old(self).wf(),
        ensures
            final(self).looked(old(self)),
            assessed(final(self).steps_since(old(self)), error, verdict),
    {
        self.session.assess_failure(error)
    }

    /// Assess the failure of a copy to `to`, and remove what it left there where that
    /// is safe.
    pub fn cleanup_partial_destination(&mut self, error: FsOpError, to: &str) -> (report: FsOpError)
        requires
            old(self).wf(),
        ensures
            final(self).looked(old(self)),
            copy_cleaned_up(final(self).steps_since(old(self)), error, to@, Err(report)),
    {
        self.session.cleanup_partial_destination(error, to)
    }

    /// Open the mounted volume again.
    pub fn reopen_volume(&mut self) -> (reply: Result<(), VolumeError>)
        requires
            old(self).wf(),
        ensures
            final(self).looked(old(self)),
            final(self).steps_since(old(self)) == seq![Step::OpenVolume { reply }],
    {
        self.session.reopen_volume()
    }
}

} // verus!
