//! The filesystem layer under the card operations, and a record of everything
//! asked of it.
use vstd::prelude::*;

use crate::errors::VolumeError;
use crate::names::{join_path, joined_path};
use crate::text::{chars_of, equal_ignoring_case, same_but_for_case, same_text};

verus! {

/// How a file is opened.
#[derive(Clone, Copy, Debug, PartialEq, Eq, Structural)]
pub enum OpenMode {
    /// For reading; the file must exist.
    ReadOnly,
    /// For writing, emptied; the file must exist.
    ReadWriteTruncate,
    /// For writing; the file must not exist.
    ReadWriteCreate,
    /// For writing, emptied or created.
    ReadWriteCreateOrTruncate,
}

/// What a lookup tells of an entry.
#[derive(Clone, Copy, Debug, PartialEq, Eq, Structural)]
pub struct EntryFacts {
    pub directory: bool,
    pub read_only: bool,
    pub size: u32,
}

/// An entry as a directory lists it. `name` is its 8.3 name.
#[derive(Debug, PartialEq, Eq)]
pub struct EntryRecord {
    pub name: String,
    pub long_name: Option<String>,
    /// It is `.` or `..`.
    pub dot: bool,
    pub volume_label: bool,
    /// It is a piece of a long name.
    pub long_name_part: bool,
    pub directory: bool,
    pub read_only: bool,
    pub hidden: bool,
    pub system: bool,
    pub size: u32,
}

/// The entry is a child of its directory, and neither a dot entry, the volume
/// label nor a piece of a long name.
pub open spec fn is_child(entry: EntryRecord) -> bool {
    !(entry.volume_label || entry.long_name_part || entry.dot)
}

/// Whether an entry is a child of its directory.
pub fn is_listable(entry: &EntryRecord) -> (yes: bool)
    ensures
        yes == is_child(*entry),
{
    !(entry.volume_label || entry.long_name_part || entry.dot)
}

/// What a walk over a directory looks for.
pub enum ScanRule {
    /// A page of the listing, and its whole length.
    Page {
        directory: String,
        offset: usize,
        limit: usize,
        folders_only: bool,
        excluded: Option<String>,
    },
    /// The place of the entry with path `target` in the listing.
    Find { directory: String, target: String },
    /// Some of the children, and whether more follow.
    Children { skip: usize, limit: usize },
}

/// A [`ScanRule`] over plain text.
pub enum ScanRuleView {
    Page {
        directory: Seq<char>,
        offset: usize,
        limit: usize,
        folders_only: bool,
        excluded: Option<Seq<char>>,
    },
    Find { directory: Seq<char>, target: Seq<char> },
    Children { skip: usize, limit: usize },
}

impl ScanRule {
    pub open spec fn view(&self) -> ScanRuleView {
        match self {
            ScanRule::Page { directory, offset, limit, folders_only, excluded } => ScanRuleView::Page {
                directory: directory@,
                offset: *offset,
                limit: *limit,
                folders_only: *folders_only,
                excluded: match excluded {
                    Some(name) => Some(name@),
                    None => None,
                },
            },
            ScanRule::Find { directory, target } => ScanRuleView::Find {
                directory: directory@,
                target: target@,
            },
            ScanRule::Children { skip, limit } => ScanRuleView::Children {
                skip: *skip,
                limit: *limit,
            },
        }
    }

    fn copy(&self) -> (rule: ScanRule)
        ensures
            rule@ == self@,
    {
        match self {
            ScanRule::Page { directory, offset, limit, folders_only, excluded } => ScanRule::Page {
                directory: directory.clone(),
                offset: *offset,
                limit: *limit,
                folders_only: *folders_only,
                excluded: match excluded {
                    Some(name) => Some(name.clone()),
                    None => None,
                },
            },
            ScanRule::Find { directory, target } => ScanRule::Find {
                directory: directory.clone(),
                target: target.clone(),
            },
            ScanRule::Children { skip, limit } => ScanRule::Children { skip: *skip, limit: *limit },
        }
    }

    fn is_same(&self, other: &ScanRule) -> (same: bool)
        ensures
            same == (self@ == other@),
    {
        match (self, other) {
            (
                ScanRule::Page { directory, offset, limit, folders_only, excluded },
                ScanRule::Page { directory: d, offset: o, limit: l, folders_only: f, excluded: e },
            ) => {
                let same_excluded = match (excluded, e) {
                    (None, None) => true,
                    (Some(a), Some(b)) => same_text(a.as_str(), b.as_str()),
                    _ => false,
                };
                same_text(directory.as_str(), d.as_str()) && *offset == *o && *limit == *l
                    && *folders_only == *f && same_excluded
            },
            (
                ScanRule::Find { directory, target },
                ScanRule::Find { directory: d, target: t },
            ) => {
                same_text(directory.as_str(), d.as_str()) && same_text(
                    target.as_str(),
                    t.as_str(),
                )
            },
            (ScanRule::Children { skip, limit }, ScanRule::Children { skip: s, limit: l }) => {
                *skip == *s && *limit == *l
            },
            _ => false,
        }
    }
}

/// How far a walk has come: entries counted, those kept, and whether it is over.
pub struct ScanState {
    pub seen: int,
    pub kept: Seq<EntryRecord>,
    pub over: bool,
}

/// The rule takes notice of this entry.
pub open spec fn counts(rule: ScanRuleView, entry: EntryRecord) -> bool {
    &&& is_child(entry)
    &&& rule matches ScanRuleView::Page { directory, folders_only, excluded, .. } ==> {
        &&& folders_only ==> entry.directory
        &&& excluded matches Some(path) ==> !same_but_for_case(
            joined_path(directory, entry.name@),
            path,
        )
    }
}

/// The walk after one more entry. It ends where its question is answered.
pub open spec fn scan_step(rule: ScanRuleView, state: ScanState, entry: EntryRecord) -> ScanState {
    if state.over || !counts(rule, entry) {
        state
    } else if state.seen == usize::MAX {
        ScanState { over: true, ..state }
    } else {
        let next = ScanState { seen: state.seen + 1, ..state };
        let taken = ScanState { kept: state.kept.push(entry), ..next };
        match rule {
            ScanRuleView::Page { offset, limit, .. } => if state.seen >= offset
                && state.kept.len() < limit {
                taken
            } else {
                next
            },
            ScanRuleView::Find { directory, target } => if same_but_for_case(
                joined_path(directory, entry.name@),
                target,
            ) {
                ScanState { over: true, ..state }
            } else {
                next
            },
            ScanRuleView::Children { skip, limit } => if state.seen < skip {
                next
            } else if state.kept.len() < limit {
                taken
            } else {
                ScanState { over: true, ..state }
            },
        }
    }
}

/// The walk after the entries `visited`.
pub open spec fn scanned(rule: ScanRuleView, visited: Seq<EntryRecord>) -> ScanState
    decreases visited.len(),
{
    if visited.len() == 0 {
        ScanState { seen: 0, kept: Seq::empty(), over: false }
    } else {
        scan_step(rule, scanned(rule, visited.drop_last()), visited.last())
    }
}

/// Whether `path` is that of an entry of `directory`, letter case aside.
fn is_entry_path(directory: &str, entry: &EntryRecord, path: &str) -> (yes: bool)
    ensures
        yes == same_but_for_case(joined_path(directory@, entry.name@), path@),
{
    let own = join_path(directory, entry.name.as_str());
    equal_ignoring_case(&chars_of(own.as_str()), &chars_of(path))
}

/// A walk over a directory. Whoever walks hands in the entries one by one.
pub struct EntryScan {
    rule: ScanRule,
    seen: usize,
    kept: Vec<EntryRecord>,
    over: bool,
    visited: Ghost<Seq<EntryRecord>>,
}

impl EntryScan {
    #[verifier::type_invariant]
    spec fn agrees(&self) -> bool {
        let state = scanned(self.rule@, self.visited@);
        self.seen == state.seen && self.kept@ == state.kept && self.over == state.over
    }

    pub closed spec fn rule(&self) -> ScanRuleView {
        self.rule@
    }

    /// The entries handed in so far.
    pub closed spec fn visited(&self) -> Seq<EntryRecord> {
        self.visited@
    }

    fn new(rule: ScanRule) -> (scan: EntryScan)
        ensures
            scan.rule() == rule@,
            scan.visited() == Seq::<EntryRecord>::empty(),
    {
        EntryScan { rule, seen: 0, kept: Vec::new(), over: false, visited: Ghost(Seq::empty()) }
    }

    /// Hand in one entry.
    pub fn visit(self, entry: EntryRecord) -> (next: EntryScan)
        ensures
            next.rule() == self.rule(),
            next.visited() == self.visited().push(entry),
    {
        proof {
            use_type_invariant(&self);
            assert(self.visited@.push(entry).drop_last() =~= self.visited@);
        }
        let EntryScan { rule, seen, kept, over, visited } = self;
        let ghost all = visited@.push(entry);
        if over || !is_listable(&entry) {
            return EntryScan { rule, seen, kept, over, visited: Ghost(all) };
        }
        let counted = match &rule {
            ScanRule::Page { directory, folders_only, excluded, .. } => {
                let is_excluded = match excluded {
                    Some(path) => is_entry_path(directory.as_str(), &entry, path.as_str()),
                    None => false,
                };
                (!*folders_only || entry.directory) && !is_excluded
            },
            _ => true,
        };
        if !counted {
            return EntryScan { rule, seen, kept, over, visited: Ghost(all) };
        }
        if seen == usize::MAX {
            return EntryScan { rule, seen, kept, over: true, visited: Ghost(all) };
        }
        let (take, end) = match &rule {
            ScanRule::Page { offset, limit, .. } => (seen >= *offset && kept.len() < *limit, false),
            ScanRule::Find { directory, target } => (
                false,
                is_entry_path(directory.as_str(), &entry, target.as_str()),
            ),
            ScanRule::Children { skip, limit } => (
                seen >= *skip && kept.len() < *limit,
                seen >= *skip && kept.len() >= *limit,
            ),
        };
        if end {
            return EntryScan { rule, seen, kept, over: true, visited: Ghost(all) };
        }
        let mut kept = kept;
        if take {
            kept.push(entry);
        }
        EntryScan { rule, seen: seen + 1, kept, over, visited: Ghost(all) }
    }

    /// The walk uses the entries' long names.
    pub fn wants_long_names(&self) -> (yes: bool)
        ensures
            yes == (self.rule() is Page),
    {
        matches!(&self.rule, ScanRule::Page { .. })
    }

    /// The walk needs no further entries.
    pub fn is_over(&self) -> (over: bool)
        ensures
            over == scanned(self.rule(), self.visited()).over,
    {
        proof {
            use_type_invariant(self);
        }
        self.over
    }

    /// The entries counted, those kept, and whether the walk came to its end.
    pub fn into_parts(self) -> (parts: (usize, Vec<EntryRecord>, bool))
        ensures
            parts.0 == scanned(self.rule(), self.visited()).seen,
            parts.1@ == scanned(self.rule(), self.visited()).kept,
            parts.2 == scanned(self.rule(), self.visited()).over,
    {
        proof {
            use_type_invariant(&self);
        }
        let EntryScan { rule: _, seen, kept, over, visited: _ } = self;
        (seen, kept, over)
    }
}

/// The filesystem layer, supplied by the embedder: one volume of a card, whose
/// directories and files are reached through handles. Nothing is promised of its
/// replies: whatever is proved here holds for every behaviour of the card.
pub trait VolumeAccess {
    type Dir: Copy;

    type File: Copy;

    /// Read one sector of the device, past every cache.
    fn read_sector(&mut self, lba: u32) -> Option<[u8; 512]>;

    /// Write one sector of the device; says whether that succeeded.
    fn write_sector(&mut self, lba: u32, contents: &[u8; 512]) -> bool;

    /// Forget the cached block, so that the next read fetches it anew.
    fn drop_cache(&mut self);

    /// Open the volume in slot `partition` of the partition table.
    fn open_volume(&mut self, partition: u8) -> Result<(), VolumeError>;

    fn close_volume(&mut self) -> Result<(), VolumeError>;

    fn open_root_dir(&mut self) -> Result<Self::Dir, VolumeError>;

    fn open_dir(&mut self, parent: Self::Dir, name: &str) -> Result<Self::Dir, VolumeError>;

    fn close_dir(&mut self, dir: Self::Dir);

    fn find_entry(&mut self, dir: Self::Dir, name: &str) -> Result<EntryFacts, VolumeError>;

    /// Hand the entries of a directory to `scan` in turn, until it is over.
    fn iterate_dir(&mut self, dir: Self::Dir, scan: EntryScan) -> Result<EntryScan, VolumeError>;

    fn make_dir(&mut self, dir: Self::Dir, name: &str) -> Result<(), VolumeError>;

    fn delete_entry(&mut self, dir: Self::Dir, name: &str) -> Result<(), VolumeError>;

    fn open_file(&mut self, dir: Self::Dir, name: &str, mode: OpenMode) -> Result<
        Self::File,
        VolumeError,
    >;

    /// Deliver at most `limit` of the next bytes; none at the end of the file.
    fn read(&mut self, file: Self::File, limit: usize) -> Result<Vec<u8>, VolumeError>;

    fn write(&mut self, file: Self::File, bytes: &[u8]) -> Result<(), VolumeError>;

    fn close_file(&mut self, file: Self::File) -> Result<(), VolumeError>;
}

/// One call of the filesystem layer: what was asked and what came back.
#[allow(inconsistent_fields)]
pub enum Call<D, F> {
    ReadSector { lba: u32, reply: Option<[u8; 512]> },
    WriteSector { lba: u32, contents: Seq<u8>, reply: bool },
    DropCache,
    OpenVolume { partition: u8, reply: Result<(), VolumeError> },
    CloseVolume { reply: Result<(), VolumeError> },
    OpenRoot { reply: Result<D, VolumeError> },
    OpenDir { parent: D, name: Seq<char>, reply: Result<D, VolumeError> },
    CloseDir { dir: D },
    Find { dir: D, name: Seq<char>, reply: Result<EntryFacts, VolumeError> },
    Iterate { dir: D, rule: ScanRuleView, reply: Result<Seq<EntryRecord>, VolumeError> },
    MakeDir { dir: D, name: Seq<char>, reply: Result<(), VolumeError> },
    Delete { dir: D, name: Seq<char>, reply: Result<(), VolumeError> },
    OpenFile { dir: D, name: Seq<char>, mode: OpenMode, reply: Result<F, VolumeError> },
    Read { file: F, limit: usize, reply: Result<Seq<u8>, VolumeError> },
    Write { file: F, bytes: Seq<u8>, reply: Result<(), VolumeError> },
    CloseFile { file: F, reply: Result<(), VolumeError> },
}

/// A filesystem layer together with the history of the calls made of it.
pub struct Volume<M: VolumeAccess> {
    layer: M,
    calls: Ghost<Seq<Call<M::Dir, M::File>>>,
}

/// The entries that a walk was handed.
pub open spec fn scan_reply(reply: Result<EntryScan, VolumeError>) -> Result<
    Seq<EntryRecord>,
    VolumeError,
> {
    match reply {
        Ok(scan) => Ok(scan.visited()),
        Err(error) => Err(error),
    }
}

/// The bytes that a read delivered.
pub open spec fn read_reply(reply: Result<Vec<u8>, VolumeError>) -> Result<Seq<u8>, VolumeError> {
    match reply {
        Ok(bytes) => Ok(bytes@),
        Err(error) => Err(error),
    }
}

impl<M: VolumeAccess> Volume<M> {
    /// Every call so far, oldest first.
    pub closed spec fn calls(&self) -> Seq<Call<M::Dir, M::File>> {
        self.calls@
    }

    pub fn new(layer: M) -> (volume: Self)
        ensures
            volume.calls() == Seq::<Call<M::Dir, M::File>>::empty(),
            volume.layer() == layer,
    {
        Volume { layer, calls: Ghost(Seq::empty()) }
    }

    /// The filesystem layer itself.
    pub closed spec fn layer(&self) -> M {
        self.layer
    }

    pub fn into_layer(self) -> (layer: M)
        ensures
            layer == self.layer(),
    {
        self.layer
    }

    pub fn read_sector(&mut self, lba: u32) -> (reply: Option<[u8; 512]>)
        ensures
            final(self).calls() == old(self).calls().push(Call::ReadSector { lba, reply }),
    {
        let reply = self.layer.read_sector(lba);
        self.calls = Ghost(self.calls@.push(Call::ReadSector { lba, reply }));
        reply
    }

    pub fn write_sector(&mut self, lba: u32, contents: &[u8; 512]) -> (reply: bool)
        ensures
            final(self).calls() == old(self).calls().push(
                Call::WriteSector { lba, contents: contents@, reply },
            ),
    {
        let reply = self.layer.write_sector(lba, contents);
        self.calls = Ghost(self.calls@.push(Call::WriteSector { lba, contents: contents@, reply }));
        reply
    }

    pub fn drop_cache(&mut self)
        ensures
            final(self).calls() == old(self).calls().push(Call::DropCache),
    {
        self.layer.drop_cache();
        self.calls = Ghost(self.calls@.push(Call::DropCache));
    }

    pub fn open_volume(&mut self, partition: u8) -> (reply: Result<(), VolumeError>)
        ensures
            final(self).calls() == old(self).calls().push(Call::OpenVolume { partition, reply }),
    {
        let reply = self.layer.open_volume(partition);
        self.calls = Ghost(self.calls@.push(Call::OpenVolume { partition, reply }));
        reply
    }

    pub fn close_volume(&mut self) -> (reply: Result<(), VolumeError>)
        ensures
            final(self).calls() == old(self).calls().push(Call::CloseVolume { reply }),
    {
        let reply = self.layer.close_volume();
        self.calls = Ghost(self.calls@.push(Call::CloseVolume { reply }));
        reply
    }

    pub fn open_root_dir(&mut self) -> (reply: Result<M::Dir, VolumeError>)
        ensures
            final(self).calls() == old(self).calls().push(Call::OpenRoot { reply }),
    {
        let reply = self.layer.open_root_dir();
        self.calls = Ghost(self.calls@.push(Call::OpenRoot { reply }));
        reply
    }

    pub fn open_dir(&mut self, parent: M::Dir, name: &str) -> (reply: Result<M::Dir, VolumeError>)
        ensures
            final(self).calls() == old(self).calls().push(
                Call::OpenDir { parent, name: name@, reply },
            ),
    {
        let reply = self.layer.open_dir(parent, name);
        self.calls = Ghost(self.calls@.push(Call::OpenDir { parent, name: name@, reply }));
        reply
    }

    pub fn close_dir(&mut self, dir: M::Dir)
        ensures
            final(self).calls() == old(self).calls().push(Call::CloseDir { dir }),
    {
        self.layer.close_dir(dir);
        self.calls = Ghost(self.calls@.push(Call::CloseDir { dir }));
    }

    pub fn find_entry(&mut self, dir: M::Dir, name: &str) -> (reply: Result<
        EntryFacts,
        VolumeError,
    >)
        ensures
            final(self).calls() == old(self).calls().push(Call::Find { dir, name: name@, reply }),
    {
        let reply = self.layer.find_entry(dir, name);
        self.calls = Ghost(self.calls@.push(Call::Find { dir, name: name@, reply }));
        reply
    }

    /// Walk over a directory. A walk that comes back under another rule than the
    /// one it was sent out with counts as failed.
    pub fn iterate_dir(&mut self, dir: M::Dir, rule: ScanRule) -> (reply: Result<
        EntryScan,
        VolumeError,
    >)
        ensures
            final(self).calls() == old(self).calls().push(
                Call::Iterate { dir, rule: rule@, reply: scan_reply(reply) },
            ),
            reply matches Ok(scan) ==> scan.rule() == rule@,
    {
        let reply = match self.layer.iterate_dir(dir, EntryScan::new(rule.copy())) {
            Ok(scan) => if scan.rule.is_same(&rule) {
                Ok(scan)
            } else {
                Err(VolumeError::BadHandle)
            },
            Err(error) => Err(error),
        };
        self.calls = Ghost(
            self.calls@.push(Call::Iterate { dir, rule: rule@, reply: scan_reply(reply) }),
        );
        reply
    }

    pub fn make_dir(&mut self, dir: M::Dir, name: &str) -> (reply: Result<(), VolumeError>)
        ensures
            final(self).calls() == old(self).calls().push(
                Call::MakeDir { dir, name: name@, reply },
            ),
    {
        let reply = self.layer.make_dir(dir, name);
        self.calls = Ghost(self.calls@.push(Call::MakeDir { dir, name: name@, reply }));
        reply
    }

    pub fn delete_entry(&mut self, dir: M::Dir, name: &str) -> (reply: Result<(), VolumeError>)
        ensures
            final(self).calls() == old(self).calls().push(Call::Delete { dir, name: name@, reply }),
    {
        let reply = self.layer.delete_entry(dir, name);
        self.calls = Ghost(self.calls@.push(Call::Delete { dir, name: name@, reply }));
        reply
    }

    pub fn open_file(&mut self, dir: M::Dir, name: &str, mode: OpenMode) -> (reply: Result<
        M::File,
        VolumeError,
    >)
        ensures
            final(self).calls() == old(self).calls().push(
                Call::OpenFile { dir, name: name@, mode, reply },
            ),
    {
        let reply = self.layer.open_file(dir, name, mode);
        self.calls = Ghost(self.calls@.push(Call::OpenFile { dir, name: name@, mode, reply }));
        reply
    }

    /// Read from a file. A reply longer than `limit` counts up to `limit`.
    pub fn read(&mut self, file: M::File, limit: usize) -> (reply: Result<Vec<u8>, VolumeError>)
        ensures
            final(self).calls() == old(self).calls().push(
                Call::Read { file, limit, reply: read_reply(reply) },
            ),
            reply matches Ok(bytes) ==> bytes@.len() <= limit,
    {
        let mut reply = self.layer.read(file, limit);
        if let Ok(bytes) = &mut reply {
            bytes.truncate(limit);
        }
        self.calls = Ghost(
            self.calls@.push(Call::Read { file, limit, reply: read_reply(reply) }),
        );
        reply
    }

    pub fn write(&mut self, file: M::File, bytes: &[u8]) -> (reply: Result<(), VolumeError>)
        ensures
            final(self).calls() == old(self).calls().push(
                Call::Write { file, bytes: bytes@, reply },
            ),
    {
        let reply = self.layer.write(file, bytes);
        self.calls = Ghost(self.calls@.push(Call::Write { file, bytes: bytes@, reply }));
        reply
    }

    pub fn close_file(&mut self, file: M::File) -> (reply: Result<(), VolumeError>)
        ensures
            final(self).calls() == old(self).calls().push(Call::CloseFile { file, reply }),
    {
        let reply = self.layer.close_file(file);
        self.calls = Ghost(self.calls@.push(Call::CloseFile { file, reply }));
        reply
    }
}

} // verus!
