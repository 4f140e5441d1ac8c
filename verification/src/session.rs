//! A mounted volume and the history of the steps taken on it.
//!
//! Operations on the card are described by the steps they take: looking up an
//! entry, saving a file, removing one. Each step stands for a stretch of calls of
//! the filesystem layer, and [`Session::wf`] ties the two histories together.
use vstd::prelude::*;

use crate::boot::MediaLayout;
use crate::creation::{
    bare_folder_made, empty_file_made, folder_made, path_scanned, scan_view,
};
use crate::errors::{FsOpError, VolumeError};
use crate::files::{
    bytes_view, file_copied, file_read, file_saved, whole_stretch,
};
use crate::names::{leaf_of, parent_of};
use crate::removal::{file_removed, path_removed};
use crate::space::{repaired, space_measured};
use crate::storage::{cut, extends, no_more, one_more, since};
use crate::volume::{
    Call, EntryFacts, EntryRecord, EntryScan, OpenMode, ScanRule, ScanRuleView, Volume,
    VolumeAccess,
};
use crate::walk::{dir_opened, entry_found, inside};

verus! {

/// A child of a folder, as the walks over folder trees see it.
pub struct ChildEntry {
    pub name: String,
    pub is_dir: bool,
    pub read_only: bool,
}

/// One step of an operation: what was to be done and how it ended.
#[allow(inconsistent_fields)]
pub enum Step {
    /// The volume was repaired and opened.
    Mount,
    Find { path: Seq<char>, reply: Result<EntryFacts, FsOpError> },
    Scan { path: Seq<char>, rule: ScanRuleView, reply: Result<Seq<EntryRecord>, FsOpError> },
    Read { path: Seq<char>, reply: Result<Seq<u8>, FsOpError> },
    Save { path: Seq<char>, contents: Seq<u8>, reply: Result<(), FsOpError> },
    Copy { from: Seq<char>, to: Seq<char>, mode: OpenMode, reply: Result<(), FsOpError> },
    Delete { path: Seq<char>, reply: Result<(), FsOpError> },
    /// The files among `children` of the folder at `path` were removed; `destroyed`
    /// says that at least one of them is gone or has lost its contents.
    DeleteFiles {
        path: Seq<char>,
        children: Seq<ChildEntry>,
        destroyed: bool,
        reply: Result<(), FsOpError>,
    },
    CreateFile { path: Seq<char>, reply: Result<(), FsOpError> },
    CreateFolder { path: Seq<char>, reply: Result<(), FsOpError> },
    MakeFolder { path: Seq<char>, reply: Result<(), FsOpError> },
    /// One read of the boot sector, to see whether the card still answers.
    Probe { answers: bool },
    Measure { reply: Option<u64> },
    OpenVolume { reply: Result<(), VolumeError> },
    CloseVolume { reply: Result<(), VolumeError> },
}

/// A delete that began to destroy: it succeeded, or was left incomplete.
pub open spec fn destroys(result: Result<(), FsOpError>) -> bool {
    match result {
        Ok(_) => true,
        Err(error) => error is DeleteIncomplete,
    }
}

/// Removing the files among `children[i..]` through one handle. A read-only file
/// ends it before that file is touched.
pub open spec fn batch_removed<D, F>(
    t: Seq<Call<D, F>>,
    fat32: bool,
    dir: D,
    children: Seq<ChildEntry>,
    i: int,
    so_far: bool,
    destroyed: bool,
    result: Result<(), FsOpError>,
) -> bool
    decreases children.len() - i,
{
    if i >= children.len() {
        t.len() == 0 && destroyed == so_far && result is Ok
    } else if children[i].is_dir {
        batch_removed(t, fat32, dir, children, i + 1, so_far, destroyed, result)
    } else if children[i].read_only {
        t.len() == 0 && destroyed == so_far && result == Err::<(), FsOpError>(
            FsOpError::Fs(VolumeError::ReadOnly),
        )
    } else {
        exists|k: int, outcome: Result<(), FsOpError>|
            {
                &&& 0 <= k <= t.len()
                &&& #[trigger] one_file_removed(t.take(k), fat32, children[i].name@, dir, outcome)
                &&& if outcome is Err {
                    k == t.len() && destroyed == (so_far || destroys(outcome)) && result == outcome
                } else {
                    batch_removed(t.skip(k), fat32, dir, children, i + 1, true, destroyed, result)
                }
            }
    }
}

/// Removing one file of an open directory.
pub open spec fn one_file_removed<D, F>(
    t: Seq<Call<D, F>>,
    fat32: bool,
    name: Seq<char>,
    dir: D,
    outcome: Result<(), FsOpError>,
) -> bool {
    file_removed(fat32, name)(t, dir, outcome)
}

/// Removing the files among `children` of the folder at `path`.
pub open spec fn files_removed<D, F>(
    t: Seq<Call<D, F>>,
    fat32: bool,
    path: Seq<char>,
    children: Seq<ChildEntry>,
    destroyed: bool,
    result: Result<(), FsOpError>,
) -> bool {
    ||| exists|error: FsOpError| #[trigger]
        dir_opened(t, path, Err::<D, FsOpError>(error)) && result == Err::<(), FsOpError>(error)
            && !destroyed
    ||| exists|k: int, dir: D|
        {
            &&& 0 <= k < t.len()
            &&& #[trigger] dir_opened(t.take(k), path, Ok::<D, FsOpError>(dir))
            &&& t.last() == Call::<D, F>::CloseDir { dir }
            &&& batch_removed(
                t.subrange(k, t.len() - 1),
                fat32,
                dir,
                children,
                0,
                false,
                destroyed,
                result,
            )
        }
}

/// Repairing and opening a volume.
pub open spec fn volume_mounted<D, F>(
    t: Seq<Call<D, F>>,
    layout: MediaLayout,
    result: Result<(), VolumeError>,
) -> bool {
    &&& t.len() >= 1
    &&& repaired(t.drop_last(), layout)
    &&& t.last() == Call::<D, F>::OpenVolume { partition: layout.partition_index, reply: result }
}

impl<M: VolumeAccess> Volume<M> {
    /// Repair and open the volume with this layout.
    pub fn mount(&mut self, layout: &MediaLayout) -> (result: Result<(), VolumeError>)
        requires
            layout.start_lba + layout.sector_count <= u32::MAX,
        ensures
            extends(old(self).calls(), final(self).calls()),
            volume_mounted(since(old(self).calls(), final(self).calls()), *layout, result),
    {
        let ghost start = self.calls();
        self.repair_phantom_fat_tail(layout);
        let ghost repaired_calls = self.calls();
        let reply = self.open_volume(layout.partition_index);
        proof {
            let open = Call::<M::Dir, M::File>::OpenVolume {
                partition: layout.partition_index,
                reply,
            };
            one_more(start, repaired_calls, open);
            assert(since(start, self.calls()).drop_last() =~= since(start, repaired_calls));
        }
        reply
    }
}

/// Repairing and opening a volume with success.
pub open spec fn mount_succeeded<D, F>(t: Seq<Call<D, F>>, layout: MediaLayout) -> bool {
    exists|result: Result<(), VolumeError>| #[trigger]
        volume_mounted(t, layout, result) && result is Ok
}

/// A mount that was refused: why, and the volume with the calls that were made.
pub struct RefusedMount<M: VolumeAccess> {
    pub error: VolumeError,
    pub volume: Volume<M>,
}

impl<M: VolumeAccess> RefusedMount<M> {
    /// The volume with this layout was repaired, and opening it was answered with the
    /// error.
    pub open spec fn comes_from(&self, layout: MediaLayout) -> bool {
        volume_mounted(self.volume.calls(), layout, Err(self.error))
    }
}

/// The calls `t` are those of `step` on a volume with this layout.
pub open spec fn step_made<D, F>(t: Seq<Call<D, F>>, layout: MediaLayout, step: Step) -> bool {
    match step {
        Step::Mount => mount_succeeded(t, layout),
        Step::Find { path, reply } => entry_found(t, path, reply),
        Step::Scan { path, rule, reply } => path_scanned(t, path, rule, reply),
        Step::Read { path, reply } => file_read(t, path, reply),
        Step::Save { path, contents, reply } => file_saved(t, path, contents, reply),
        Step::Copy { from, to, mode, reply } => file_copied(t, from, to, mode, reply),
        Step::Delete { path, reply } => path_removed(t, layout.fat32, path, reply),
        Step::DeleteFiles { path, children, destroyed, reply } => files_removed(
            t,
            layout.fat32,
            path,
            children,
            destroyed,
            reply,
        ),
        Step::CreateFile { path, reply } => inside(
            t,
            parent_of(path),
            empty_file_made(leaf_of(path)),
            reply,
        ),
        Step::CreateFolder { path, reply } => inside(
            t,
            parent_of(path),
            folder_made(leaf_of(path)),
            reply,
        ),
        Step::MakeFolder { path, reply } => inside(
            t,
            parent_of(path),
            bare_folder_made(leaf_of(path)),
            reply,
        ),
        Step::Probe { answers } => {
            &&& t.len() == 1
            &&& t[0] matches Call::ReadSector { lba, reply } && lba == layout.start_lba && answers
                == (reply is Some)
        },
        Step::Measure { reply } => space_measured(t, layout.start_lba, reply),
        Step::OpenVolume { reply } => t == seq![
            Call::<D, F>::OpenVolume { partition: layout.partition_index, reply },
        ],
        Step::CloseVolume { reply } => t == seq![Call::<D, F>::CloseVolume { reply }],
    }
}

/// The calls are those of the steps, one after the other.
#[verifier::opaque]
pub open spec fn explained<D, F>(
    calls: Seq<Call<D, F>>,
    layout: MediaLayout,
    steps: Seq<Step>,
) -> bool
    decreases steps.len(),
{
    if steps.len() == 0 {
        calls.len() == 0
    } else {
        exists|k: int|
            0 <= k <= calls.len() && explained(
                #[trigger] calls.take(k),
                layout,
                steps.drop_last(),
            ) && step_made(calls.skip(k), layout, steps.last())
    }
}

proof fn explained_grows<D, F>(
    before: Seq<Call<D, F>>,
    after: Seq<Call<D, F>>,
    layout: MediaLayout,
    steps: Seq<Step>,
    step: Step,
)
    requires
        explained(before, layout, steps),
        extends(before, after),
        step_made(since(before, after), layout, step),
    ensures
        explained(after, layout, steps.push(step)),
{
    reveal(explained);
    let k = before.len() as int;
    assert(after.take(k) =~= before);
    assert(steps.push(step).drop_last() =~= steps);
    assert(steps.push(step).last() == step);
    assert(explained(after.take(k), layout, steps.push(step).drop_last()) && step_made(
        after.skip(k),
        layout,
        steps.push(step).last(),
    ));
}

/// The calls of one step.
proof fn one_step_explained<D, F>(t: Seq<Call<D, F>>, layout: MediaLayout, step: Step)
    requires
        step_made(t, layout, step),
    ensures
        explained(t, layout, seq![step]),
{
    reveal(explained);
    let none = t.take(0);
    assert(none.len() == 0);
    assert(t.skip(0) =~= t);
    assert(seq![step].drop_last() =~= Seq::<Step>::empty());
    assert(explained(none, layout, seq![step].drop_last()));
}

/// What explains two stretches of calls explains both together.
proof fn explained_joins<D, F>(
    calls: Seq<Call<D, F>>,
    k: int,
    layout: MediaLayout,
    steps: Seq<Step>,
    n: int,
)
    requires
        0 <= k <= calls.len(),
        0 <= n <= steps.len(),
        explained(calls.take(k), layout, steps.take(n)),
        explained(calls.skip(k), layout, steps.skip(n)),
    ensures
        explained(calls, layout, steps),
    decreases steps.len() - n,
{
    reveal(explained);
    if n == steps.len() {
        assert(calls.take(k) =~= calls);
        assert(steps.take(n) =~= steps);
    } else {
        let rest = calls.skip(k);
        let later = steps.skip(n);
        let m = choose|m: int|
            0 <= m <= rest.len() && explained(
                #[trigger] rest.take(m),
                layout,
                later.drop_last(),
            ) && step_made(rest.skip(m), layout, later.last());
        let front = calls.take(k + m);
        let earlier = steps.drop_last();
        assert(front.take(k) =~= calls.take(k));
        assert(front.skip(k) =~= rest.take(m));
        assert(earlier.take(n) =~= steps.take(n));
        assert(earlier.skip(n) =~= later.drop_last());
        explained_joins(front, k, layout, earlier, n);
        assert(calls.skip(k + m) =~= rest.skip(m));
        assert(steps.last() == later.last());
        assert(explained(calls.take(k + m), layout, steps.drop_last()));
    }
}

/// What follows a volume that follows another follows that one too.
pub broadcast proof fn follow_on<M: VolumeAccess>(
    first: Session<M>,
    middle: Session<M>,
    last: Session<M>,
)
    requires
        #[trigger] middle.follows(&first),
        #[trigger] last.follows(&middle),
    ensures
        last.follows(&first),
{
    reveal(Session::accounts_since);
    cut(first.calls(), middle.calls(), last.calls());
    cut(first.steps(), middle.steps(), last.steps());
    let k = since(first.calls(), middle.calls()).len() as int;
    let n = since(first.steps(), middle.steps()).len() as int;
    explained_joins(
        since(first.calls(), last.calls()),
        k,
        last.layout(),
        since(first.steps(), last.steps()),
        n,
    );
}

/// A volume follows itself.
pub broadcast proof fn stays<M: VolumeAccess>(session: Session<M>)
    requires
        session.wf(),
    ensures
        #[trigger] session.follows(&session),
{
    reveal(Session::accounts_since);
    reveal(explained);
    no_more(session.calls());
    no_more(session.steps());
}

/// A mounted volume with its history.
pub struct Session<M: VolumeAccess> {
    volume: Volume<M>,
    layout: MediaLayout,
    steps: Ghost<Seq<Step>>,
}

impl<M: VolumeAccess> Session<M> {
    /// Every step so far, oldest first.
    pub closed spec fn steps(&self) -> Seq<Step> {
        self.steps@
    }

    pub closed spec fn calls(&self) -> Seq<Call<M::Dir, M::File>> {
        self.volume.calls()
    }

    pub closed spec fn layout(&self) -> MediaLayout {
        self.layout
    }

    /// The steps are what was asked of the filesystem layer, no more and no less.
    pub open spec fn wf(&self) -> bool {
        explained(self.calls(), self.layout(), self.steps())
    }

    /// The calls made since `earlier` are those of the steps taken since.
    #[verifier::opaque]
    pub open spec fn accounts_since(&self, earlier: &Session<M>) -> bool {
        explained(
            since(earlier.calls(), self.calls()),
            self.layout(),
            since(earlier.steps(), self.steps()),
        )
    }

    /// The same volume, some steps later.
    pub open spec fn follows(&self, earlier: &Session<M>) -> bool {
        &&& self.wf()
        &&& self.layout() == earlier.layout()
        &&& extends(earlier.steps(), self.steps())
        &&& extends(earlier.calls(), self.calls())
        &&& self.accounts_since(earlier)
    }

    /// The same volume, exactly one step later.
    pub open spec fn took(&self, earlier: &Session<M>, step: Step) -> bool {
        &&& self.follows(earlier)
        &&& self.steps() == earlier.steps().push(step)
        &&& since(earlier.steps(), self.steps()) == seq![step]
    }

    proof fn record(&self, earlier: &Session<M>, step: Step)
        requires
            earlier.wf(),
            self.layout() == earlier.layout(),
            self.steps() == earlier.steps().push(step),
            extends(earlier.calls(), self.calls()),
            step_made(since(earlier.calls(), self.calls()), earlier.layout(), step),
        ensures
            self.took(earlier, step),
    {
        explained_grows(earlier.calls(), self.calls(), self.layout(), earlier.steps(), step);
        no_more(earlier.steps());
        one_more(earlier.steps(), earlier.steps(), step);
        assert(since(earlier.steps(), self.steps()) =~= seq![step]);
        one_step_explained(since(earlier.calls(), self.calls()), self.layout(), step);
        reveal(Session::accounts_since);
    }

    /// Everything that was asked of a volume on which nothing was done but to mount it.
    pub proof fn mounting_calls(&self)
        requires
            self.wf(),
            self.steps() == seq![Step::Mount],
        ensures
            mount_succeeded(self.calls(), self.layout()),
    {
        reveal(explained);
        let k = choose|k: int|
            0 <= k <= self.calls().len() && explained(
                #[trigger] self.calls().take(k),
                self.layout(),
                self.steps().drop_last(),
            ) && step_made(self.calls().skip(k), self.layout(), self.steps().last());
        assert(self.calls().take(k).len() == 0);
        assert(self.calls().skip(k) =~= self.calls());
    }

    /// Repair and open the volume with this layout.
    pub fn mount(layer: M, layout: MediaLayout) -> (result: Result<Session<M>, RefusedMount<M>>)
        requires
            layout.start_lba + layout.sector_count <= u32::MAX,
        ensures
            match result {
                Ok(session) => {
                    &&& session.wf()
                    &&& session.layout() == layout
                    &&& session.steps() == seq![Step::Mount]
                },
                Err(refused) => refused.comes_from(layout),
            },
    {
        let mut volume = Volume::new(layer);
        let ghost start = volume.calls();
        let mounted = volume.mount(&layout);
        match mounted {
            Ok(()) => {
                let ghost steps = seq![Step::Mount];
                let ghost calls = volume.calls();
                let session = Session { volume, layout, steps: Ghost(steps) };
                proof {
                    assert(volume_mounted(since(start, calls), layout, mounted));
                    reveal(explained);
                    assert(explained(start, layout, Seq::<Step>::empty()));
                    explained_grows(start, calls, layout, Seq::empty(), Step::Mount);
                    assert(Seq::<Step>::empty().push(Step::Mount) =~= seq![Step::Mount]);
                }
                Ok(session)
            },
            Err(error) => {
                assert(since(start, volume.calls()) =~= volume.calls());
                Err(RefusedMount { error, volume })
            },
        }
    }

    /// The filesystem layer itself.
    pub closed spec fn layer(&self) -> M {
        self.volume.layer()
    }

    /// Unmount.
    pub fn into_layer(self) -> (layer: M)
        ensures
            layer == self.layer(),
    {
        self.volume.into_layer()
    }

    pub fn media_layout(&self) -> (layout: MediaLayout)
        ensures
            layout == self.layout(),
    {
        self.layout
    }

    pub fn find_entry(&mut self, path: &str) -> (reply: Result<EntryFacts, FsOpError>)
        requires
            old(self).wf(),
        ensures
            final(self).took(old(self), Step::Find { path: path@, reply }),
    {
        let ghost before = *self;
        let reply = self.volume.find_path(path);
        let ghost step = Step::Find { path: path@, reply };
        self.steps = Ghost(self.steps@.push(step));
        proof {
            self.record(&before, step);
        }
        reply
    }

    /// Walk over the folder at `path`.
    pub fn scan(&mut self, path: &str, rule: ScanRule) -> (reply: Result<EntryScan, FsOpError>)
        requires
            old(self).wf(),
        ensures
            final(self).took(
                old(self),
                Step::Scan { path: path@, rule: rule@, reply: scan_view(reply) },
            ),
            reply matches Ok(scan) ==> scan.rule() == rule@,
    {
        let ghost before = *self;
        let ghost asked = rule@;
        let reply = self.volume.scan_path(path, rule);
        let ghost step = Step::Scan { path: path@, rule: asked, reply: scan_view(reply) };
        self.steps = Ghost(self.steps@.push(step));
        proof {
            self.record(&before, step);
        }
        reply
    }

    pub fn read_file(&mut self, path: &str) -> (reply: Result<Vec<u8>, FsOpError>)
        requires
            old(self).wf(),
        ensures
            final(self).took(old(self), Step::Read { path: path@, reply: bytes_view(reply) }),
    {
        let ghost before = *self;
        let reply = self.volume.read_file(path);
        let ghost step = Step::Read { path: path@, reply: bytes_view(reply) };
        self.steps = Ghost(self.steps@.push(step));
        proof {
            self.record(&before, step);
        }
        reply
    }

    /// Replace a file's contents and verify every byte by reading it back.
    pub fn save_verified(&mut self, path: &str, contents: &[u8]) -> (reply: Result<(), FsOpError>)
        requires
            old(self).wf(),
        ensures
            final(self).took(old(self), Step::Save { path: path@, contents: contents@, reply }),
    {
        let ghost before = *self;
        let reply = self.volume.save_file(path, contents);
        let ghost step = Step::Save { path: path@, contents: contents@, reply };
        self.steps = Ghost(self.steps@.push(step));
        proof {
            self.record(&before, step);
        }
        reply
    }

    /// Copy a file and prove the copy by comparing the two.
    pub fn copy_file_contents(&mut self, from: &str, to: &str, mode: OpenMode) -> (reply: Result<
        (),
        FsOpError,
    >)
        requires
            old(self).wf(),
        ensures
            final(self).took(old(self), Step::Copy { from: from@, to: to@, mode, reply }),
    {
        let ghost before = *self;
        let reply = self.volume.copy_file_contents(from, to, mode);
        let ghost step = Step::Copy { from: from@, to: to@, mode, reply };
        self.steps = Ghost(self.steps@.push(step));
        proof {
            self.record(&before, step);
        }
        reply
    }

    /// Remove a file, or a folder that is empty.
    pub fn delete_file_at(&mut self, path: &str) -> (reply: Result<(), FsOpError>)
        requires
            old(self).wf(),
        ensures
            final(self).took(old(self), Step::Delete { path: path@, reply }),
    {
        let ghost before = *self;
        let reply = self.volume.delete_file_at(self.layout.fat32, path);
        let ghost step = Step::Delete { path: path@, reply };
        self.steps = Ghost(self.steps@.push(step));
        proof {
            self.record(&before, step);
        }
        reply
    }

    /// Create an empty file where there must be nothing yet.
    pub fn create_file(&mut self, path: &str) -> (reply: Result<(), FsOpError>)
        requires
            old(self).wf(),
        ensures
            final(self).took(old(self), Step::CreateFile { path: path@, reply }),
    {
        let ghost before = *self;
        let reply = self.volume.create_file(path);
        let ghost step = Step::CreateFile { path: path@, reply };
        self.steps = Ghost(self.steps@.push(step));
        proof {
            self.record(&before, step);
        }
        reply
    }

    /// Create a folder where there must be nothing yet.
    pub fn create_folder(&mut self, path: &str) -> (reply: Result<(), FsOpError>)
        requires
            old(self).wf(),
        ensures
            final(self).took(old(self), Step::CreateFolder { path: path@, reply }),
    {
        let ghost before = *self;
        let reply = self.volume.create_folder(path);
        let ghost step = Step::CreateFolder { path: path@, reply };
        self.steps = Ghost(self.steps@.push(step));
        proof {
            self.record(&before, step);
        }
        reply
    }

    /// Make a folder without looking first.
    pub fn make_folder(&mut self, path: &str) -> (reply: Result<(), FsOpError>)
        requires
            old(self).wf(),
        ensures
            final(self).took(old(self), Step::MakeFolder { path: path@, reply }),
    {
        let ghost before = *self;
        let reply = self.volume.make_folder(path);
        let ghost step = Step::MakeFolder { path: path@, reply };
        self.steps = Ghost(self.steps@.push(step));
        proof {
            self.record(&before, step);
        }
        reply
    }

    /// One read of the boot sector: whether the card still answers.
    pub fn device_is_responding(&mut self) -> (answers: bool)
        requires
            old(self).wf(),
        ensures
            final(self).took(old(self), Step::Probe { answers }),
    {
        let ghost before = *self;
        let reply = self.volume.read_sector(self.layout.start_lba);
        let answers = reply.is_some();
        let ghost step = Step::Probe { answers };
        self.steps = Ghost(self.steps@.push(step));
        proof {
            let event = Call::<M::Dir, M::File>::ReadSector { lba: self.layout.start_lba, reply };
            no_more(before.calls());
            one_more(before.calls(), before.calls(), event);
            assert(since(before.calls(), self.calls()) =~= seq![event]);
            self.record(&before, step);
        }
        answers
    }

    pub fn measure_free_space(&mut self) -> (reply: Option<u64>)
        requires
            old(self).wf(),
        ensures
            final(self).took(old(self), Step::Measure { reply }),
    {
        let ghost before = *self;
        let reply = self.volume.measure_free_space(self.layout.start_lba);
        let ghost step = Step::Measure { reply };
        self.steps = Ghost(self.steps@.push(step));
        proof {
            self.record(&before, step);
        }
        reply
    }

    pub fn close_volume(&mut self) -> (reply: Result<(), VolumeError>)
        requires
            old(self).wf(),
        ensures
            final(self).took(old(self), Step::CloseVolume { reply }),
    {
        let ghost before = *self;
        let reply = self.volume.close_volume();
        let ghost step = Step::CloseVolume { reply };
        self.steps = Ghost(self.steps@.push(step));
        proof {
            let event = Call::<M::Dir, M::File>::CloseVolume { reply };
            no_more(before.calls());
            one_more(before.calls(), before.calls(), event);
            assert(since(before.calls(), self.calls()) =~= seq![event]);
            self.record(&before, step);
        }
        reply
    }

    /// Open the mounted volume again.
    pub fn reopen_volume(&mut self) -> (reply: Result<(), VolumeError>)
        requires
            old(self).wf(),
        ensures
            final(self).took(old(self), Step::OpenVolume { reply }),
    {
        let ghost before = *self;
        let reply = self.volume.open_volume(self.layout.partition_index);
        let ghost step = Step::OpenVolume { reply };
        self.steps = Ghost(self.steps@.push(step));
        proof {
            let event = Call::<M::Dir, M::File>::OpenVolume {
                partition: self.layout.partition_index,
                reply,
            };
            no_more(before.calls());
            one_more(before.calls(), before.calls(), event);
            assert(since(before.calls(), self.calls()) =~= seq![event]);
            self.record(&before, step);
        }
        reply
    }

    fn delete_batch(&mut self, dir: M::Dir, children: &Vec<ChildEntry>) -> (outcome: (
        Result<(), FsOpError>,
        bool,
    ))
        ensures
            final(self).layout == old(self).layout,
            final(self).steps == old(self).steps,
            extends(old(self).volume.calls(), final(self).volume.calls()),
            batch_removed(
                since(old(self).volume.calls(), final(self).volume.calls()),
                old(self).layout.fat32,
                dir,
                children@,
                0,
                false,
                outcome.1,
                outcome.0,
            ),
    {
        let ghost start = self.volume.calls();
        let ghost all = children@;
        let fat32 = self.layout.fat32;
        let mut destroyed = false;
        let mut i: usize = 0;
        proof {
            no_more(start);
            assert forall|rest: Seq<Call<M::Dir, M::File>>, d: bool, r: Result<(), FsOpError>|
                batch_removed(rest, fat32, dir, all, 0, false, d, r) implies #[trigger] batch_removed(
                since(start, self.volume.calls()) + rest,
                fat32,
                dir,
                all,
                0,
                false,
                d,
                r,
            ) by {
                assert(since(start, self.volume.calls()) + rest =~= rest);
            }
        }
        while i < children.len()
            invariant
                start == old(self).volume.calls(),
                all == children@,
                i <= all.len(),
                fat32 == old(self).layout.fat32,
                self.layout == old(self).layout,
                self.steps == old(self).steps,
                extends(start, self.volume.calls()),
                forall|rest: Seq<Call<M::Dir, M::File>>, d: bool, r: Result<(), FsOpError>|
                    batch_removed(rest, fat32, dir, all, i as int, destroyed, d, r)
                        ==> #[trigger] batch_removed(
                        since(start, self.volume.calls()) + rest,
                        fat32,
                        dir,
                        all,
                        0,
                        false,
                        d,
                        r,
                    ),
            decreases children@.len() - i,
        {
            if children[i].is_dir {
                i = i + 1;
                continue;
            }
            if children[i].read_only {
                let error = FsOpError::Fs(VolumeError::ReadOnly);
                proof {
                    let none = Seq::<Call<M::Dir, M::File>>::empty();
                    assert(batch_removed(
                        none,
                        fat32,
                        dir,
                        all,
                        i as int,
                        destroyed,
                        destroyed,
                        Err(error),
                    ));
                    assert(since(start, self.volume.calls()) + none =~= since(
                        start,
                        self.volume.calls(),
                    ));
                }
                return (Err(error), destroyed);
            }
            let ghost before = self.volume.calls();
            let ghost so_far = destroyed;
            let ghost at = i as int;
            let outcome = self.volume.delete_file_in_dir(fat32, dir, children[i].name.as_str());
            let ghost ended = outcome;
            let ghost t = since(before, self.volume.calls());
            let ghost k = t.len() as int;
            proof {
                cut(start, before, self.volume.calls());
                whole_stretch(t);
                assert(since(start, self.volume.calls()) =~= since(start, before) + t);
                assert(one_file_removed(t.take(k), fat32, all[at].name@, dir, ended));
            }
            match outcome {
                Err(error) => {
                    if matches!(error, FsOpError::DeleteIncomplete(_)) {
                        destroyed = true;
                    }
                    assert(batch_removed(t, fat32, dir, all, at, so_far, destroyed, Err(error)));
                    return (Err(error), destroyed);
                },
                Ok(()) => {},
            }
            destroyed = true;
            i = i + 1;
            proof {
                assert forall|rest: Seq<Call<M::Dir, M::File>>, d: bool, r: Result<(), FsOpError>|
                    batch_removed(rest, fat32, dir, all, i as int, destroyed, d, r)
                    implies #[trigger] batch_removed(
                    since(start, self.volume.calls()) + rest,
                    fat32,
                    dir,
                    all,
                    0,
                    false,
                    d,
                    r,
                ) by {
                    let more = t + rest;
                    assert(more.take(k) =~= t.take(k));
                    assert(more.skip(k) =~= rest);
                    assert(one_file_removed(more.take(k), fat32, all[at].name@, dir, ended));
                    assert(batch_removed(more, fat32, dir, all, at, so_far, d, r));
                    assert(since(start, before) + more =~= since(start, self.volume.calls())
                        + rest);
                }
            }
        }
        let result: Result<(), FsOpError> = Ok(());
        proof {
            let none = Seq::<Call<M::Dir, M::File>>::empty();
            assert(batch_removed(none, fat32, dir, all, i as int, destroyed, destroyed, result));
            assert(since(start, self.volume.calls()) + none =~= since(start, self.volume.calls()));
        }
        (result, destroyed)
    }

    /// Remove the files among `children` of the folder at `path`, through one
    /// handle. The second value says whether anything was destroyed.
    pub fn delete_files(&mut self, path: &str, children: &Vec<ChildEntry>) -> (outcome: (
        Result<(), FsOpError>,
        bool,
    ))
        requires
            old(self).wf(),
        ensures
            final(self).took(
                old(self),
                Step::DeleteFiles {
                    path: path@,
                    children: children@,
                    destroyed: outcome.1,
                    reply: outcome.0,
                },
            ),
    {
        let ghost before = *self;
        let ghost start = self.volume.calls();
        let opened = self.volume.open_dir_path(path);
        let ghost handle = opened;
        let ghost after_open = self.volume.calls();
        let (reply, destroyed) = match opened {
            Err(error) => {
                assert(dir_opened(since(start, after_open), path@, handle));
                (Err(error), false)
            },
            Ok(dir) => {
                let outcome = self.delete_batch(dir, children);
                let ghost worked = self.volume.calls();
                self.volume.close_dir(dir);
                proof {
                    crate::files::closed_after(start, after_open, worked, Call::CloseDir { dir });
                    let t = since(start, self.volume.calls());
                    let k = since(start, after_open).len() as int;
                    assert(dir_opened(t.take(k), path@, Ok::<M::Dir, FsOpError>(dir)));
                }
                outcome
            },
        };
        let ghost step = Step::DeleteFiles {
            path: path@,
            children: children@,
            destroyed,
            reply,
        };
        self.steps = Ghost(self.steps@.push(step));
        proof {
            self.record(&before, step);
        }
        (reply, destroyed)
    }
}

} // verus!
