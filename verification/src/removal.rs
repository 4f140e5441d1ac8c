//! Removing single entries.
use vstd::prelude::*;

use crate::errors::{op_error, FsOpError, VolumeError};
use crate::files::whole_stretch;
use crate::names::{leaf_name, leaf_of, parent_of, parent_path};
use crate::storage::{cut, extends, no_more, one_more, since};
use crate::volume::{Call, OpenMode, Volume, VolumeAccess};
use crate::walk::{inside, worked_inside};

verus! {

/// How often a delete is attempted.
pub const DELETE_RETRY_ATTEMPTS: usize = 3;

/// Emptying a file before its entry is deleted, which alone would leave its
/// clusters taken. Only on FAT32; `truncated` says that the contents are gone, or
/// may be: a device error can strike after the first sectors were rewritten.
pub open spec fn reclaimed<D, F>(
    t: Seq<Call<D, F>>,
    fat32: bool,
    dir: D,
    name: Seq<char>,
    truncated: bool,
) -> bool {
    if !fat32 {
        t.len() == 0 && !truncated
    } else {
        &&& t.len() >= 1
        &&& t[0] matches Call::OpenFile { dir: d, name: n, mode, reply } && {
            &&& d == dir
            &&& n == name
            &&& mode == OpenMode::ReadWriteTruncate
            &&& match reply {
                Ok(file) => {
                    &&& t.len() == 2
                    &&& t[1] matches Call::CloseFile { file: f, .. } && f == file
                    &&& truncated
                },
                Err(error) => t.len() == 1 && truncated == (error is DeviceError),
            }
        }
    }
}

/// One attempt at a delete. A "not found" is checked by a fresh lookup, and
/// `absent` says that the lookup agreed.
pub open spec fn delete_attempted<D, F>(
    t: Seq<Call<D, F>>,
    dir: D,
    name: Seq<char>,
    reply: Result<(), VolumeError>,
    absent: bool,
) -> bool {
    &&& t.len() >= 1
    &&& t[0] == Call::<D, F>::Delete { dir, name, reply }
    &&& if reply matches Err(VolumeError::NotFound) {
        &&& t.len() == 3
        &&& t[1] == Call::<D, F>::DropCache
        &&& t[2] matches Call::Find { dir: d, name: n, reply: found } && {
            &&& d == dir
            &&& n == name
            &&& absent == (found matches Err(VolumeError::NotFound))
        }
    } else {
        t.len() == 1 && !absent
    }
}

/// Attempts that follow a failed one, `left` at most. Each starts from a dropped
/// cache, so a confirmed absence now means that an earlier attempt succeeded.
/// `last` is the outcome that counts.
pub open spec fn delete_retried<D, F>(
    t: Seq<Call<D, F>>,
    dir: D,
    name: Seq<char>,
    left: int,
    outcome: Result<(), VolumeError>,
    last: Result<(), VolumeError>,
) -> bool
    decreases left,
{
    if left <= 0 || outcome is Ok {
        t.len() == 0 && last == outcome
    } else {
        exists|k: int, reply: Result<(), VolumeError>, absent: bool|
            {
                &&& 1 <= k <= t.len()
                &&& t[0] == Call::<D, F>::DropCache
                &&& #[trigger] delete_attempted(t.subrange(1, k), dir, name, reply, absent)
                &&& delete_retried(
                    t.skip(k),
                    dir,
                    name,
                    left - 1,
                    if absent { Ok(()) } else { reply },
                    last,
                )
            }
    }
}

/// What a delete reports of its last outcome. After the contents are gone every
/// failure is an incomplete delete; "not found" for an entry that may still be
/// listed is never reported.
pub open spec fn delete_report(last: Result<(), VolumeError>, truncated: bool) -> Result<
    (),
    FsOpError,
> {
    match last {
        Ok(_) => Ok(()),
        Err(error) => Err(
            if truncated {
                FsOpError::DeleteIncomplete(Box::new(op_error(error)))
            } else if error is NotFound {
                FsOpError::VerifyFailed
            } else {
                op_error(error)
            },
        ),
    }
}

/// Deleting `name` in `dir`. A confirmed absence at the first attempt is the
/// answer "not found", unless the contents were just removed.
pub open spec fn entry_deleted<D, F>(
    t: Seq<Call<D, F>>,
    dir: D,
    name: Seq<char>,
    truncated: bool,
    result: Result<(), FsOpError>,
) -> bool {
    exists|k: int, reply: Result<(), VolumeError>, absent: bool|
        {
            &&& 0 <= k <= t.len()
            &&& #[trigger] delete_attempted(t.take(k), dir, name, reply, absent)
            &&& if absent {
                &&& k == t.len()
                &&& result == Err::<(), FsOpError>(
                    if truncated {
                        FsOpError::DeleteIncomplete(Box::new(FsOpError::Fs(VolumeError::NotFound)))
                    } else {
                        FsOpError::Fs(VolumeError::NotFound)
                    },
                )
            } else {
                delete_concluded(t.skip(k), dir, name, reply, truncated, result)
            }
        }
}

/// The retries of a delete and its report; a failure drops the cache, which may
/// hold an echo of what never reached the card.
pub open spec fn delete_concluded<D, F>(
    t: Seq<Call<D, F>>,
    dir: D,
    name: Seq<char>,
    outcome: Result<(), VolumeError>,
    truncated: bool,
    result: Result<(), FsOpError>,
) -> bool {
    ||| exists|last: Result<(), VolumeError>| #[trigger]
        delete_retried(t, dir, name, DELETE_RETRY_ATTEMPTS - 1, outcome, last) && last is Ok
            && result is Ok
    ||| {
        &&& t.len() >= 1
        &&& t.last() == Call::<D, F>::DropCache
        &&& exists|last: Result<(), VolumeError>| #[trigger]
            delete_retried(
                t.drop_last(),
                dir,
                name,
                DELETE_RETRY_ATTEMPTS - 1,
                outcome,
                last,
            ) && last is Err && result == delete_report(last, truncated)
    }
}

/// Removing the file `name` in `dir`: it is emptied, then its entry deleted.
pub open spec fn file_removed<D, F>(fat32: bool, name: Seq<char>) -> spec_fn(
    Seq<Call<D, F>>,
    D,
    Result<(), FsOpError>,
) -> bool {
    |t: Seq<Call<D, F>>, dir: D, result: Result<(), FsOpError>|
        exists|k: int, truncated: bool|
            {
                &&& 0 <= k <= t.len()
                &&& #[trigger] reclaimed(t.take(k), fat32, dir, name, truncated)
                &&& entry_deleted(t.skip(k), dir, name, truncated, result)
            }
}

/// Removing the entry at `path`.
pub open spec fn path_removed<D, F>(
    t: Seq<Call<D, F>>,
    fat32: bool,
    path: Seq<char>,
    result: Result<(), FsOpError>,
) -> bool {
    inside(t, parent_of(path), file_removed(fat32, leaf_of(path)), result)
}

impl<M: VolumeAccess> Volume<M> {
    /// Empty the file `name` in `dir` before its entry is deleted; says whether its
    /// contents are gone.
    pub fn reclaim_file_clusters_in_dir(&mut self, fat32: bool, dir: M::Dir, name: &str) -> (truncated:
        bool)
        ensures
            extends(old(self).calls(), final(self).calls()),
            reclaimed(
                since(old(self).calls(), final(self).calls()),
                fat32,
                dir,
                name@,
                truncated,
            ),
    {
        let ghost start = self.calls();
        proof {
            no_more(start);
        }
        if !fat32 {
            return false;
        }
        let reply = self.open_file(dir, name, OpenMode::ReadWriteTruncate);
        let ghost open = Call::<M::Dir, M::File>::OpenFile {
            dir,
            name: name@,
            mode: OpenMode::ReadWriteTruncate,
            reply,
        };
        proof {
            one_more(start, start, open);
            assert(since(start, self.calls()) =~= seq![open]);
        }
        match reply {
            Ok(file) => {
                let ghost before = self.calls();
                let closed = self.close_file(file);
                proof {
                    let close = Call::<M::Dir, M::File>::CloseFile { file, reply: closed };
                    one_more(start, before, close);
                    assert(since(start, self.calls()) =~= seq![open, close]);
                }
                true
            },
            Err(VolumeError::DeviceError(_)) => true,
            Err(_) => false,
        }
    }

    fn attempt_delete(&mut self, dir: M::Dir, name: &str) -> (outcome: (
        Result<(), VolumeError>,
        bool,
    ))
        ensures
            extends(old(self).calls(), final(self).calls()),
            delete_attempted(
                since(old(self).calls(), final(self).calls()),
                dir,
                name@,
                outcome.0,
                outcome.1,
            ),
    {
        let ghost start = self.calls();
        proof {
            no_more(start);
        }
        let reply = self.delete_entry(dir, name);
        let ghost delete = Call::<M::Dir, M::File>::Delete { dir, name: name@, reply };
        proof {
            one_more(start, start, delete);
            assert(since(start, self.calls()) =~= seq![delete]);
        }
        if !matches!(&reply, Err(VolumeError::NotFound)) {
            return (reply, false);
        }
        self.drop_cache();
        let found = self.find_entry(dir, name);
        assert(since(start, self.calls()) =~= seq![
            delete,
            Call::DropCache,
            Call::Find { dir, name: name@, reply: found },
        ]);
        let absent = matches!(&found, Err(VolumeError::NotFound));
        (reply, absent)
    }

    fn retry_delete(
        &mut self,
        dir: M::Dir,
        name: &str,
        left: usize,
        outcome: Result<(), VolumeError>,
    ) -> (last: Result<(), VolumeError>)
        ensures
            extends(old(self).calls(), final(self).calls()),
            delete_retried(
                since(old(self).calls(), final(self).calls()),
                dir,
                name@,
                left as int,
                outcome,
                last,
            ),
        decreases left,
    {
        let ghost start = self.calls();
        proof {
            no_more(start);
        }
        if left == 0 || outcome.is_ok() {
            return outcome;
        }
        self.drop_cache();
        let ghost dropped = self.calls();
        proof {
            one_more(start, start, Call::DropCache);
            assert(since(start, dropped) =~= seq![Call::DropCache]);
        }
        let (reply, absent) = self.attempt_delete(dir, name);
        let ghost answer = reply;
        let ghost tried = self.calls();
        let ghost k = since(start, tried).len() as int;
        let last = self.retry_delete(dir, name, left - 1, if absent { Ok(()) } else { reply });
        proof {
            cut(start, dropped, tried);
            cut(start, tried, self.calls());
            let t = since(start, self.calls());
            assert(since(start, tried).skip(1) == since(dropped, tried));
            assert(t.subrange(1, k) =~= since(start, tried).skip(1));
            assert(t[0] == t.take(k)[0]);
            assert(since(start, tried)[0] == since(start, tried).take(1)[0]);
            assert(delete_attempted(t.subrange(1, k), dir, name@, answer, absent));
        }
        last
    }

    /// Delete `name` in `dir`, with retries that see through the cache.
    pub fn delete_entry_checked(&mut self, dir: M::Dir, name: &str, truncated: bool) -> (result: Result<
        (),
        FsOpError,
    >)
        ensures
            extends(old(self).calls(), final(self).calls()),
            entry_deleted(
                since(old(self).calls(), final(self).calls()),
                dir,
                name@,
                truncated,
                result,
            ),
    {
        let ghost start = self.calls();
        let (reply, absent) = self.attempt_delete(dir, name);
        let ghost answer = reply;
        let ghost tried = self.calls();
        let ghost k = since(start, tried).len() as int;
        proof {
            whole_stretch(since(start, tried));
            assert(delete_attempted(since(start, tried).take(k), dir, name@, answer, absent));
        }
        if absent {
            let error = FsOpError::Fs(VolumeError::NotFound);
            return Err(
                if truncated {
                    FsOpError::DeleteIncomplete(Box::new(error))
                } else {
                    error
                },
            );
        }
        let last = self.retry_delete(dir, name, DELETE_RETRY_ATTEMPTS - 1, reply);
        let ghost verdict = last;
        let ghost retried = self.calls();
        proof {
            cut(start, tried, retried);
        }
        match last {
            Ok(()) => {
                let result: Result<(), FsOpError> = Ok(());
                proof {
                    let t = since(start, self.calls());
                    assert(delete_retried(
                        t.skip(k),
                        dir,
                        name@,
                        DELETE_RETRY_ATTEMPTS - 1,
                        answer,
                        verdict,
                    ));
                    assert(delete_concluded(t.skip(k), dir, name@, answer, truncated, result));
                    assert(delete_attempted(t.take(k), dir, name@, answer, absent));
                }
                result
            },
            Err(error) => {
                self.drop_cache();
                let report = if truncated {
                    FsOpError::DeleteIncomplete(Box::new(FsOpError::from(error)))
                } else if matches!(error, VolumeError::NotFound) {
                    FsOpError::VerifyFailed
                } else {
                    FsOpError::from(error)
                };
                proof {
                    one_more(tried, retried, Call::DropCache);
                    cut(start, tried, self.calls());
                    let t = since(start, self.calls());
                    let u = since(tried, self.calls());
                    assert(u.drop_last() =~= since(tried, retried));
                    assert(delete_retried(
                        u.drop_last(),
                        dir,
                        name@,
                        DELETE_RETRY_ATTEMPTS - 1,
                        answer,
                        verdict,
                    ));
                    assert(Err::<(), FsOpError>(report) == delete_report(verdict, truncated));
                    assert(delete_concluded(u, dir, name@, answer, truncated, Err(report)));
                    assert(delete_attempted(t.take(k), dir, name@, answer, absent));
                }
                Err(report)
            },
        }
    }

    /// Remove the file `name` in `dir`. `Ok` or an incomplete delete means that
    /// its contents are gone; every other error came before anything was.
    pub fn delete_file_in_dir(&mut self, fat32: bool, dir: M::Dir, name: &str) -> (result: Result<
        (),
        FsOpError,
    >)
        ensures
            extends(old(self).calls(), final(self).calls()),
            file_removed(fat32, name@)(
                since(old(self).calls(), final(self).calls()),
                dir,
                result,
            ),
    {
        let ghost start = self.calls();
        let truncated = self.reclaim_file_clusters_in_dir(fat32, dir, name);
        let ghost emptied = self.calls();
        let result = self.delete_entry_checked(dir, name, truncated);
        proof {
            cut(start, emptied, self.calls());
            let t = since(start, self.calls());
            let k = since(start, emptied).len() as int;
            assert(reclaimed(t.take(k), fat32, dir, name@, truncated));
        }
        result
    }

    /// Remove the file at `path`.
    pub fn delete_file_at(&mut self, fat32: bool, path: &str) -> (result: Result<(), FsOpError>)
        ensures
            extends(old(self).calls(), final(self).calls()),
            path_removed(since(old(self).calls(), final(self).calls()), fat32, path@, result),
    {
        let ghost start = self.calls();
        let parent = parent_path(path);
        let dir = match self.open_dir_path(parent.as_str()) {
            Ok(dir) => dir,
            Err(error) => return Err(error),
        };
        let ghost opened = self.calls();
        let result = self.delete_file_in_dir(fat32, dir, leaf_name(path));
        let ghost worked = self.calls();
        self.close_dir(dir);
        proof {
            worked_inside(
                start,
                opened,
                worked,
                parent_of(path@),
                dir,
                file_removed(fat32, leaf_of(path@)),
                result,
            );
        }
        result
    }
}

} // verus!
