//! What saving and deleting a file show, call by call.
use vstd::prelude::*;

use crate::boot::MediaLayout;
use crate::card_laws::reported_saves_are_verified;
use crate::errors::{FsOpError, VolumeError};
use crate::files::{
    chunk_compared, contents_checked, contents_compared, file_saved, file_verified, file_written,
    window_filled, COPY_CHUNK_BYTES, READ_CHUNK_BYTES,
};
use crate::removal::{
    delete_attempted, delete_concluded, delete_retried, entry_deleted, DELETE_RETRY_ATTEMPTS,
};
use crate::saving::{document_saved, SaveOutcome};
use crate::session::{explained, step_made, Session, Step};
use crate::storage::since;
use crate::volume::{Call, OpenMode, VolumeAccess};
use crate::walk::file_opened;

verus! {

/// The bytes that one call delivers from `file`.
pub open spec fn delivered_by<D, F>(call: Call<D, F>, file: F) -> Seq<u8> {
    match call {
        Call::Read { file: f, reply: Ok(bytes), .. } => if f == file {
            bytes
        } else {
            Seq::empty()
        },
        _ => Seq::empty(),
    }
}

/// All bytes that the calls deliver from `file`.
pub open spec fn delivered<D, F>(t: Seq<Call<D, F>>, file: F) -> Seq<u8>
    decreases t.len(),
{
    if t.len() == 0 {
        Seq::empty()
    } else {
        delivered_by(t[0], file) + delivered(t.skip(1), file)
    }
}

proof fn delivered_joins<D, F>(t: Seq<Call<D, F>>, k: int, file: F)
    requires
        0 <= k <= t.len(),
    ensures
        delivered(t, file) == delivered(t.take(k), file) + delivered(t.skip(k), file),
    decreases k,
{
    if k == 0 {
        assert(t.skip(0) =~= t);
        assert(delivered(t.take(0), file) =~= Seq::empty());
        assert(delivered(t, file) =~= delivered(t.take(0), file) + delivered(t.skip(0), file));
    } else {
        delivered_joins(t.skip(1), k - 1, file);
        assert(t.take(k).skip(1) =~= t.skip(1).take(k - 1));
        assert(t.skip(k) =~= t.skip(1).skip(k - 1));
        assert(delivered(t, file) =~= delivered(t.take(k), file) + delivered(t.skip(k), file));
    }
}

/// A window holds what was there and what was delivered since; nothing comes from
/// another file.
proof fn windows_hold_what_is_delivered<D, F>(
    t: Seq<Call<D, F>>,
    file: F,
    other: F,
    size: int,
    got: Seq<u8>,
    bytes: Seq<u8>,
)
    requires
        window_filled(t, file, size, got, Ok::<Seq<u8>, FsOpError>(bytes)),
    ensures
        bytes == got + delivered(t, file),
        file != other ==> delivered(t, other) == Seq::<u8>::empty(),
    decreases t.len(),
{
    if got.len() < size {
        let chunk = t[0]->Read_reply->Ok_0;
        if chunk.len() == 0 {
            assert(delivered(t.skip(1), file) =~= Seq::<u8>::empty());
            assert(delivered(t.skip(1), other) =~= Seq::<u8>::empty());
        } else {
            windows_hold_what_is_delivered(t.skip(1), file, other, size, got + chunk, bytes);
        }
    }
    assert(bytes =~= got + delivered(t, file));
    if file != other {
        assert(delivered(t, other) =~= Seq::<u8>::empty());
    }
}

/// A file that passes the comparison has delivered exactly the bytes expected of it.
pub proof fn passed_comparisons_saw_every_byte<D, F>(
    t: Seq<Call<D, F>>,
    file: F,
    expected: Seq<u8>,
    done: int,
    result: Result<(), FsOpError>,
)
    requires
        0 <= done <= expected.len(),
        contents_checked(t, file, expected, done, result),
        result is Ok,
    ensures
        delivered(t, file) == expected.skip(done),
    decreases t.len(),
{
    let (k, chunk) = choose|k: int, chunk: Result<Seq<u8>, FsOpError>|
        {
            &&& 1 <= k <= t.len()
            &&& #[trigger] window_filled(
                t.take(k),
                file,
                READ_CHUNK_BYTES as int,
                Seq::empty(),
                chunk,
            )
            &&& match chunk {
                Err(error) => k == t.len() && result == Err::<(), FsOpError>(error),
                Ok(bytes) => {
                    let end = done + bytes.len();
                    if bytes.len() == 0 {
                        &&& k == t.len()
                        &&& if done == expected.len() {
                            result is Ok
                        } else {
                            result == Err::<(), FsOpError>(FsOpError::VerifyFailed)
                        }
                    } else if end > expected.len() || bytes != expected.subrange(done, end) {
                        k == t.len() && result == Err::<(), FsOpError>(FsOpError::VerifyFailed)
                    } else {
                        contents_checked(t.skip(k), file, expected, end, result)
                    }
                },
            }
        };
    let bytes = chunk->Ok_0;
    windows_hold_what_is_delivered(
        t.take(k),
        file,
        file,
        READ_CHUNK_BYTES as int,
        Seq::empty(),
        bytes,
    );
    assert(bytes =~= delivered(t.take(k), file));
    delivered_joins(t, k, file);
    if bytes.len() == 0 {
        assert(t.skip(k).len() == 0);
        assert(delivered(t, file) =~= expected.skip(done));
    } else {
        passed_comparisons_saw_every_byte(t.skip(k), file, expected, done + bytes.len(), result);
        assert(delivered(t, file) =~= expected.skip(done));
    }
}

/// Two files that pass the comparison have delivered the same bytes.
pub proof fn compared_files_agree<D, F>(
    t: Seq<Call<D, F>>,
    left: F,
    right: F,
    chunks_left: int,
    result: Result<(), FsOpError>,
)
    requires
        left != right,
        contents_compared(t, left, right, chunks_left, result),
        result is Ok,
    ensures
        delivered(t, left) == delivered(t, right),
    decreases t.len(),
{
    let (k, chunk) = choose|k: int, chunk: Result<Seq<u8>, FsOpError>|
        {
            &&& 1 <= k <= t.len()
            &&& #[trigger] window_filled(
                t.take(k),
                left,
                COPY_CHUNK_BYTES as int,
                Seq::empty(),
                chunk,
            )
            &&& match chunk {
                Err(error) => k == t.len() && result == Err::<(), FsOpError>(error),
                Ok(bytes) => chunk_compared(t.skip(k), left, right, bytes, chunks_left, result),
            }
        };
    let bytes = chunk->Ok_0;
    windows_hold_what_is_delivered(
        t.take(k),
        left,
        right,
        COPY_CHUNK_BYTES as int,
        Seq::empty(),
        bytes,
    );
    delivered_joins(t, k, left);
    delivered_joins(t, k, right);
    let u = t.skip(k);
    let (m, others) = choose|m: int, others: Result<Seq<u8>, FsOpError>|
        {
            &&& 1 <= m <= u.len()
            &&& #[trigger] window_filled(
                u.take(m),
                right,
                COPY_CHUNK_BYTES as int,
                Seq::empty(),
                others,
            )
            &&& match others {
                Err(error) => m == u.len() && result == Err::<(), FsOpError>(error),
                Ok(more) => if more != bytes {
                    m == u.len() && result == Err::<(), FsOpError>(FsOpError::VerifyFailed)
                } else if bytes.len() == 0 {
                    m == u.len() && result is Ok
                } else {
                    contents_compared(u.skip(m), left, right, chunks_left - 1, result)
                },
            }
        };
    windows_hold_what_is_delivered(
        u.take(m),
        right,
        left,
        COPY_CHUNK_BYTES as int,
        Seq::empty(),
        others->Ok_0,
    );
    delivered_joins(u, m, left);
    delivered_joins(u, m, right);
    if bytes.len() == 0 {
        assert(u.skip(m).len() == 0);
    } else {
        compared_files_agree(u.skip(m), left, right, chunks_left - 1, result);
    }
    assert(delivered(t, left) =~= delivered(t, right));
}

/// A file opened for reading in `t` delivered `contents`.
pub open spec fn reads_back<D, F>(t: Seq<Call<D, F>>, path: Seq<char>, contents: Seq<u8>) -> bool {
    exists|k: int, n: int, file: F|
        {
            &&& 0 <= k <= n <= t.len()
            &&& #[trigger] opens(t, k, n, path, file)
            &&& delivered(t.subrange(n, t.len() - 1), file) == contents
        }
}

/// The calls from `k` to `n` open the file at `path` for reading.
pub open spec fn opens<D, F>(
    t: Seq<Call<D, F>>,
    k: int,
    n: int,
    path: Seq<char>,
    file: F,
) -> bool {
    file_opened(t.subrange(k, n), path, OpenMode::ReadOnly, Ok::<F, FsOpError>(file))
}

/// A file that was saved was opened again and has delivered every byte that was written.
pub proof fn saved_files_read_back<D, F>(
    t: Seq<Call<D, F>>,
    path: Seq<char>,
    contents: Seq<u8>,
    result: Result<(), FsOpError>,
)
    requires
        file_saved(t, path, contents, result),
        result is Ok,
    ensures
        reads_back(t, path, contents),
{
    let (k, written) = choose|k: int, written: Result<(), FsOpError>|
        {
            &&& 0 <= k <= t.len()
            &&& #[trigger] file_written(t.take(k), path, contents, written)
            &&& if written is Err {
                k == t.len() && result == written
            } else {
                file_verified(t.skip(k), path, contents, result)
            }
        };
    let u = t.skip(k);
    let (m, opened) = choose|m: int, opened: Result<F, FsOpError>|
        {
            &&& 0 <= m <= u.len()
            &&& #[trigger] file_opened(u.take(m), path, OpenMode::ReadOnly, opened)
            &&& match opened {
                Err(error) => m == u.len() && result == Err::<(), FsOpError>(error),
                Ok(file) => {
                    &&& m < u.len()
                    &&& contents_checked(u.subrange(m, u.len() - 1), file, contents, 0, result)
                    &&& u.last() matches Call::CloseFile { file: f, .. } && f == file
                },
            }
        };
    let file = opened->Ok_0;
    let n = k + m;
    assert(t.subrange(k, n) =~= u.take(m));
    assert(opens(t, k, n, path, file));
    assert(t.subrange(n, t.len() - 1) =~= u.subrange(m, u.len() - 1));
    passed_comparisons_saw_every_byte(t.subrange(n, t.len() - 1), file, contents, 0, result);
    assert(contents.skip(0) =~= contents);
}

/// Each step has its own stretch of calls.
pub proof fn steps_have_their_calls<D, F>(
    calls: Seq<Call<D, F>>,
    layout: MediaLayout,
    steps: Seq<Step>,
    i: int,
) -> (ends: (int, int))
    requires
        explained(calls, layout, steps),
        0 <= i < steps.len(),
    ensures
        0 <= ends.0 <= ends.1 <= calls.len(),
        step_made(calls.subrange(ends.0, ends.1), layout, steps[i]),
    decreases steps.len(),
{
    reveal(explained);
    let k = choose|k: int|
        0 <= k <= calls.len() && explained(#[trigger] calls.take(k), layout, steps.drop_last())
            && step_made(calls.skip(k), layout, steps.last());
    if i == steps.len() - 1 {
        assert(calls.subrange(k, calls.len() as int) =~= calls.skip(k));
        (k, calls.len() as int)
    } else {
        let ends = steps_have_their_calls(calls.take(k), layout, steps.drop_last(), i);
        assert(calls.take(k).subrange(ends.0, ends.1) =~= calls.subrange(ends.0, ends.1));
        ends
    }
}

/// Among the calls of a save that reports success is a stretch that opened the target
/// again and was delivered every byte of the document.
pub proof fn reported_saves_read_back<M: VolumeAccess>(
    before: Session<M>,
    after: Session<M>,
    path: Seq<char>,
    contents: Seq<u8>,
)
    requires
        after.follows(&before),
        document_saved(since(before.steps(), after.steps()), path, contents, SaveOutcome::Saved),
    ensures
        exists|a: int, b: int|
            0 <= a <= b <= since(before.calls(), after.calls()).len() && reads_back(
                #[trigger] since(before.calls(), after.calls()).subrange(a, b),
                path,
                contents,
            ),
{
    let steps = since(before.steps(), after.steps());
    let calls = since(before.calls(), after.calls());
    reported_saves_are_verified(steps, path, contents);
    let i = choose|i: int|
        0 <= i < steps.len() && (#[trigger] steps[i] matches Step::Save { path: p, contents: c, reply }
            && p == path && c == contents && reply is Ok);
    reveal(Session::accounts_since);
    let (a, b) = steps_have_their_calls(calls, after.layout(), steps, i);
    saved_files_read_back(calls.subrange(a, b), path, contents, steps[i]->Save_reply);
}

/// How the first attempt at a delete went.
pub(crate) proof fn first_delete<D, F>(
    t: Seq<Call<D, F>>,
    dir: D,
    name: Seq<char>,
    truncated: bool,
    result: Result<(), FsOpError>,
) -> (first: (int, Result<(), VolumeError>, bool))
    requires
        entry_deleted(t, dir, name, truncated, result),
    ensures
        0 <= first.0 <= t.len(),
        delete_attempted(t.take(first.0), dir, name, first.1, first.2),
        if first.2 {
            &&& first.0 == t.len()
            &&& result == Err::<(), FsOpError>(
                if truncated {
                    FsOpError::DeleteIncomplete(Box::new(FsOpError::Fs(VolumeError::NotFound)))
                } else {
                    FsOpError::Fs(VolumeError::NotFound)
                },
            )
        } else {
            delete_concluded(t.skip(first.0), dir, name, first.1, truncated, result)
        },
{
    choose|k: int, reply: Result<(), VolumeError>, absent: bool|
        {
            &&& 0 <= k <= t.len()
            &&& #[trigger] delete_attempted(t.take(k), dir, name, reply, absent)
            &&& if absent {
                &&& k == t.len()
                &&& result == Err::<(), FsOpError>(
                    if truncated {
                        FsOpError::DeleteIncomplete(Box::new(FsOpError::Fs(VolumeError::NotFound)))
                    } else {
                        FsOpError::Fs(VolumeError::NotFound)
                    },
                )
            } else {
                delete_concluded(t.skip(k), dir, name, reply, truncated, result)
            }
        }
}

/// A delete says "not found" only of an entry whose absence a second, fresh lookup has
/// confirmed, and never of one whose contents it has removed itself.
pub proof fn missing_entries_are_confirmed<D, F>(
    t: Seq<Call<D, F>>,
    dir: D,
    name: Seq<char>,
    truncated: bool,
    result: Result<(), FsOpError>,
)
    requires
        entry_deleted(t, dir, name, truncated, result),
        result matches Err(error) && error.says_not_found(),
    ensures
        !truncated,
        t == seq![
            Call::<D, F>::Delete { dir, name, reply: Err(VolumeError::NotFound) },
            Call::DropCache,
            Call::Find { dir, name, reply: Err(VolumeError::NotFound) },
        ],
{
    let (k, reply, absent) = first_delete(t, dir, name, truncated, result);
    assert(t.take(k) =~= t || !absent);
    assert(t =~= seq![
        Call::<D, F>::Delete { dir, name, reply: Err(VolumeError::NotFound) },
        Call::DropCache,
        Call::Find { dir, name, reply: Err(VolumeError::NotFound) },
    ]);
}

/// A delete that fails after the contents are gone is reported as incomplete, never as a
/// refusal.
pub proof fn emptied_files_are_reported<D, F>(
    t: Seq<Call<D, F>>,
    dir: D,
    name: Seq<char>,
    result: Result<(), FsOpError>,
)
    requires
        entry_deleted(t, dir, name, true, result),
    ensures
        result matches Err(error) ==> error is DeleteIncomplete,
{
    let (k, reply, absent) = first_delete(t, dir, name, true, result);
}

/// The filesystem layer says that the entry is gone: it has deleted it, or finds it no
/// more.
pub open spec fn shows_absence<D, F>(call: Call<D, F>, dir: D, name: Seq<char>) -> bool {
    match call {
        Call::Delete { dir: d, name: n, reply } => d == dir && n == name && reply is Ok,
        Call::Find { dir: d, name: n, reply } => d == dir && n == name && reply matches Err(
            VolumeError::NotFound,
        ),
        _ => false,
    }
}

proof fn retried_deletes_show_absence<D, F>(
    t: Seq<Call<D, F>>,
    dir: D,
    name: Seq<char>,
    left: int,
    outcome: Result<(), VolumeError>,
    last: Result<(), VolumeError>,
)
    requires
        delete_retried(t, dir, name, left, outcome, last),
        last is Ok,
        outcome is Err,
    ensures
        exists|i: int| 0 <= i < t.len() && shows_absence(#[trigger] t[i], dir, name),
    decreases left,
{
    let (k, reply, absent): (int, Result<(), VolumeError>, bool) = choose|
        k: int,
        reply: Result<(), VolumeError>,
        absent: bool,
    |
        {
            &&& 1 <= k <= t.len()
            &&& t[0] == Call::<D, F>::DropCache
            &&& #[trigger] delete_attempted(t.subrange(1, k), dir, name, reply, absent)
            &&& delete_retried(
                t.skip(k),
                dir,
                name,
                left - 1,
                if absent {
                    Ok(())
                } else {
                    reply
                },
                last,
            )
        };
    let u = t.subrange(1, k);
    if absent {
        assert(u[2] == t[3]);
        assert(shows_absence(t[3], dir, name));
    } else if reply is Ok {
        assert(u[0] == t[1]);
        assert(shows_absence(t[1], dir, name));
    } else {
        retried_deletes_show_absence(t.skip(k), dir, name, left - 1, reply, last);
        let i = choose|i: int|
            0 <= i < t.skip(k).len() && shows_absence(#[trigger] t.skip(k)[i], dir, name);
        assert(t[k + i] == t.skip(k)[i]);
    }
}

/// A delete that reports success was told by the filesystem layer that the entry is gone.
pub proof fn finished_deletes_are_confirmed<D, F>(
    t: Seq<Call<D, F>>,
    dir: D,
    name: Seq<char>,
    truncated: bool,
    result: Result<(), FsOpError>,
)
    requires
        entry_deleted(t, dir, name, truncated, result),
        result is Ok,
    ensures
        exists|i: int| 0 <= i < t.len() && shows_absence(#[trigger] t[i], dir, name),
{
    let (k, reply, absent) = first_delete(t, dir, name, truncated, result);
    let u = t.skip(k);
    if reply is Ok {
        assert(t.take(k)[0] == t[0]);
        assert(shows_absence(t[0], dir, name));
    } else {
        let last = choose|last: Result<(), VolumeError>| #[trigger]
            delete_retried(u, dir, name, DELETE_RETRY_ATTEMPTS - 1, reply, last) && last is Ok
                && result is Ok;
        retried_deletes_show_absence(u, dir, name, DELETE_RETRY_ATTEMPTS - 1, reply, last);
        let i = choose|i: int| 0 <= i < u.len() && shows_absence(#[trigger] u[i], dir, name);
        assert(t[k + i] == u[i]);
    }
}

} // verus!
