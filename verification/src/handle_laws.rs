//! Every operation closes the directories and files that it opens.
use vstd::prelude::*;

use crate::boot::{boot_sector_of, MediaLayout, VolumeGeometry};
use crate::creation::{
    bare_folder_made, dir_iterated, empty_file_made, folder_made, made_folder_verdict, path_scanned,
};
use crate::errors::{op_error, FsOpError, VolumeError};
use crate::file_laws::first_delete;
use crate::files::{
    chunk_compared, compared_with, contents_checked, contents_compared, copied_from, copied_to,
    file_copied, file_read, file_saved, file_verified, file_written, files_compared, first_failure,
    read_to_end, streamed, window_filled, COPY_CHUNK_BYTES, MAX_CHUNKS, READ_CHUNK_BYTES,
};
use crate::names::{components_of, leaf_of, parent_of};
use crate::removal::{
    delete_attempted, delete_concluded, delete_report, delete_retried, entry_deleted, file_removed,
    path_removed, reclaimed, DELETE_RETRY_ATTEMPTS,
};
use crate::session::{
    batch_removed, destroys, explained, files_removed, one_file_removed, step_made, volume_mounted,
    ChildEntry, Session, Step,
};
use crate::space::{
    entries_in, fat16_counted, free_bytes, free_clusters_found, free_entries, repaired,
    space_measured, tails_repaired,
};
use crate::volume::{Call, EntryFacts, EntryRecord, OpenMode, ScanRuleView, VolumeAccess};
use crate::walk::{
    ask_find, ask_open_dir, ask_open_file, confirmed, descended, dir_opened, entry_found,
    file_opened, inside, name_found, name_opened, op_result,
};

verus! {

/// An open directory or file.
pub enum Handle<D, F> {
    Dir(D),
    File(F),
}

/// One for the same handle.
pub open spec fn is_handle<D, F>(a: Handle<D, F>, h: Handle<D, F>) -> int {
    if a == h {
        1
    } else {
        0
    }
}

/// What a reply that may hand out a directory does to `h`.
pub open spec fn dir_gained<D, F, E>(reply: Result<D, E>, h: Handle<D, F>) -> int {
    match reply {
        Ok(dir) => is_handle(Handle::Dir(dir), h),
        Err(_) => 0,
    }
}

/// What a reply that may hand out a file does to `h`.
pub open spec fn file_gained<D, F, E>(reply: Result<F, E>, h: Handle<D, F>) -> int {
    match reply {
        Ok(file) => is_handle(Handle::File(file), h),
        Err(_) => 0,
    }
}

/// How often a call opens `h`, less how often it closes it.
pub open spec fn change<D, F>(call: Call<D, F>, h: Handle<D, F>) -> int {
    match call {
        Call::OpenRoot { reply } => dir_gained(reply, h),
        Call::OpenDir { reply, .. } => dir_gained(reply, h),
        Call::CloseDir { dir } => -is_handle(Handle::Dir(dir), h),
        Call::OpenFile { reply, .. } => file_gained(reply, h),
        Call::CloseFile { file, .. } => -is_handle(Handle::File(file), h),
        _ => 0,
    }
}

/// How often the calls open `h`, less how often they close it.
pub open spec fn balance<D, F>(t: Seq<Call<D, F>>, h: Handle<D, F>) -> int
    decreases t.len(),
{
    if t.len() == 0 {
        0
    } else {
        change(t[0], h) + balance(t.skip(1), h)
    }
}

proof fn balance_joins<D, F>(t: Seq<Call<D, F>>, k: int, h: Handle<D, F>)
    requires
        0 <= k <= t.len(),
    ensures
        balance(t, h) == balance(t.take(k), h) + balance(t.skip(k), h),
    decreases k,
{
    if k == 0 {
        assert(t.skip(0) =~= t);
    } else {
        balance_joins(t.skip(1), k - 1, h);
        assert(t.take(k).skip(1) =~= t.skip(1).take(k - 1));
        assert(t.skip(k) =~= t.skip(1).skip(k - 1));
    }
}

/// A stretch, what comes before it and the call behind it.
proof fn balance_of_three<D, F>(t: Seq<Call<D, F>>, k: int, h: Handle<D, F>)
    requires
        0 <= k < t.len(),
    ensures
        balance(t, h) == balance(t.take(k), h) + balance(t.subrange(k, t.len() - 1), h) + change(
            t.last(),
            h,
        ),
{
    let u = t.skip(k);
    balance_joins(t, k, h);
    balance_joins(u, u.len() - 1, h);
    assert(u.take(u.len() - 1) =~= t.subrange(k, t.len() - 1));
    let end = u.skip(u.len() - 1);
    assert(end[0] == t.last());
    assert(balance(end.skip(1), h) == 0);
}

proof fn balance_of_one<D, F>(t: Seq<Call<D, F>>, h: Handle<D, F>)
    requires
        t.len() == 1,
    ensures
        balance(t, h) == change(t[0], h),
{
    assert(balance(t.skip(1), h) == 0);
}

proof fn balance_of_two<D, F>(t: Seq<Call<D, F>>, h: Handle<D, F>)
    requires
        t.len() == 2,
    ensures
        balance(t, h) == change(t[0], h) + change(t[1], h),
{
    balance_of_one(t.skip(1), h);
    assert(t.skip(1)[0] == t[1]);
}

proof fn confirmed_balance<D, F, T>(
    t: Seq<Call<D, F>>,
    ask: spec_fn(Result<T, VolumeError>) -> Call<D, F>,
    outcome: Result<T, VolumeError>,
    h: Handle<D, F>,
)
    requires
        confirmed(t, ask, outcome),
        change(ask(Err(VolumeError::NotFound)), h) == 0,
    ensures
        balance(t, h) == change(ask(outcome), h),
{
    if t.len() == 1 {
        balance_of_one(t, h);
    } else {
        balance_of_two(t.skip(1), h);
        assert(t.skip(1)[0] == t[1]);
        assert(t.skip(1)[1] == t[2]);
    }
}

proof fn descent_balance<D, F>(
    t: Seq<Call<D, F>>,
    dir: D,
    names: Seq<Seq<char>>,
    opened: Result<D, FsOpError>,
    h: Handle<D, F>,
)
    requires
        descended(t, dir, names, opened),
    ensures
        balance(t, h) == dir_gained(opened, h) - is_handle(Handle::Dir(dir), h),
    decreases names.len(),
{
    if names.len() > 0 {
        let (k, outcome): (int, Result<D, VolumeError>) = choose|
            k: int,
            outcome: Result<D, VolumeError>,
        |
            {
                &&& 0 <= k < t.len()
                &&& #[trigger] confirmed(t.take(k), ask_open_dir(dir, names[0]), outcome)
                &&& t[k] == Call::<D, F>::CloseDir { dir }
                &&& match outcome {
                    Err(error) => t.len() == k + 1 && opened == Err::<D, FsOpError>(
                        op_error(error),
                    ),
                    Ok(next) => descended(t.skip(k + 1), next, names.skip(1), opened),
                }
            };
        confirmed_balance(t.take(k), ask_open_dir(dir, names[0]), outcome, h);
        balance_joins(t, k, h);
        let u = t.skip(k);
        assert(u[0] == t[k]);
        assert(u.skip(1) =~= t.skip(k + 1));
        match outcome {
            Err(_) => {
                assert(balance(u.skip(1), h) == 0);
            },
            Ok(next) => descent_balance(t.skip(k + 1), next, names.skip(1), opened, h),
        }
    }
}

proof fn opening_balance<D, F>(
    t: Seq<Call<D, F>>,
    path: Seq<char>,
    opened: Result<D, FsOpError>,
    h: Handle<D, F>,
)
    requires
        dir_opened(t, path, opened),
    ensures
        balance(t, h) == dir_gained(opened, h),
{
    match t[0]->OpenRoot_reply {
        Err(_) => balance_of_one(t, h),
        Ok(root) => descent_balance(t.skip(1), root, components_of(path), opened, h),
    }
}

/// Working inside a directory leaves open what the work itself leaves open.
proof fn inside_balance<D, F, R>(
    t: Seq<Call<D, F>>,
    path: Seq<char>,
    body: spec_fn(Seq<Call<D, F>>, D, Result<R, FsOpError>) -> bool,
    result: Result<R, FsOpError>,
    left_open: spec_fn(Result<R, FsOpError>) -> int,
    h: Handle<D, F>,
)
    requires
        inside(t, path, body, result),
        forall|error: FsOpError| #[trigger] left_open(Err::<R, FsOpError>(error)) == 0,
        forall|u: Seq<Call<D, F>>, dir: D|
            #[trigger] body(u, dir, result) ==> balance(u, h) == left_open(result),
    ensures
        balance(t, h) == left_open(result),
{
    if exists|error: FsOpError| #[trigger]
        dir_opened(t, path, Err::<D, FsOpError>(error)) && result == Err::<R, FsOpError>(error) {
        let error = choose|error: FsOpError| #[trigger]
            dir_opened(t, path, Err::<D, FsOpError>(error)) && result == Err::<R, FsOpError>(error);
        opening_balance(t, path, Err::<D, FsOpError>(error), h);
        assert(left_open(Err::<R, FsOpError>(error)) == 0);
    } else {
        let (k, dir): (int, D) = choose|k: int, dir: D|
            {
                &&& 0 <= k < t.len()
                &&& #[trigger] dir_opened(t.take(k), path, Ok::<D, FsOpError>(dir))
                &&& t.last() == Call::<D, F>::CloseDir { dir }
                &&& body(t.subrange(k, t.len() - 1), dir, result)
            };
        opening_balance(t.take(k), path, Ok::<D, FsOpError>(dir), h);
        balance_of_three(t, k, h);
    }
}

/// A file that was opened is the only thing left open.
proof fn file_opening_balance<D, F>(
    t: Seq<Call<D, F>>,
    path: Seq<char>,
    mode: OpenMode,
    opened: Result<F, FsOpError>,
    h: Handle<D, F>,
)
    requires
        file_opened(t, path, mode, opened),
    ensures
        balance(t, h) == file_gained(opened, h),
{
    let leaf = leaf_of(path);
    let body = name_opened::<D, F>(leaf, mode);
    assert forall|u: Seq<Call<D, F>>, dir: D| #[trigger] body(u, dir, opened) implies balance(u, h)
        == file_gained(opened, h) by {
        let outcome = choose|outcome: Result<F, VolumeError>| #[trigger]
            confirmed(u, ask_open_file(dir, leaf, mode), outcome) && opened == op_result(outcome);
        confirmed_balance(u, ask_open_file(dir, leaf, mode), outcome, h);
    }
    inside_balance(
        t,
        parent_of(path),
        body,
        opened,
        |r: Result<F, FsOpError>| file_gained(r, h),
        h,
    );
}

/// Calls that open and close nothing.
proof fn idle_calls<D, F>(t: Seq<Call<D, F>>, h: Handle<D, F>)
    requires
        forall|i: int| 0 <= i < t.len() ==> change(#[trigger] t[i], h) == 0,
    ensures
        balance(t, h) == 0,
    decreases t.len(),
{
    if t.len() > 0 {
        assert forall|i: int| 0 <= i < t.skip(1).len() implies change(#[trigger] t.skip(1)[i], h)
            == 0 by {
            assert(t.skip(1)[i] == t[i + 1]);
        }
        idle_calls(t.skip(1), h);
    }
}

proof fn reading_balance<D, F>(
    t: Seq<Call<D, F>>,
    file: F,
    got: Seq<u8>,
    result: Result<Seq<u8>, FsOpError>,
    h: Handle<D, F>,
)
    requires
        read_to_end(t, file, got, result),
    ensures
        balance(t, h) == 0,
    decreases t.len(),
{
    match t[0]->Read_reply {
        Err(_) => balance_of_one(t, h),
        Ok(bytes) => if bytes.len() == 0 {
            balance_of_one(t, h);
        } else {
            reading_balance(t.skip(1), file, got + bytes, result, h);
        },
    }
}

proof fn window_balance<D, F>(
    t: Seq<Call<D, F>>,
    file: F,
    size: int,
    got: Seq<u8>,
    result: Result<Seq<u8>, FsOpError>,
    h: Handle<D, F>,
)
    requires
        window_filled(t, file, size, got, result),
    ensures
        balance(t, h) == 0,
    decreases t.len(),
{
    if got.len() < size {
        match t[0]->Read_reply {
            Err(_) => balance_of_one(t, h),
            Ok(bytes) => if bytes.len() == 0 {
                balance_of_one(t, h);
            } else {
                window_balance(t.skip(1), file, size, got + bytes, result, h);
            },
        }
    }
}

proof fn check_balance<D, F>(
    t: Seq<Call<D, F>>,
    file: F,
    expected: Seq<u8>,
    done: int,
    result: Result<(), FsOpError>,
    h: Handle<D, F>,
)
    requires
        contents_checked(t, file, expected, done, result),
    ensures
        balance(t, h) == 0,
    decreases t.len(),
{
    let (k, chunk): (int, Result<Seq<u8>, FsOpError>) = choose|
        k: int,
        chunk: Result<Seq<u8>, FsOpError>,
    |
        {
            &&& 1 <= k <= t.len()
            &&& #[trigger] window_filled(
                t.take(k),
                file,
                READ_CHUNK_BYTES as int,
                Seq::empty(),
                chunk,
            )
            &&& match chunk {
                Err(error) => k == t.len() && result == Err::<(), FsOpError>(error),
                Ok(bytes) => {
                    let end = done + bytes.len();
                    if bytes.len() == 0 {
                        &&& k == t.len()
                        &&& if done == expected.len() {
                            result is Ok
                        } else {
                            result == Err::<(), FsOpError>(FsOpError::VerifyFailed)
                        }
                    } else if end > expected.len() || bytes != expected.subrange(done, end) {
                        k == t.len() && result == Err::<(), FsOpError>(FsOpError::VerifyFailed)
                    } else {
                        contents_checked(t.skip(k), file, expected, end, result)
                    }
                },
            }
        };
    window_balance(t.take(k), file, READ_CHUNK_BYTES as int, Seq::empty(), chunk, h);
    balance_joins(t, k, h);
    if k == t.len() {
        assert(balance(t.skip(k), h) == 0);
    } else {
        check_balance(t.skip(k), file, expected, done + chunk->Ok_0.len(), result, h);
    }
}

proof fn stream_balance<D, F>(
    t: Seq<Call<D, F>>,
    source: F,
    destination: F,
    chunks_left: int,
    result: Result<(), FsOpError>,
    h: Handle<D, F>,
)
    requires
        streamed(t, source, destination, chunks_left, result),
    ensures
        balance(t, h) == 0,
    decreases t.len(),
{
    if chunks_left > 0 {
        match t[0]->Read_reply {
            Err(_) => balance_of_one(t, h),
            Ok(chunk) => if chunk.len() == 0 {
                balance_of_one(t, h);
            } else {
                match t[1]->Write_reply {
                    Err(_) => balance_of_two(t, h),
                    Ok(_) => {
                        stream_balance(t.skip(2), source, destination, chunks_left - 1, result, h);
                        assert(t.skip(1)[0] == t[1]);
                        assert(t.skip(1).skip(1) =~= t.skip(2));
                        assert(balance(t.skip(1), h) == 0);
                    },
                }
            },
        }
    }
}

proof fn comparison_balance<D, F>(
    t: Seq<Call<D, F>>,
    left: F,
    right: F,
    chunks_left: int,
    result: Result<(), FsOpError>,
    h: Handle<D, F>,
)
    requires
        contents_compared(t, left, right, chunks_left, result),
    ensures
        balance(t, h) == 0,
    decreases t.len(),
{
    if chunks_left > 0 {
        let (k, chunk): (int, Result<Seq<u8>, FsOpError>) = choose|
            k: int,
            chunk: Result<Seq<u8>, FsOpError>,
        |
            {
                &&& 1 <= k <= t.len()
                &&& #[trigger] window_filled(
                    t.take(k),
                    left,
                    COPY_CHUNK_BYTES as int,
                    Seq::empty(),
                    chunk,
                )
                &&& match chunk {
                    Err(error) => k == t.len() && result == Err::<(), FsOpError>(error),
                    Ok(bytes) => chunk_compared(t.skip(k), left, right, bytes, chunks_left, result),
                }
            };
        window_balance(t.take(k), left, COPY_CHUNK_BYTES as int, Seq::empty(), chunk, h);
        balance_joins(t, k, h);
        let u = t.skip(k);
        if let Ok(bytes) = chunk {
            let (m, others): (int, Result<Seq<u8>, FsOpError>) = choose|
                m: int,
                others: Result<Seq<u8>, FsOpError>,
            |
                {
                    &&& 1 <= m <= u.len()
                    &&& #[trigger] window_filled(
                        u.take(m),
                        right,
                        COPY_CHUNK_BYTES as int,
                        Seq::empty(),
                        others,
                    )
                    &&& match others {
                        Err(error) => m == u.len() && result == Err::<(), FsOpError>(error),
                        Ok(more) => if more != bytes {
                            m == u.len() && result == Err::<(), FsOpError>(FsOpError::VerifyFailed)
                        } else if bytes.len() == 0 {
                            m == u.len() && result is Ok
                        } else {
                            contents_compared(u.skip(m), left, right, chunks_left - 1, result)
                        },
                    }
                };
            window_balance(u.take(m), right, COPY_CHUNK_BYTES as int, Seq::empty(), others, h);
            balance_joins(u, m, h);
            if m == u.len() {
                assert(balance(u.skip(m), h) == 0);
            } else {
                comparison_balance(u.skip(m), left, right, chunks_left - 1, result, h);
            }
        } else {
            assert(balance(u, h) == 0);
        }
    }
}

proof fn read_balance<D, F>(
    t: Seq<Call<D, F>>,
    path: Seq<char>,
    result: Result<Seq<u8>, FsOpError>,
    h: Handle<D, F>,
)
    requires
        file_read(t, path, result),
    ensures
        balance(t, h) == 0,
{
    let (k, opened): (int, Result<F, FsOpError>) = choose|k: int, opened: Result<F, FsOpError>|
        {
            &&& 0 <= k <= t.len()
            &&& #[trigger] file_opened(t.take(k), path, OpenMode::ReadOnly, opened)
            &&& match opened {
                Err(error) => k == t.len() && result == Err::<Seq<u8>, FsOpError>(error),
                Ok(file) => {
                    &&& k < t.len()
                    &&& read_to_end(t.subrange(k, t.len() - 1), file, Seq::empty(), result)
                    &&& t.last() matches Call::CloseFile { file: f, .. } && f == file
                },
            }
        };
    file_opening_balance(t.take(k), path, OpenMode::ReadOnly, opened, h);
    match opened {
        Err(_) => {
            assert(t.take(k) =~= t);
        },
        Ok(file) => {
            reading_balance(t.subrange(k, t.len() - 1), file, Seq::empty(), result, h);
            balance_of_three(t, k, h);
        },
    }
}

proof fn verify_balance<D, F>(
    t: Seq<Call<D, F>>,
    path: Seq<char>,
    expected: Seq<u8>,
    result: Result<(), FsOpError>,
    h: Handle<D, F>,
)
    requires
        file_verified(t, path, expected, result),
    ensures
        balance(t, h) == 0,
{
    let (k, opened): (int, Result<F, FsOpError>) = choose|k: int, opened: Result<F, FsOpError>|
        {
            &&& 0 <= k <= t.len()
            &&& #[trigger] file_opened(t.take(k), path, OpenMode::ReadOnly, opened)
            &&& match opened {
                Err(error) => k == t.len() && result == Err::<(), FsOpError>(error),
                Ok(file) => {
                    &&& k < t.len()
                    &&& contents_checked(t.subrange(k, t.len() - 1), file, expected, 0, result)
                    &&& t.last() matches Call::CloseFile { file: f, .. } && f == file
                },
            }
        };
    file_opening_balance(t.take(k), path, OpenMode::ReadOnly, opened, h);
    match opened {
        Err(_) => {
            assert(t.take(k) =~= t);
        },
        Ok(file) => {
            check_balance(t.subrange(k, t.len() - 1), file, expected, 0, result, h);
            balance_of_three(t, k, h);
        },
    }
}

proof fn write_balance<D, F>(
    t: Seq<Call<D, F>>,
    path: Seq<char>,
    contents: Seq<u8>,
    result: Result<(), FsOpError>,
    h: Handle<D, F>,
)
    requires
        file_written(t, path, contents, result),
    ensures
        balance(t, h) == 0,
{
    let (k, opened): (int, Result<F, FsOpError>) = choose|k: int, opened: Result<F, FsOpError>|
        {
            &&& 0 <= k <= t.len()
            &&& #[trigger] file_opened(t.take(k), path, OpenMode::ReadWriteCreateOrTruncate, opened)
            &&& match opened {
                Err(error) => k == t.len() && result == Err::<(), FsOpError>(error),
                Ok(file) => {
                    &&& t.len() == k + 2
                    &&& t[k] matches Call::Write { file: f, bytes, reply: written } && {
                        &&& f == file
                        &&& bytes == contents
                        &&& t[k + 1] matches Call::CloseFile { file: g, reply: closed } && {
                            &&& g == file
                            &&& result == first_failure(op_result(written), op_result(closed))
                        }
                    }
                },
            }
        };
    file_opening_balance(t.take(k), path, OpenMode::ReadWriteCreateOrTruncate, opened, h);
    balance_joins(t, k, h);
    match opened {
        Err(_) => {
            assert(balance(t.skip(k), h) == 0);
        },
        Ok(_) => {
            balance_of_two(t.skip(k), h);
            assert(t.skip(k)[0] == t[k]);
            assert(t.skip(k)[1] == t[k + 1]);
        },
    }
}

proof fn save_balance<D, F>(
    t: Seq<Call<D, F>>,
    path: Seq<char>,
    contents: Seq<u8>,
    result: Result<(), FsOpError>,
    h: Handle<D, F>,
)
    requires
        file_saved(t, path, contents, result),
    ensures
        balance(t, h) == 0,
{
    let (k, written): (int, Result<(), FsOpError>) = choose|k: int, written: Result<(), FsOpError>|
        {
            &&& 0 <= k <= t.len()
            &&& #[trigger] file_written(t.take(k), path, contents, written)
            &&& if written is Err {
                k == t.len() && result == written
            } else {
                file_verified(t.skip(k), path, contents, result)
            }
        };
    write_balance(t.take(k), path, contents, written, h);
    balance_joins(t, k, h);
    if written is Err {
        assert(balance(t.skip(k), h) == 0);
    } else {
        verify_balance(t.skip(k), path, contents, result, h);
    }
}

proof fn copy_to_balance<D, F>(
    t: Seq<Call<D, F>>,
    source: F,
    to: Seq<char>,
    mode: OpenMode,
    result: Result<(), FsOpError>,
    h: Handle<D, F>,
)
    requires
        copied_to(t, source, to, mode, result),
    ensures
        balance(t, h) == 0,
{
    let (k, opened): (int, Result<F, FsOpError>) = choose|k: int, opened: Result<F, FsOpError>|
        {
            &&& 0 <= k <= t.len()
            &&& #[trigger] file_opened(t.take(k), to, mode, opened)
            &&& match opened {
                Err(error) => k == t.len() && result == Err::<(), FsOpError>(error),
                Ok(destination) => {
                    &&& k < t.len()
                    &&& t.last() matches Call::CloseFile { file, reply } && file == destination
                        && exists|outcome: Result<(), FsOpError>| #[trigger]
                        streamed(
                            t.subrange(k, t.len() - 1),
                            source,
                            destination,
                            MAX_CHUNKS as int,
                            outcome,
                        ) && result == first_failure(outcome, op_result(reply))
                },
            }
        };
    file_opening_balance(t.take(k), to, mode, opened, h);
    match opened {
        Err(_) => {
            assert(t.take(k) =~= t);
        },
        Ok(destination) => {
            let reply = t.last()->CloseFile_reply;
            let u = t.subrange(k, t.len() - 1);
            let outcome = choose|outcome: Result<(), FsOpError>| #[trigger]
                streamed(u, source, destination, MAX_CHUNKS as int, outcome) && result
                    == first_failure(outcome, op_result(reply));
            stream_balance(u, source, destination, MAX_CHUNKS as int, outcome, h);
            balance_of_three(t, k, h);
        },
    }
}

proof fn compare_with_balance<D, F>(
    t: Seq<Call<D, F>>,
    left: F,
    right: Seq<char>,
    result: Result<(), FsOpError>,
    h: Handle<D, F>,
)
    requires
        compared_with(t, left, right, result),
    ensures
        balance(t, h) == 0,
{
    let (k, opened): (int, Result<F, FsOpError>) = choose|k: int, opened: Result<F, FsOpError>|
        {
            &&& 0 <= k <= t.len()
            &&& #[trigger] file_opened(t.take(k), right, OpenMode::ReadOnly, opened)
            &&& match opened {
                Err(error) => k == t.len() && result == Err::<(), FsOpError>(error),
                Ok(file) => {
                    &&& k < t.len()
                    &&& contents_compared(
                        t.subrange(k, t.len() - 1),
                        left,
                        file,
                        MAX_CHUNKS as int,
                        result,
                    )
                    &&& t.last() matches Call::CloseFile { file: f, .. } && f == file
                },
            }
        };
    file_opening_balance(t.take(k), right, OpenMode::ReadOnly, opened, h);
    match opened {
        Err(_) => {
            assert(t.take(k) =~= t);
        },
        Ok(file) => {
            let u = t.subrange(k, t.len() - 1);
            comparison_balance(u, left, file, MAX_CHUNKS as int, result, h);
            balance_of_three(t, k, h);
        },
    }
}

proof fn compare_balance<D, F>(
    t: Seq<Call<D, F>>,
    left: Seq<char>,
    right: Seq<char>,
    result: Result<(), FsOpError>,
    h: Handle<D, F>,
)
    requires
        files_compared(t, left, right, result),
    ensures
        balance(t, h) == 0,
{
    let (k, opened): (int, Result<F, FsOpError>) = choose|k: int, opened: Result<F, FsOpError>|
        {
            &&& 0 <= k <= t.len()
            &&& #[trigger] file_opened(t.take(k), left, OpenMode::ReadOnly, opened)
            &&& match opened {
                Err(error) => k == t.len() && result == Err::<(), FsOpError>(error),
                Ok(file) => {
                    &&& k < t.len()
                    &&& compared_with(t.subrange(k, t.len() - 1), file, right, result)
                    &&& t.last() matches Call::CloseFile { file: f, .. } && f == file
                },
            }
        };
    file_opening_balance(t.take(k), left, OpenMode::ReadOnly, opened, h);
    match opened {
        Err(_) => {
            assert(t.take(k) =~= t);
        },
        Ok(file) => {
            compare_with_balance(t.subrange(k, t.len() - 1), file, right, result, h);
            balance_of_three(t, k, h);
        },
    }
}

proof fn copy_from_balance<D, F>(
    t: Seq<Call<D, F>>,
    source: F,
    from: Seq<char>,
    to: Seq<char>,
    mode: OpenMode,
    result: Result<(), FsOpError>,
    h: Handle<D, F>,
)
    requires
        copied_from(t, source, from, to, mode, result),
    ensures
        balance(t, h) == -is_handle(Handle::File(source), h),
{
    let (k, copied): (int, Result<(), FsOpError>) = choose|k: int, copied: Result<(), FsOpError>|
        {
            &&& 0 <= k < t.len()
            &&& #[trigger] copied_to(t.take(k), source, to, mode, copied)
            &&& t[k] matches Call::CloseFile { file, .. } && file == source
            &&& if copied is Err {
                t.len() == k + 1 && result == copied
            } else {
                files_compared(t.skip(k + 1), from, to, result)
            }
        };
    copy_to_balance(t.take(k), source, to, mode, copied, h);
    balance_joins(t, k, h);
    let u = t.skip(k);
    assert(u[0] == t[k]);
    assert(u.skip(1) =~= t.skip(k + 1));
    if copied is Err {
        assert(balance(u.skip(1), h) == 0);
    } else {
        compare_balance(t.skip(k + 1), from, to, result, h);
    }
}

proof fn copy_balance<D, F>(
    t: Seq<Call<D, F>>,
    from: Seq<char>,
    to: Seq<char>,
    mode: OpenMode,
    result: Result<(), FsOpError>,
    h: Handle<D, F>,
)
    requires
        file_copied(t, from, to, mode, result),
    ensures
        balance(t, h) == 0,
{
    let (k, opened): (int, Result<F, FsOpError>) = choose|k: int, opened: Result<F, FsOpError>|
        {
            &&& 0 <= k <= t.len()
            &&& #[trigger] file_opened(t.take(k), from, OpenMode::ReadOnly, opened)
            &&& match opened {
                Err(error) => k == t.len() && result == Err::<(), FsOpError>(error),
                Ok(source) => copied_from(t.skip(k), source, from, to, mode, result),
            }
        };
    file_opening_balance(t.take(k), from, OpenMode::ReadOnly, opened, h);
    balance_joins(t, k, h);
    match opened {
        Err(_) => {
            assert(balance(t.skip(k), h) == 0);
        },
        Ok(source) => copy_from_balance(t.skip(k), source, from, to, mode, result, h),
    }
}

proof fn reclaim_balance<D, F>(
    t: Seq<Call<D, F>>,
    fat32: bool,
    dir: D,
    name: Seq<char>,
    truncated: bool,
    h: Handle<D, F>,
)
    requires
        reclaimed(t, fat32, dir, name, truncated),
    ensures
        balance(t, h) == 0,
{
    if fat32 {
        match t[0]->OpenFile_reply {
            Ok(_) => balance_of_two(t, h),
            Err(_) => balance_of_one(t, h),
        }
    }
}

proof fn attempt_balance<D, F>(
    t: Seq<Call<D, F>>,
    dir: D,
    name: Seq<char>,
    reply: Result<(), VolumeError>,
    absent: bool,
    h: Handle<D, F>,
)
    requires
        delete_attempted(t, dir, name, reply, absent),
    ensures
        balance(t, h) == 0,
{
    idle_calls(t, h);
}

proof fn retry_balance<D, F>(
    t: Seq<Call<D, F>>,
    dir: D,
    name: Seq<char>,
    left: int,
    outcome: Result<(), VolumeError>,
    last: Result<(), VolumeError>,
    h: Handle<D, F>,
)
    requires
        delete_retried(t, dir, name, left, outcome, last),
    ensures
        balance(t, h) == 0,
    decreases left,
{
    if left > 0 && outcome is Err {
        let (k, reply, absent): (int, Result<(), VolumeError>, bool) = choose|
            k: int,
            reply: Result<(), VolumeError>,
            absent: bool,
        |
            {
                &&& 1 <= k <= t.len()
                &&& t[0] == Call::<D, F>::DropCache
                &&& #[trigger] delete_attempted(t.subrange(1, k), dir, name, reply, absent)
                &&& delete_retried(
                    t.skip(k),
                    dir,
                    name,
                    left - 1,
                    if absent {
                        Ok(())
                    } else {
                        reply
                    },
                    last,
                )
            };
        attempt_balance(t.subrange(1, k), dir, name, reply, absent, h);
        let next = if absent {
            Ok(())
        } else {
            reply
        };
        retry_balance(t.skip(k), dir, name, left - 1, next, last, h);
        balance_joins(t, k, h);
        assert(t.take(k)[0] == t[0]);
        assert(t.take(k).skip(1) =~= t.subrange(1, k));
    }
}

proof fn conclusion_balance<D, F>(
    t: Seq<Call<D, F>>,
    dir: D,
    name: Seq<char>,
    outcome: Result<(), VolumeError>,
    truncated: bool,
    result: Result<(), FsOpError>,
    h: Handle<D, F>,
)
    requires
        delete_concluded(t, dir, name, outcome, truncated, result),
    ensures
        balance(t, h) == 0,
{
    let left = DELETE_RETRY_ATTEMPTS - 1;
    if exists|last: Result<(), VolumeError>| #[trigger]
        delete_retried(t, dir, name, left, outcome, last) && last is Ok && result is Ok {
        let last = choose|last: Result<(), VolumeError>| #[trigger]
            delete_retried(t, dir, name, left, outcome, last) && last is Ok && result is Ok;
        retry_balance(t, dir, name, left, outcome, last, h);
    } else {
        let u = t.drop_last();
        let last = choose|last: Result<(), VolumeError>| #[trigger]
            delete_retried(u, dir, name, left, outcome, last) && last is Err && result
                == delete_report(last, truncated);
        retry_balance(u, dir, name, left, outcome, last, h);
        let k = t.len() - 1;
        balance_joins(t, k, h);
        assert(t.take(k) =~= u);
        balance_of_one(t.skip(k), h);
        assert(t.skip(k)[0] == t.last());
    }
}

proof fn delete_balance<D, F>(
    t: Seq<Call<D, F>>,
    dir: D,
    name: Seq<char>,
    truncated: bool,
    result: Result<(), FsOpError>,
    h: Handle<D, F>,
)
    requires
        entry_deleted(t, dir, name, truncated, result),
    ensures
        balance(t, h) == 0,
{
    let (k, reply, absent) = first_delete(t, dir, name, truncated, result);
    attempt_balance(t.take(k), dir, name, reply, absent, h);
    balance_joins(t, k, h);
    if absent {
        assert(balance(t.skip(k), h) == 0);
    } else {
        conclusion_balance(t.skip(k), dir, name, reply, truncated, result, h);
    }
}

proof fn removal_balance<D, F>(
    t: Seq<Call<D, F>>,
    fat32: bool,
    name: Seq<char>,
    dir: D,
    result: Result<(), FsOpError>,
    h: Handle<D, F>,
)
    requires
        file_removed::<D, F>(fat32, name)(t, dir, result),
    ensures
        balance(t, h) == 0,
{
    let (k, truncated): (int, bool) = choose|k: int, truncated: bool|
        {
            &&& 0 <= k <= t.len()
            &&& #[trigger] reclaimed(t.take(k), fat32, dir, name, truncated)
            &&& entry_deleted(t.skip(k), dir, name, truncated, result)
        };
    reclaim_balance(t.take(k), fat32, dir, name, truncated, h);
    delete_balance(t.skip(k), dir, name, truncated, result, h);
    balance_joins(t, k, h);
}

proof fn batch_balance<D, F>(
    t: Seq<Call<D, F>>,
    fat32: bool,
    dir: D,
    children: Seq<ChildEntry>,
    i: int,
    so_far: bool,
    destroyed: bool,
    result: Result<(), FsOpError>,
    h: Handle<D, F>,
)
    requires
        batch_removed(t, fat32, dir, children, i, so_far, destroyed, result),
    ensures
        balance(t, h) == 0,
    decreases children.len() - i,
{
    if i < children.len() {
        if children[i].is_dir {
            batch_balance(t, fat32, dir, children, i + 1, so_far, destroyed, result, h);
        } else if !children[i].read_only {
            let name = children[i].name@;
            let (k, outcome): (int, Result<(), FsOpError>) = choose|
                k: int,
                outcome: Result<(), FsOpError>,
            |
                {
                    &&& 0 <= k <= t.len()
                    &&& #[trigger] one_file_removed(t.take(k), fat32, name, dir, outcome)
                    &&& if outcome is Err {
                        k == t.len() && destroyed == (so_far || destroys(outcome))
                            && result == outcome
                    } else {
                        batch_removed(
                            t.skip(k),
                            fat32,
                            dir,
                            children,
                            i + 1,
                            true,
                            destroyed,
                            result,
                        )
                    }
                };
            removal_balance(t.take(k), fat32, name, dir, outcome, h);
            balance_joins(t, k, h);
            if outcome is Err {
                assert(balance(t.skip(k), h) == 0);
            } else {
                batch_balance(t.skip(k), fat32, dir, children, i + 1, true, destroyed, result, h);
            }
        }
    }
}

proof fn files_removal_balance<D, F>(
    t: Seq<Call<D, F>>,
    fat32: bool,
    path: Seq<char>,
    children: Seq<ChildEntry>,
    destroyed: bool,
    result: Result<(), FsOpError>,
    h: Handle<D, F>,
)
    requires
        files_removed(t, fat32, path, children, destroyed, result),
    ensures
        balance(t, h) == 0,
{
    if exists|error: FsOpError| #[trigger]
        dir_opened(t, path, Err::<D, FsOpError>(error)) && result == Err::<(), FsOpError>(error)
            && !destroyed {
        let error = choose|error: FsOpError| #[trigger]
            dir_opened(t, path, Err::<D, FsOpError>(error)) && result == Err::<(), FsOpError>(error)
                && !destroyed;
        opening_balance(t, path, Err::<D, FsOpError>(error), h);
    } else {
        let (k, dir): (int, D) = choose|k: int, dir: D|
            {
                &&& 0 <= k < t.len()
                &&& #[trigger] dir_opened(t.take(k), path, Ok::<D, FsOpError>(dir))
                &&& t.last() == Call::<D, F>::CloseDir { dir }
                &&& batch_removed(
                    t.subrange(k, t.len() - 1),
                    fat32,
                    dir,
                    children,
                    0,
                    false,
                    destroyed,
                    result,
                )
            };
        opening_balance(t.take(k), path, Ok::<D, FsOpError>(dir), h);
        batch_balance(
            t.subrange(k, t.len() - 1),
            fat32,
            dir,
            children,
            0,
            false,
            destroyed,
            result,
            h,
        );
        balance_of_three(t, k, h);
    }
}

proof fn tails_balance<D, F>(
    t: Seq<Call<D, F>>,
    start: int,
    g: VolumeGeometry,
    copy: int,
    h: Handle<D, F>,
)
    requires
        tails_repaired(t, start, g, copy),
    ensures
        balance(t, h) == 0,
    decreases t.len(),
{
    if copy < g.fat_copies {
        if tails_repaired(t.skip(1), start, g, copy + 1) {
            tails_balance(t.skip(1), start, g, copy + 1, h);
        } else {
            tails_balance(t.skip(2), start, g, copy + 1, h);
            assert(t.skip(1)[0] == t[1]);
            assert(t.skip(1).skip(1) =~= t.skip(2));
            assert(balance(t.skip(1), h) == 0);
        }
    }
}

proof fn repair_balance<D, F>(t: Seq<Call<D, F>>, layout: MediaLayout, h: Handle<D, F>)
    requires
        repaired(t, layout),
    ensures
        balance(t, h) == 0,
{
    if t.len() == 1 {
        balance_of_one(t, h);
    } else {
        let boot = t[0]->ReadSector_reply->0;
        let g = boot_sector_of(boot@)->Fat_0;
        tails_balance(t.skip(1), layout.start_lba as int, g, 0, h);
    }
}

proof fn counting_balance<D, F>(
    t: Seq<Call<D, F>>,
    first_fat: int,
    g: VolumeGeometry,
    index: int,
    free: int,
    result: Option<int>,
    h: Handle<D, F>,
)
    requires
        fat16_counted(t, first_fat, g, index, free, result),
    ensures
        balance(t, h) == 0,
    decreases t.len(),
{
    if t.len() == 1 {
        balance_of_one(t, h);
    } else if t.len() > 1 {
        let sector = t[0]->ReadSector_reply->0;
        let entries = entries_in(g, index);
        counting_balance(
            t.skip(1),
            first_fat,
            g,
            index + 1,
            free + free_entries(sector@, entries.0, entries.1),
            result,
            h,
        );
    }
}

proof fn measuring_balance<D, F>(
    t: Seq<Call<D, F>>,
    start: u32,
    result: Option<u64>,
    h: Handle<D, F>,
)
    requires
        space_measured(t, start, result),
    ensures
        balance(t, h) == 0,
{
    if t.len() == 1 {
        balance_of_one(t, h);
    } else {
        let boot = t[0]->ReadSector_reply->0;
        let g = boot_sector_of(boot@)->Fat_0;
        let u = t.skip(1);
        let free = choose|free: Option<int>| #[trigger]
            free_clusters_found(u, start as int, g, free) && result == free_bytes(
                g,
                free,
            );
        if g.fat32 {
            if u.len() == 1 {
                balance_of_one(u, h);
            }
        } else {
            counting_balance(u, start + g.reserved_sectors, g, 0, 0, free, h);
        }
    }
}

proof fn look_balance<D, F>(
    t: Seq<Call<D, F>>,
    path: Seq<char>,
    result: Result<EntryFacts, FsOpError>,
    h: Handle<D, F>,
)
    requires
        entry_found(t, path, result),
    ensures
        balance(t, h) == 0,
{
    let leaf = leaf_of(path);
    let body = name_found::<D, F>(leaf);
    assert forall|u: Seq<Call<D, F>>, dir: D| #[trigger] body(u, dir, result) implies balance(u, h)
        == 0 by {
        let outcome = choose|outcome: Result<EntryFacts, VolumeError>| #[trigger]
            confirmed(u, ask_find(dir, leaf), outcome) && result == op_result(outcome);
        confirmed_balance(u, ask_find(dir, leaf), outcome, h);
    }
    let nothing = |r: Result<EntryFacts, FsOpError>| 0int;
    inside_balance(t, parent_of(path), body, result, nothing, h);
}

proof fn scan_balance<D, F>(
    t: Seq<Call<D, F>>,
    path: Seq<char>,
    rule: ScanRuleView,
    result: Result<Seq<EntryRecord>, FsOpError>,
    h: Handle<D, F>,
)
    requires
        path_scanned(t, path, rule, result),
    ensures
        balance(t, h) == 0,
{
    let body = dir_iterated::<D, F>(rule);
    assert forall|u: Seq<Call<D, F>>, dir: D| #[trigger] body(u, dir, result) implies balance(u, h)
        == 0 by {
        balance_of_one(u, h);
    }
    let nothing = |r: Result<Seq<EntryRecord>, FsOpError>| 0int;
    inside_balance(t, path, body, result, nothing, h);
}

proof fn file_creation_balance<D, F>(
    t: Seq<Call<D, F>>,
    path: Seq<char>,
    result: Result<(), FsOpError>,
    h: Handle<D, F>,
)
    requires
        inside(t, parent_of(path), empty_file_made(leaf_of(path)), result),
    ensures
        balance(t, h) == 0,
{
    let body = empty_file_made::<D, F>(leaf_of(path));
    assert forall|u: Seq<Call<D, F>>, dir: D| #[trigger] body(u, dir, result) implies balance(u, h)
        == 0 by {
        if u.len() == 1 {
            balance_of_one(u, h);
        } else if u.len() == 2 {
            balance_of_two(u, h);
        } else {
            balance_of_two(u.skip(1), h);
            assert(u.skip(1)[0] == u[1]);
            assert(u.skip(1)[1] == u[2]);
        }
    }
    let nothing = |r: Result<(), FsOpError>| 0int;
    inside_balance(t, parent_of(path), body, result, nothing, h);
}

proof fn folder_creation_balance<D, F>(
    t: Seq<Call<D, F>>,
    path: Seq<char>,
    result: Result<(), FsOpError>,
    h: Handle<D, F>,
)
    requires
        inside(t, parent_of(path), folder_made(leaf_of(path)), result),
    ensures
        balance(t, h) == 0,
{
    let leaf = leaf_of(path);
    let body = folder_made::<D, F>(leaf);
    assert forall|u: Seq<Call<D, F>>, dir: D| #[trigger] body(u, dir, result) implies balance(u, h)
        == 0 by {
        if u.len() == 1 {
            balance_of_one(u, h);
        } else if u[1]->MakeDir_reply is Err {
            balance_of_two(u, h);
        } else {
            let seen = choose|seen: Result<EntryFacts, VolumeError>| #[trigger]
                confirmed(u.skip(2), ask_find(dir, leaf), seen) && result
                    == made_folder_verdict(seen);
            confirmed_balance(u.skip(2), ask_find(dir, leaf), seen, h);
            balance_joins(u, 2, h);
            balance_of_two(u.take(2), h);
            assert(u.take(2)[0] == u[0]);
            assert(u.take(2)[1] == u[1]);
        }
    }
    let nothing = |r: Result<(), FsOpError>| 0int;
    inside_balance(t, parent_of(path), body, result, nothing, h);
}

proof fn bare_folder_balance<D, F>(
    t: Seq<Call<D, F>>,
    path: Seq<char>,
    result: Result<(), FsOpError>,
    h: Handle<D, F>,
)
    requires
        inside(
            t,
            parent_of(path),
            bare_folder_made(leaf_of(path)),
            result,
        ),
    ensures
        balance(t, h) == 0,
{
    let body = bare_folder_made::<D, F>(leaf_of(path));
    assert forall|u: Seq<Call<D, F>>, dir: D| #[trigger] body(u, dir, result) implies balance(u, h)
        == 0 by {
        balance_of_one(u, h);
    }
    let nothing = |r: Result<(), FsOpError>| 0int;
    inside_balance(t, parent_of(path), body, result, nothing, h);
}

proof fn path_removal_balance<D, F>(
    t: Seq<Call<D, F>>,
    fat32: bool,
    path: Seq<char>,
    result: Result<(), FsOpError>,
    h: Handle<D, F>,
)
    requires
        path_removed(t, fat32, path, result),
    ensures
        balance(t, h) == 0,
{
    let leaf = leaf_of(path);
    let body = file_removed::<D, F>(fat32, leaf);
    assert forall|u: Seq<Call<D, F>>, dir: D| #[trigger] body(u, dir, result) implies balance(u, h)
        == 0 by {
        removal_balance(u, fat32, leaf, dir, result, h);
    }
    let nothing = |r: Result<(), FsOpError>| 0int;
    inside_balance(t, parent_of(path), body, result, nothing, h);
}

/// Each step closes every handle as often as it opens it, whatever the replies: nothing
/// is left open, not even by a step that fails halfway.
pub proof fn steps_close_their_handles<D, F>(
    t: Seq<Call<D, F>>,
    layout: MediaLayout,
    step: Step,
    h: Handle<D, F>,
)
    requires
        step_made(t, layout, step),
    ensures
        balance(t, h) == 0,
{
    match step {
        Step::Mount => {
            let result = choose|result: Result<(), VolumeError>| #[trigger]
                volume_mounted(t, layout, result) && result is Ok;
            let k = t.len() - 1;
            repair_balance(t.drop_last(), layout, h);
            balance_joins(t, k, h);
            assert(t.take(k) =~= t.drop_last());
            balance_of_one(t.skip(k), h);
            assert(t.skip(k)[0] == t.last());
        },
        Step::Find { path, reply } => look_balance(t, path, reply, h),
        Step::Scan { path, rule, reply } => scan_balance(t, path, rule, reply, h),
        Step::Read { path, reply } => read_balance(t, path, reply, h),
        Step::Save { path, contents, reply } => save_balance(t, path, contents, reply, h),
        Step::Copy { from, to, mode, reply } => copy_balance(t, from, to, mode, reply, h),
        Step::Delete { path, reply } => path_removal_balance(t, layout.fat32, path, reply, h),
        Step::DeleteFiles { path, children, destroyed, reply } => files_removal_balance(
            t,
            layout.fat32,
            path,
            children,
            destroyed,
            reply,
            h,
        ),
        Step::CreateFile { path, reply } => file_creation_balance(t, path, reply, h),
        Step::CreateFolder { path, reply } => folder_creation_balance(t, path, reply, h),
        Step::MakeFolder { path, reply } => bare_folder_balance(t, path, reply, h),
        Step::Measure { reply } => measuring_balance(t, layout.start_lba, reply, h),
        _ => balance_of_one(t, h),
    }
}

proof fn explained_calls_balance<D, F>(
    calls: Seq<Call<D, F>>,
    layout: MediaLayout,
    steps: Seq<Step>,
    h: Handle<D, F>,
)
    requires
        explained(calls, layout, steps),
    ensures
        balance(calls, h) == 0,
    decreases steps.len(),
{
    reveal(explained);
    if steps.len() > 0 {
        let k = choose|k: int|
            0 <= k <= calls.len() && explained(#[trigger] calls.take(k), layout, steps.drop_last())
                && step_made(calls.skip(k), layout, steps.last());
        explained_calls_balance(calls.take(k), layout, steps.drop_last(), h);
        steps_close_their_handles(calls.skip(k), layout, steps.last(), h);
        balance_joins(calls, k, h);
    }
}

/// Between operations nothing is open: whatever was done on a mounted volume, each
/// directory and file was closed as often as it was opened.
pub proof fn volumes_rest_with_nothing_open<M: VolumeAccess>(
    session: Session<M>,
    h: Handle<M::Dir, M::File>,
)
    requires
        session.wf(),
    ensures
        balance(session.calls(), h) == 0,
{
    explained_calls_balance(session.calls(), session.layout(), session.steps(), h);
}

} // verus!
