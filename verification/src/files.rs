//! Reading, writing, copying and comparing whole files.
use vstd::prelude::*;

use crate::bytes::holds;
use crate::errors::{op_error, FsOpError, VolumeError};
use crate::storage::{cut, extends, no_more, one_more, since};
use crate::volume::{read_reply, Call, OpenMode, Volume, VolumeAccess};
use crate::walk::{file_opened, op_result, to_op_result};

verus! {

/// Window through which files are copied and compared.
pub const COPY_CHUNK_BYTES: usize = 4096;

/// Window through which a file is read or compared with memory.
pub const READ_CHUNK_BYTES: usize = 512;

/// Reads after which the walk through a file ends at the latest. File sizes have 32 bits, and
/// each read but the last delivers something, so no file takes as many.
pub const MAX_CHUNKS: u64 = 0xffff_ffff_ffff_ffff;

/// The failure of a file that goes on beyond [`MAX_CHUNKS`].
pub open spec fn endless_file() -> FsOpError {
    FsOpError::Fs(VolumeError::EndOfFile)
}

/// Reading `file` to its end, of which `got` is already there.
pub open spec fn read_to_end<D, F>(
    t: Seq<Call<D, F>>,
    file: F,
    got: Seq<u8>,
    result: Result<Seq<u8>, FsOpError>,
) -> bool
    decreases t.len(),
{
    &&& t.len() >= 1
    &&& t[0] matches Call::Read { file: f, limit, reply } && f == file && limit == READ_CHUNK_BYTES
        && match reply {
        Err(error) => t.len() == 1 && result == Err::<Seq<u8>, FsOpError>(op_error(error)),
        Ok(bytes) => if bytes.len() == 0 {
            t.len() == 1 && result == Ok::<Seq<u8>, FsOpError>(got)
        } else {
            read_to_end(t.skip(1), file, got + bytes, result)
        },
    }
}

/// Reading the whole file at `path`.
pub open spec fn file_read<D, F>(
    t: Seq<Call<D, F>>,
    path: Seq<char>,
    result: Result<Seq<u8>, FsOpError>,
) -> bool {
    exists|k: int, opened: Result<F, FsOpError>|
        {
            &&& 0 <= k <= t.len()
            &&& #[trigger] file_opened(t.take(k), path, OpenMode::ReadOnly, opened)
            &&& match opened {
                Err(error) => k == t.len() && result == Err::<Seq<u8>, FsOpError>(error),
                Ok(file) => {
                    &&& k < t.len()
                    &&& read_to_end(t.subrange(k, t.len() - 1), file, Seq::empty(), result)
                    &&& t.last() matches Call::CloseFile { file: f, .. } && f == file
                },
            }
        }
}

/// Filling a window of `size` bytes from `file`, of which `got` is already there;
/// the end of the file leaves it shorter.
pub open spec fn window_filled<D, F>(
    t: Seq<Call<D, F>>,
    file: F,
    size: int,
    got: Seq<u8>,
    result: Result<Seq<u8>, FsOpError>,
) -> bool
    decreases t.len(),
{
    if got.len() >= size {
        t.len() == 0 && result == Ok::<Seq<u8>, FsOpError>(got)
    } else {
        &&& t.len() >= 1
        &&& t[0] matches Call::Read { file: f, limit, reply } && f == file && limit == size
            - got.len() && match reply {
            Err(error) => t.len() == 1 && result == Err::<Seq<u8>, FsOpError>(op_error(error)),
            Ok(bytes) => if bytes.len() == 0 {
                t.len() == 1 && result == Ok::<Seq<u8>, FsOpError>(got)
            } else {
                window_filled(t.skip(1), file, size, got + bytes, result)
            },
        }
    }
}

/// Comparing the rest of `file` with `expected` from `done` on.
pub open spec fn contents_checked<D, F>(
    t: Seq<Call<D, F>>,
    file: F,
    expected: Seq<u8>,
    done: int,
    result: Result<(), FsOpError>,
) -> bool
    decreases t.len(),
{
    exists|k: int, chunk: Result<Seq<u8>, FsOpError>|
        {
            &&& 1 <= k <= t.len()
            &&& #[trigger] window_filled(
                t.take(k),
                file,
                READ_CHUNK_BYTES as int,
                Seq::empty(),
                chunk,
            )
            &&& match chunk {
                Err(error) => k == t.len() && result == Err::<(), FsOpError>(error),
                Ok(bytes) => {
                    let end = done + bytes.len();
                    if bytes.len() == 0 {
                        &&& k == t.len()
                        &&& if done == expected.len() {
                            result is Ok
                        } else {
                            result == Err::<(), FsOpError>(FsOpError::VerifyFailed)
                        }
                    } else if end > expected.len() || bytes != expected.subrange(done, end) {
                        k == t.len() && result == Err::<(), FsOpError>(FsOpError::VerifyFailed)
                    } else {
                        contents_checked(t.skip(k), file, expected, end, result)
                    }
                },
            }
        }
}

/// Comparing the file at `path` with `expected`, byte by byte.
pub open spec fn file_verified<D, F>(
    t: Seq<Call<D, F>>,
    path: Seq<char>,
    expected: Seq<u8>,
    result: Result<(), FsOpError>,
) -> bool {
    exists|k: int, opened: Result<F, FsOpError>|
        {
            &&& 0 <= k <= t.len()
            &&& #[trigger] file_opened(t.take(k), path, OpenMode::ReadOnly, opened)
            &&& match opened {
                Err(error) => k == t.len() && result == Err::<(), FsOpError>(error),
                Ok(file) => {
                    &&& k < t.len()
                    &&& contents_checked(t.subrange(k, t.len() - 1), file, expected, 0, result)
                    &&& t.last() matches Call::CloseFile { file: f, .. } && f == file
                },
            }
        }
}

/// The first failure of two steps.
pub open spec fn first_failure(
    first: Result<(), FsOpError>,
    second: Result<(), FsOpError>,
) -> Result<(), FsOpError> {
    if first is Err { first } else { second }
}

/// Replacing the contents of the file at `path`. The file is closed even where
/// the write fails.
pub open spec fn file_written<D, F>(
    t: Seq<Call<D, F>>,
    path: Seq<char>,
    contents: Seq<u8>,
    result: Result<(), FsOpError>,
) -> bool {
    exists|k: int, opened: Result<F, FsOpError>|
        {
            &&& 0 <= k <= t.len()
            &&& #[trigger] file_opened(t.take(k), path, OpenMode::ReadWriteCreateOrTruncate, opened)
            &&& match opened {
                Err(error) => k == t.len() && result == Err::<(), FsOpError>(error),
                Ok(file) => {
                    &&& t.len() == k + 2
                    &&& t[k] matches Call::Write { file: f, bytes, reply: written } && {
                        &&& f == file
                        &&& bytes == contents
                        &&& t[k + 1] matches Call::CloseFile { file: g, reply: closed } && {
                            &&& g == file
                            &&& result == first_failure(op_result(written), op_result(closed))
                        }
                    }
                },
            }
        }
}

/// Replacing the contents of the file at `path` and reading every byte back.
pub open spec fn file_saved<D, F>(
    t: Seq<Call<D, F>>,
    path: Seq<char>,
    contents: Seq<u8>,
    result: Result<(), FsOpError>,
) -> bool {
    exists|k: int, written: Result<(), FsOpError>|
        {
            &&& 0 <= k <= t.len()
            &&& #[trigger] file_written(t.take(k), path, contents, written)
            &&& if written is Err {
                k == t.len() && result == written
            } else {
                file_verified(t.skip(k), path, contents, result)
            }
        }
}

/// Streaming the rest of `source` into `destination`.
pub open spec fn streamed<D, F>(
    t: Seq<Call<D, F>>,
    source: F,
    destination: F,
    chunks_left: int,
    result: Result<(), FsOpError>,
) -> bool
    decreases t.len(),
{
    if chunks_left <= 0 {
        t.len() == 0 && result == Err::<(), FsOpError>(endless_file())
    } else {
        &&& t.len() >= 1
        &&& t[0] matches Call::Read { file, limit, reply } && file == source && limit
            == COPY_CHUNK_BYTES && match reply {
            Err(error) => t.len() == 1 && result == Err::<(), FsOpError>(op_error(error)),
            Ok(chunk) => if chunk.len() == 0 {
                t.len() == 1 && result is Ok
            } else {
                &&& t.len() >= 2
                &&& t[1] matches Call::Write { file: f, bytes, reply: written } && f == destination
                    && bytes == chunk && match written {
                    Err(error) => t.len() == 2 && result == Err::<(), FsOpError>(op_error(error)),
                    Ok(_) => streamed(t.skip(2), source, destination, chunks_left - 1, result),
                }
            },
        }
    }
}

/// Copying the open file `source` to the path `to`.
pub open spec fn copied_to<D, F>(
    t: Seq<Call<D, F>>,
    source: F,
    to: Seq<char>,
    mode: OpenMode,
    result: Result<(), FsOpError>,
) -> bool {
    exists|k: int, opened: Result<F, FsOpError>|
        {
            &&& 0 <= k <= t.len()
            &&& #[trigger] file_opened(t.take(k), to, mode, opened)
            &&& match opened {
                Err(error) => k == t.len() && result == Err::<(), FsOpError>(error),
                Ok(destination) => {
                    &&& k < t.len()
                    &&& t.last() matches Call::CloseFile { file, reply } && file == destination
                        && exists|outcome: Result<(), FsOpError>| #[trigger]
                        streamed(
                            t.subrange(k, t.len() - 1),
                            source,
                            destination,
                            MAX_CHUNKS as int,
                            outcome,
                        ) && result == first_failure(outcome, op_result(reply))
                },
            }
        }
}

/// Comparing the rests of two open files.
pub open spec fn contents_compared<D, F>(
    t: Seq<Call<D, F>>,
    left: F,
    right: F,
    chunks_left: int,
    result: Result<(), FsOpError>,
) -> bool
    decreases t.len(),
{
    if chunks_left <= 0 {
        t.len() == 0 && result == Err::<(), FsOpError>(endless_file())
    } else {
        exists|k: int, chunk: Result<Seq<u8>, FsOpError>|
            {
                &&& 1 <= k <= t.len()
                &&& #[trigger] window_filled(
                    t.take(k),
                    left,
                    COPY_CHUNK_BYTES as int,
                    Seq::empty(),
                    chunk,
                )
                &&& match chunk {
                    Err(error) => k == t.len() && result == Err::<(), FsOpError>(error),
                    Ok(bytes) => chunk_compared(t.skip(k), left, right, bytes, chunks_left, result),
                }
            }
    }
}

/// Comparing `bytes`, read from `left`, with as many from `right`, and going on.
pub open spec fn chunk_compared<D, F>(
    t: Seq<Call<D, F>>,
    left: F,
    right: F,
    bytes: Seq<u8>,
    chunks_left: int,
    result: Result<(), FsOpError>,
) -> bool
    decreases t.len(),
{
    exists|k: int, chunk: Result<Seq<u8>, FsOpError>|
        {
            &&& 1 <= k <= t.len()
            &&& #[trigger] window_filled(
                t.take(k),
                right,
                COPY_CHUNK_BYTES as int,
                Seq::empty(),
                chunk,
            )
            &&& match chunk {
                Err(error) => k == t.len() && result == Err::<(), FsOpError>(error),
                Ok(others) => if others != bytes {
                    k == t.len() && result == Err::<(), FsOpError>(FsOpError::VerifyFailed)
                } else if bytes.len() == 0 {
                    k == t.len() && result is Ok
                } else {
                    contents_compared(t.skip(k), left, right, chunks_left - 1, result)
                },
            }
        }
}

/// Comparing the open file `left` with the file at the path `right`.
pub open spec fn compared_with<D, F>(
    t: Seq<Call<D, F>>,
    left: F,
    right: Seq<char>,
    result: Result<(), FsOpError>,
) -> bool {
    exists|k: int, opened: Result<F, FsOpError>|
        {
            &&& 0 <= k <= t.len()
            &&& #[trigger] file_opened(t.take(k), right, OpenMode::ReadOnly, opened)
            &&& match opened {
                Err(error) => k == t.len() && result == Err::<(), FsOpError>(error),
                Ok(file) => {
                    &&& k < t.len()
                    &&& contents_compared(
                        t.subrange(k, t.len() - 1),
                        left,
                        file,
                        MAX_CHUNKS as int,
                        result,
                    )
                    &&& t.last() matches Call::CloseFile { file: f, .. } && f == file
                },
            }
        }
}

/// Comparing the files at two paths, byte by byte.
pub open spec fn files_compared<D, F>(
    t: Seq<Call<D, F>>,
    left: Seq<char>,
    right: Seq<char>,
    result: Result<(), FsOpError>,
) -> bool {
    exists|k: int, opened: Result<F, FsOpError>|
        {
            &&& 0 <= k <= t.len()
            &&& #[trigger] file_opened(t.take(k), left, OpenMode::ReadOnly, opened)
            &&& match opened {
                Err(error) => k == t.len() && result == Err::<(), FsOpError>(error),
                Ok(file) => {
                    &&& k < t.len()
                    &&& compared_with(t.subrange(k, t.len() - 1), file, right, result)
                    &&& t.last() matches Call::CloseFile { file: f, .. } && f == file
                },
            }
        }
}

/// Copying the file at `from` to `to` and comparing the two.
pub open spec fn file_copied<D, F>(
    t: Seq<Call<D, F>>,
    from: Seq<char>,
    to: Seq<char>,
    mode: OpenMode,
    result: Result<(), FsOpError>,
) -> bool {
    exists|k: int, opened: Result<F, FsOpError>|
        {
            &&& 0 <= k <= t.len()
            &&& #[trigger] file_opened(t.take(k), from, OpenMode::ReadOnly, opened)
            &&& match opened {
                Err(error) => k == t.len() && result == Err::<(), FsOpError>(error),
                Ok(source) => copied_from(t.skip(k), source, from, to, mode, result),
            }
        }
}

/// Copying the open file `source` to `to`, closing it, and comparing the two.
pub open spec fn copied_from<D, F>(
    t: Seq<Call<D, F>>,
    source: F,
    from: Seq<char>,
    to: Seq<char>,
    mode: OpenMode,
    result: Result<(), FsOpError>,
) -> bool {
    exists|k: int, copied: Result<(), FsOpError>|
        {
            &&& 0 <= k < t.len()
            &&& #[trigger] copied_to(t.take(k), source, to, mode, copied)
            &&& t[k] matches Call::CloseFile { file, .. } && file == source
            &&& if copied is Err {
                t.len() == k + 1 && result == copied
            } else {
                files_compared(t.skip(k + 1), from, to, result)
            }
        }
}

/// A stretch of calls that opens something, works with it and closes it.
pub proof fn closed_after<T>(start: Seq<T>, opened: Seq<T>, worked: Seq<T>, close: T)
    requires
        extends(start, opened),
        extends(opened, worked),
    ensures
        ({
            let t = since(start, worked.push(close));
            let k = since(start, opened).len() as int;
            &&& extends(start, worked.push(close))
            &&& k < t.len()
            &&& t.take(k) == since(start, opened)
            &&& t.subrange(k, t.len() - 1) == since(opened, worked)
            &&& t.last() == close
        }),
{
    let t = since(start, worked.push(close));
    let k = since(start, opened).len() as int;
    cut(start, opened, worked);
    one_more(start, worked, close);
    assert(t.take(k) =~= since(start, worked).take(k));
    assert(t.subrange(k, t.len() - 1) =~= since(opened, worked));
}

/// The calls of an operation that stopped where it could not open.
pub proof fn whole_stretch<T>(t: Seq<T>)
    ensures
        t.take(t.len() as int) == t,
{
    assert(t.take(t.len() as int) =~= t);
}

/// The bytes of a result.
pub open spec fn bytes_view(result: Result<Vec<u8>, FsOpError>) -> Result<Seq<u8>, FsOpError> {
    match result {
        Ok(bytes) => Ok(bytes@),
        Err(error) => Err(error),
    }
}

impl<M: VolumeAccess> Volume<M> {
    fn read_open_file(&mut self, file: M::File) -> (result: Result<Vec<u8>, FsOpError>)
        ensures
            extends(old(self).calls(), final(self).calls()),
            read_to_end(
                since(old(self).calls(), final(self).calls()),
                file,
                Seq::empty(),
                bytes_view(result),
            ),
    {
        let ghost start = self.calls();
        let mut bytes: Vec<u8> = Vec::new();
        proof {
            no_more(start);
            assert forall|rest: Seq<Call<M::Dir, M::File>>, r: Result<Seq<u8>, FsOpError>|
                read_to_end(rest, file, bytes@, r) implies #[trigger] read_to_end(
                since(start, self.calls()) + rest,
                file,
                Seq::empty(),
                r,
            ) by {
                assert(since(start, self.calls()) + rest =~= rest);
                assert(bytes@ =~= Seq::empty());
            }
        }
        loop
            invariant
                start == old(self).calls(),
                extends(start, self.calls()),
                forall|rest: Seq<Call<M::Dir, M::File>>, r: Result<Seq<u8>, FsOpError>|
                    read_to_end(rest, file, bytes@, r) ==> #[trigger] read_to_end(
                        since(start, self.calls()) + rest,
                        file,
                        Seq::empty(),
                        r,
                    ),
            decreases usize::MAX - bytes@.len(),
        {
            let ghost before = self.calls();
            let ghost held = bytes@;
            let reply = self.read(file, READ_CHUNK_BYTES);
            let ghost event = Call::<M::Dir, M::File>::Read {
                file,
                limit: READ_CHUNK_BYTES,
                reply: read_reply(reply),
            };
            proof {
                one_more(start, before, event);
            }
            match reply {
                Err(error) => {
                    let error = FsOpError::from(error);
                    assert(read_to_end(seq![event], file, held, Err(error)));
                    return Err(error);
                },
                Ok(chunk) => {
                    if chunk.len() == 0 {
                        assert(read_to_end(seq![event], file, held, Ok(held)));
                        return Ok(bytes);
                    }
                    bytes.extend_from_slice(chunk.as_slice());
                    proof {
                        assert(bytes@ =~= held + chunk@);
                        let len = bytes.len();
                        assert forall|
                            rest: Seq<Call<M::Dir, M::File>>,
                            r: Result<Seq<u8>, FsOpError>,
                        | read_to_end(rest, file, bytes@, r) implies #[trigger] read_to_end(
                            since(start, self.calls()) + rest,
                            file,
                            Seq::empty(),
                            r,
                        ) by {
                            let more = seq![event] + rest;
                            assert(more.skip(1) =~= rest);
                            assert(read_to_end(more, file, held, r));
                            assert(since(start, before) + more =~= since(start, self.calls())
                                + rest);
                        }
                    }
                },
            }
        }
    }

    /// Read the whole file at `path`.
    pub fn read_file(&mut self, path: &str) -> (result: Result<Vec<u8>, FsOpError>)
        ensures
            extends(old(self).calls(), final(self).calls()),
            file_read(since(old(self).calls(), final(self).calls()), path@, bytes_view(result)),
    {
        let ghost start = self.calls();
        let opened = self.open_file_at(path, OpenMode::ReadOnly);
        let ghost handle = opened;
        let ghost after_open = self.calls();
        proof {
            whole_stretch(since(start, after_open));
        }
        let file = match opened {
            Ok(file) => file,
            Err(error) => return Err(error),
        };
        let result = self.read_open_file(file);
        let ghost worked = self.calls();
        let reply = self.close_file(file);
        proof {
            closed_after(start, after_open, worked, Call::CloseFile { file, reply });
            let t = since(start, self.calls());
            let k = since(start, after_open).len() as int;
            assert(file_opened(t.take(k), path@, OpenMode::ReadOnly, handle));
        }
        result
    }

    /// Fill a window of `size` bytes from `file`; less is there only at its end.
    fn read_full(&mut self, file: M::File, size: usize) -> (result: Result<Vec<u8>, FsOpError>)
        requires
            size > 0,
        ensures
            extends(old(self).calls(), final(self).calls()),
            window_filled(
                since(old(self).calls(), final(self).calls()),
                file,
                size as int,
                Seq::empty(),
                bytes_view(result),
            ),
            since(old(self).calls(), final(self).calls()).len() >= 1,
            result matches Ok(bytes) ==> bytes@.len() <= size,
    {
        let ghost start = self.calls();
        let mut bytes: Vec<u8> = Vec::new();
        proof {
            no_more(start);
            assert forall|rest: Seq<Call<M::Dir, M::File>>, r: Result<Seq<u8>, FsOpError>|
                window_filled(rest, file, size as int, bytes@, r) implies #[trigger] window_filled(
                since(start, self.calls()) + rest,
                file,
                size as int,
                Seq::empty(),
                r,
            ) by {
                assert(since(start, self.calls()) + rest =~= rest);
                assert(bytes@ =~= Seq::empty());
            }
        }
        while bytes.len() < size
            invariant
                start == old(self).calls(),
                size > 0,
                bytes@.len() <= size,
                bytes@.len() > 0 ==> since(start, self.calls()).len() >= 1,
                extends(start, self.calls()),
                forall|rest: Seq<Call<M::Dir, M::File>>, r: Result<Seq<u8>, FsOpError>|
                    window_filled(rest, file, size as int, bytes@, r) ==> #[trigger] window_filled(
                        since(start, self.calls()) + rest,
                        file,
                        size as int,
                        Seq::empty(),
                        r,
                    ),
            decreases size - bytes@.len(),
        {
            let ghost before = self.calls();
            let ghost held = bytes@;
            let limit: usize = size - bytes.len();
            let reply = self.read(file, limit);
            let ghost event = Call::<M::Dir, M::File>::Read {
                file,
                limit,
                reply: read_reply(reply),
            };
            proof {
                one_more(start, before, event);
            }
            match reply {
                Err(error) => {
                    let error = FsOpError::from(error);
                    assert(window_filled(seq![event], file, size as int, held, Err(error)));
                    return Err(error);
                },
                Ok(chunk) => {
                    if chunk.len() == 0 {
                        assert(window_filled(seq![event], file, size as int, held, Ok(held)));
                        return Ok(bytes);
                    }
                    bytes.extend_from_slice(chunk.as_slice());
                    proof {
                        assert(bytes@ =~= held + chunk@);
                        assert forall|
                            rest: Seq<Call<M::Dir, M::File>>,
                            r: Result<Seq<u8>, FsOpError>,
                        | window_filled(rest, file, size as int, bytes@, r) implies #[trigger] window_filled(
                            since(start, self.calls()) + rest,
                            file,
                            size as int,
                            Seq::empty(),
                            r,
                        ) by {
                            let more = seq![event] + rest;
                            assert(more.skip(1) =~= rest);
                            assert(window_filled(more, file, size as int, held, r));
                            assert(since(start, before) + more =~= since(start, self.calls())
                                + rest);
                        }
                    }
                },
            }
        }
        proof {
            assert(window_filled(
                Seq::<Call<M::Dir, M::File>>::empty(),
                file,
                size as int,
                bytes@,
                Ok(bytes@),
            ));
            assert(since(start, self.calls()) + Seq::empty() =~= since(start, self.calls()));
        }
        Ok(bytes)
    }

    /// Replace the contents of the file at `path`.
    fn write_file(&mut self, path: &str, contents: &[u8]) -> (result: Result<(), FsOpError>)
        ensures
            extends(old(self).calls(), final(self).calls()),
            file_written(since(old(self).calls(), final(self).calls()), path@, contents@, result),
    {
        let ghost start = self.calls();
        let opened = self.open_file_at(path, OpenMode::ReadWriteCreateOrTruncate);
        let ghost handle = opened;
        let ghost after_open = self.calls();
        proof {
            whole_stretch(since(start, after_open));
        }
        let file = match opened {
            Ok(file) => file,
            Err(error) => return Err(error),
        };
        let written = self.write(file, contents);
        let ghost worked = self.calls();
        let closed = self.close_file(file);
        let ghost write_reply = written;
        let ghost close_reply = closed;
        proof {
            let write = Call::<M::Dir, M::File>::Write { file, bytes: contents@, reply: written };
            no_more(after_open);
            one_more(after_open, after_open, write);
            assert(since(after_open, worked) =~= seq![write]);
            closed_after(start, after_open, worked, Call::CloseFile { file, reply: closed });
            let t = since(start, self.calls());
            let k = since(start, after_open).len() as int;
            assert(t[k] == t.subrange(k, t.len() - 1)[0]);
            assert(file_opened(t.take(k), path@, OpenMode::ReadWriteCreateOrTruncate, handle));
        }
        let written = to_op_result(written);
        let closed = to_op_result(closed);
        if written.is_err() {
            written
        } else {
            closed
        }
    }

    fn check_contents(&mut self, file: M::File, expected: &[u8]) -> (result: Result<(), FsOpError>)
        ensures
            extends(old(self).calls(), final(self).calls()),
            contents_checked(
                since(old(self).calls(), final(self).calls()),
                file,
                expected@,
                0,
                result,
            ),
    {
        let ghost start = self.calls();
        let mut done: usize = 0;
        proof {
            no_more(start);
            assert forall|rest: Seq<Call<M::Dir, M::File>>, r: Result<(), FsOpError>|
                contents_checked(rest, file, expected@, 0, r) implies #[trigger] contents_checked(
                since(start, self.calls()) + rest,
                file,
                expected@,
                0,
                r,
            ) by {
                assert(since(start, self.calls()) + rest =~= rest);
            }
        }
        loop
            invariant
                start == old(self).calls(),
                done <= expected@.len(),
                extends(start, self.calls()),
                forall|rest: Seq<Call<M::Dir, M::File>>, r: Result<(), FsOpError>|
                    contents_checked(rest, file, expected@, done as int, r)
                        ==> #[trigger] contents_checked(
                        since(start, self.calls()) + rest,
                        file,
                        expected@,
                        0,
                        r,
                    ),
            decreases expected@.len() - done,
        {
            let ghost before = self.calls();
            let ghost from = done as int;
            let chunk = self.read_full(file, READ_CHUNK_BYTES);
            let ghost seen = bytes_view(chunk);
            let ghost t = since(before, self.calls());
            let ghost k = t.len() as int;
            proof {
                cut(start, before, self.calls());
                assert(since(start, self.calls()) =~= since(start, before) + t);
                whole_stretch(t);
                assert(window_filled(t.take(k), file, READ_CHUNK_BYTES as int, Seq::empty(), seen));
            }
            let bytes = match chunk {
                Err(error) => {
                    assert(contents_checked(t, file, expected@, from, Err(error)));
                    return Err(error);
                },
                Ok(bytes) => bytes,
            };
            if bytes.len() == 0 {
                if done == expected.len() {
                    let result: Result<(), FsOpError> = Ok(());
                    assert(contents_checked(t, file, expected@, from, result));
                    return result;
                } else {
                    assert(contents_checked(t, file, expected@, from, Err(FsOpError::VerifyFailed)));
                    return Err(FsOpError::VerifyFailed);
                }
            }
            if expected.len() - done < bytes.len() || !holds(expected, done, bytes.as_slice()) {
                assert(contents_checked(t, file, expected@, from, Err(FsOpError::VerifyFailed)));
                return Err(FsOpError::VerifyFailed);
            }
            done = done + bytes.len();
            proof {
                assert forall|rest: Seq<Call<M::Dir, M::File>>, r: Result<(), FsOpError>|
                    contents_checked(rest, file, expected@, done as int, r)
                    implies #[trigger] contents_checked(
                    since(start, self.calls()) + rest,
                    file,
                    expected@,
                    0,
                    r,
                ) by {
                    let more = t + rest;
                    assert(more.take(k) =~= t.take(k));
                    assert(more.skip(k) =~= rest);
                    assert(window_filled(
                        more.take(k),
                        file,
                        READ_CHUNK_BYTES as int,
                        Seq::empty(),
                        seen,
                    ));
                    assert(contents_checked(more, file, expected@, from, r));
                    assert(since(start, before) + more =~= since(start, self.calls()) + rest);
                }
            }
        }
    }

    /// Compare the file at `path` with `expected`, byte by byte.
    fn verify_file(&mut self, path: &str, expected: &[u8]) -> (result: Result<(), FsOpError>)
        ensures
            extends(old(self).calls(), final(self).calls()),
            file_verified(since(old(self).calls(), final(self).calls()), path@, expected@, result),
    {
        let ghost start = self.calls();
        let opened = self.open_file_at(path, OpenMode::ReadOnly);
        let ghost handle = opened;
        let ghost after_open = self.calls();
        proof {
            whole_stretch(since(start, after_open));
        }
        let file = match opened {
            Ok(file) => file,
            Err(error) => return Err(error),
        };
        let result = self.check_contents(file, expected);
        let ghost worked = self.calls();
        let reply = self.close_file(file);
        proof {
            closed_after(start, after_open, worked, Call::CloseFile { file, reply });
            let t = since(start, self.calls());
            let k = since(start, after_open).len() as int;
            assert(file_opened(t.take(k), path@, OpenMode::ReadOnly, handle));
        }
        result
    }

    /// Replace the contents of the file at `path` and verify every byte by
    /// reading it back. Writes are durable only once the file is closed.
    pub fn save_file(&mut self, path: &str, contents: &[u8]) -> (result: Result<(), FsOpError>)
        ensures
            extends(old(self).calls(), final(self).calls()),
            file_saved(since(old(self).calls(), final(self).calls()), path@, contents@, result),
    {
        let ghost start = self.calls();
        let written = self.write_file(path, contents);
        let ghost wrote = written;
        let ghost middle = self.calls();
        proof {
            whole_stretch(since(start, middle));
            assert(file_written(
                since(start, middle).take(since(start, middle).len() as int),
                path@,
                contents@,
                wrote,
            ));
        }
        if written.is_err() {
            return written;
        }
        let result = self.verify_file(path, contents);
        proof {
            cut(start, middle, self.calls());
            assert(file_written(
                since(start, self.calls()).take(since(start, middle).len() as int),
                path@,
                contents@,
                wrote,
            ));
        }
        result
    }

    fn stream(&mut self, source: M::File, destination: M::File) -> (result: Result<(), FsOpError>)
        ensures
            extends(old(self).calls(), final(self).calls()),
            streamed(
                since(old(self).calls(), final(self).calls()),
                source,
                destination,
                MAX_CHUNKS as int,
                result,
            ),
    {
        let ghost start = self.calls();
        let mut left: u64 = MAX_CHUNKS;
        proof {
            no_more(start);
            assert forall|rest: Seq<Call<M::Dir, M::File>>, r: Result<(), FsOpError>|
                streamed(rest, source, destination, left as int, r) implies #[trigger] streamed(
                since(start, self.calls()) + rest,
                source,
                destination,
                MAX_CHUNKS as int,
                r,
            ) by {
                assert(since(start, self.calls()) + rest =~= rest);
            }
        }
        while left > 0
            invariant
                start == old(self).calls(),
                extends(start, self.calls()),
                forall|rest: Seq<Call<M::Dir, M::File>>, r: Result<(), FsOpError>|
                    streamed(rest, source, destination, left as int, r) ==> #[trigger] streamed(
                        since(start, self.calls()) + rest,
                        source,
                        destination,
                        MAX_CHUNKS as int,
                        r,
                    ),
            decreases left,
        {
            let ghost before = self.calls();
            let reply = self.read(source, COPY_CHUNK_BYTES);
            let ghost read = Call::<M::Dir, M::File>::Read {
                file: source,
                limit: COPY_CHUNK_BYTES,
                reply: read_reply(reply),
            };
            let ghost after_read = self.calls();
            proof {
                one_more(start, before, read);
            }
            let chunk = match reply {
                Err(error) => {
                    let error = FsOpError::from(error);
                    assert(streamed(seq![read], source, destination, left as int, Err(error)));
                    return Err(error);
                },
                Ok(chunk) => chunk,
            };
            if chunk.len() == 0 {
                let result: Result<(), FsOpError> = Ok(());
                assert(streamed(seq![read], source, destination, left as int, result));
                return result;
            }
            let written = self.write(destination, chunk.as_slice());
            let ghost write = Call::<M::Dir, M::File>::Write {
                file: destination,
                bytes: chunk@,
                reply: written,
            };
            proof {
                one_more(start, after_read, write);
                assert(since(start, self.calls()) =~= since(start, before) + seq![read, write]);
            }
            match written {
                Err(error) => {
                    let error = FsOpError::from(error);
                    assert(streamed(seq![read, write], source, destination, left as int, Err(error)));
                    return Err(error);
                },
                Ok(()) => {},
            }
            let ghost had = left as int;
            left = left - 1;
            proof {
                assert forall|rest: Seq<Call<M::Dir, M::File>>, r: Result<(), FsOpError>|
                    streamed(rest, source, destination, left as int, r) implies #[trigger] streamed(
                    since(start, self.calls()) + rest,
                    source,
                    destination,
                    MAX_CHUNKS as int,
                    r,
                ) by {
                    let more = seq![read, write] + rest;
                    assert(more.skip(2) =~= rest);
                    assert(streamed(more, source, destination, had, r));
                    assert(since(start, before) + more =~= since(start, self.calls()) + rest);
                }
            }
        }
        let error = FsOpError::Fs(VolumeError::EndOfFile);
        proof {
            assert(streamed(
                Seq::<Call<M::Dir, M::File>>::empty(),
                source,
                destination,
                0,
                Err(error),
            ));
            assert(since(start, self.calls()) + Seq::empty() =~= since(start, self.calls()));
        }
        Err(error)
    }

    fn copy_open_file(&mut self, source: M::File, to: &str, mode: OpenMode) -> (result: Result<
        (),
        FsOpError,
    >)
        ensures
            extends(old(self).calls(), final(self).calls()),
            copied_to(since(old(self).calls(), final(self).calls()), source, to@, mode, result),
    {
        let ghost start = self.calls();
        let opened = self.open_file_at(to, mode);
        let ghost handle = opened;
        let ghost after_open = self.calls();
        proof {
            whole_stretch(since(start, after_open));
        }
        let destination = match opened {
            Ok(file) => file,
            Err(error) => return Err(error),
        };
        let outcome = self.stream(source, destination);
        let ghost stream_outcome = outcome;
        let ghost worked = self.calls();
        let reply = self.close_file(destination);
        let ghost close_reply = reply;
        proof {
            closed_after(
                start,
                after_open,
                worked,
                Call::CloseFile { file: destination, reply: close_reply },
            );
            let t = since(start, self.calls());
            let k = since(start, after_open).len() as int;
            assert(file_opened(t.take(k), to@, mode, handle));
            assert(streamed(
                t.subrange(k, t.len() - 1),
                source,
                destination,
                MAX_CHUNKS as int,
                stream_outcome,
            ));
        }
        let closed = to_op_result(reply);
        if outcome.is_err() {
            outcome
        } else {
            closed
        }
    }

    /// Copy the file at `from` to `to` through a fixed window, and prove the copy
    /// by comparing the two. `mode` decides whether an existing destination is an
    /// error or is overwritten.
    pub fn copy_file_contents(&mut self, from: &str, to: &str, mode: OpenMode) -> (result: Result<
        (),
        FsOpError,
    >)
        ensures
            extends(old(self).calls(), final(self).calls()),
            file_copied(since(old(self).calls(), final(self).calls()), from@, to@, mode, result),
    {
        let ghost start = self.calls();
        let opened = self.open_file_at(from, OpenMode::ReadOnly);
        let ghost handle = opened;
        let ghost after_open = self.calls();
        let ghost k = since(start, after_open).len() as int;
        proof {
            whole_stretch(since(start, after_open));
        }
        let source = match opened {
            Ok(file) => file,
            Err(error) => return Err(error),
        };
        let copied = self.copy_open_file(source, to, mode);
        let ghost outcome = copied;
        let ghost worked = self.calls();
        let ghost n = since(after_open, worked).len() as int;
        let reply = self.close_file(source);
        let ghost closed = self.calls();
        let ghost close = Call::<M::Dir, M::File>::CloseFile { file: source, reply };
        proof {
            one_more(after_open, worked, close);
            cut(start, after_open, closed);
            let u = since(after_open, closed);
            assert(u.take(n) =~= since(after_open, worked));
            assert(u[n] == close);
            assert(copied_to(u.take(n), source, to@, mode, outcome));
            assert(file_opened(since(start, closed).take(k), from@, OpenMode::ReadOnly, handle));
        }
        if copied.is_err() {
            assert(copied_from(since(after_open, closed), source, from@, to@, mode, outcome));
            return copied;
        }
        let result = self.compare_files(from, to);
        proof {
            cut(after_open, closed, self.calls());
            cut(start, after_open, self.calls());
            let u = since(after_open, self.calls());
            assert(u.skip(n + 1) == since(closed, self.calls()));
            assert(u.take(n) =~= since(after_open, closed).take(n));
            assert(u[n] == u.take(n + 1)[n]);
            assert(copied_to(u.take(n), source, to@, mode, outcome));
            assert(copied_from(u, source, from@, to@, mode, result));
            assert(file_opened(
                since(start, self.calls()).take(k),
                from@,
                OpenMode::ReadOnly,
                handle,
            ));
        }
        result
    }

    fn compare_contents(&mut self, left: M::File, right: M::File) -> (result: Result<(), FsOpError>)
        ensures
            extends(old(self).calls(), final(self).calls()),
            contents_compared(
                since(old(self).calls(), final(self).calls()),
                left,
                right,
                MAX_CHUNKS as int,
                result,
            ),
    {
        let ghost start = self.calls();
        let mut chunks: u64 = MAX_CHUNKS;
        proof {
            no_more(start);
            assert forall|rest: Seq<Call<M::Dir, M::File>>, r: Result<(), FsOpError>|
                contents_compared(rest, left, right, chunks as int, r)
                implies #[trigger] contents_compared(
                since(start, self.calls()) + rest,
                left,
                right,
                MAX_CHUNKS as int,
                r,
            ) by {
                assert(since(start, self.calls()) + rest =~= rest);
            }
        }
        while chunks > 0
            invariant
                start == old(self).calls(),
                extends(start, self.calls()),
                forall|rest: Seq<Call<M::Dir, M::File>>, r: Result<(), FsOpError>|
                    contents_compared(rest, left, right, chunks as int, r)
                        ==> #[trigger] contents_compared(
                        since(start, self.calls()) + rest,
                        left,
                        right,
                        MAX_CHUNKS as int,
                        r,
                    ),
            decreases chunks,
        {
            let ghost before = self.calls();
            let left_chunk = self.read_full(left, COPY_CHUNK_BYTES);
            let ghost left_seen = bytes_view(left_chunk);
            let ghost middle = self.calls();
            let ghost a = since(before, middle);
            let ghost k = a.len() as int;
            proof {
                cut(start, before, middle);
                assert(since(start, middle) =~= since(start, before) + a);
                whole_stretch(a);
                assert(window_filled(a.take(k), left, COPY_CHUNK_BYTES as int, Seq::empty(), left_seen));
            }
            let left_bytes = match left_chunk {
                Err(error) => {
                    assert(contents_compared(a, left, right, chunks as int, Err(error)));
                    return Err(error);
                },
                Ok(bytes) => bytes,
            };
            let right_chunk = self.read_full(right, COPY_CHUNK_BYTES);
            let ghost right_seen = bytes_view(right_chunk);
            let ghost b = since(middle, self.calls());
            let ghost n = b.len() as int;
            let ghost t = since(before, self.calls());
            proof {
                cut(before, middle, self.calls());
                cut(start, before, self.calls());
                assert(since(start, self.calls()) =~= since(start, before) + t);
                whole_stretch(b);
                assert(window_filled(t.take(k), left, COPY_CHUNK_BYTES as int, Seq::empty(), left_seen));
                assert(window_filled(b.take(n), right, COPY_CHUNK_BYTES as int, Seq::empty(), right_seen));
            }
            let right_bytes = match right_chunk {
                Err(error) => {
                    assert(chunk_compared(b, left, right, left_bytes@, chunks as int, Err(error)));
                    assert(contents_compared(t, left, right, chunks as int, Err(error)));
                    return Err(error);
                },
                Ok(bytes) => bytes,
            };
            let same = left_bytes.len() == right_bytes.len() && holds(
                left_bytes.as_slice(),
                0,
                right_bytes.as_slice(),
            );
            assert(same == (left_bytes@ == right_bytes@)) by {
                whole_stretch(left_bytes@);
                assert(left_bytes@.subrange(0, left_bytes@.len() as int) =~= left_bytes@);
            }
            if !same {
                let error = FsOpError::VerifyFailed;
                assert(chunk_compared(b, left, right, left_bytes@, chunks as int, Err(error)));
                assert(contents_compared(t, left, right, chunks as int, Err(error)));
                return Err(error);
            }
            if left_bytes.len() == 0 {
                let result: Result<(), FsOpError> = Ok(());
                assert(chunk_compared(b, left, right, left_bytes@, chunks as int, result));
                assert(contents_compared(t, left, right, chunks as int, result));
                return result;
            }
            let ghost had = chunks as int;
            chunks = chunks - 1;
            proof {
                assert forall|rest: Seq<Call<M::Dir, M::File>>, r: Result<(), FsOpError>|
                    contents_compared(rest, left, right, chunks as int, r)
                    implies #[trigger] contents_compared(
                    since(start, self.calls()) + rest,
                    left,
                    right,
                    MAX_CHUNKS as int,
                    r,
                ) by {
                    let more = t + rest;
                    let tail = b + rest;
                    assert(more.take(k) =~= t.take(k));
                    assert(more.skip(k) =~= tail) by {
                        assert(t.skip(k) =~= b);
                    }
                    assert(tail.take(n) =~= b.take(n));
                    assert(tail.skip(n) =~= rest);
                    assert(window_filled(
                        tail.take(n),
                        right,
                        COPY_CHUNK_BYTES as int,
                        Seq::empty(),
                        right_seen,
                    ));
                    assert(chunk_compared(tail, left, right, left_bytes@, had, r));
                    assert(window_filled(
                        more.take(k),
                        left,
                        COPY_CHUNK_BYTES as int,
                        Seq::empty(),
                        left_seen,
                    ));
                    assert(contents_compared(more, left, right, had, r));
                    assert(since(start, before) + more =~= since(start, self.calls()) + rest);
                }
            }
        }
        let error = FsOpError::Fs(VolumeError::EndOfFile);
        proof {
            assert(contents_compared(
                Seq::<Call<M::Dir, M::File>>::empty(),
                left,
                right,
                0,
                Err(error),
            ));
            assert(since(start, self.calls()) + Seq::empty() =~= since(start, self.calls()));
        }
        Err(error)
    }

    fn compare_open_file(&mut self, left: M::File, right: &str) -> (result: Result<(), FsOpError>)
        ensures
            extends(old(self).calls(), final(self).calls()),
            compared_with(since(old(self).calls(), final(self).calls()), left, right@, result),
    {
        let ghost start = self.calls();
        let opened = self.open_file_at(right, OpenMode::ReadOnly);
        let ghost handle = opened;
        let ghost after_open = self.calls();
        proof {
            whole_stretch(since(start, after_open));
        }
        let file = match opened {
            Ok(file) => file,
            Err(error) => return Err(error),
        };
        let result = self.compare_contents(left, file);
        let ghost worked = self.calls();
        let reply = self.close_file(file);
        proof {
            closed_after(start, after_open, worked, Call::CloseFile { file, reply });
            let t = since(start, self.calls());
            let k = since(start, after_open).len() as int;
            assert(file_opened(t.take(k), right@, OpenMode::ReadOnly, handle));
        }
        result
    }

    /// Compare the files at two paths, byte by byte.
    fn compare_files(&mut self, left: &str, right: &str) -> (result: Result<(), FsOpError>)
        ensures
            extends(old(self).calls(), final(self).calls()),
            files_compared(since(old(self).calls(), final(self).calls()), left@, right@, result),
    {
        let ghost start = self.calls();
        let opened = self.open_file_at(left, OpenMode::ReadOnly);
        let ghost handle = opened;
        let ghost after_open = self.calls();
        proof {
            whole_stretch(since(start, after_open));
        }
        let file = match opened {
            Ok(file) => file,
            Err(error) => return Err(error),
        };
        let result = self.compare_open_file(file, right);
        let ghost worked = self.calls();
        let reply = self.close_file(file);
        proof {
            closed_after(start, after_open, worked, Call::CloseFile { file, reply });
            let t = since(start, self.calls());
            let k = since(start, after_open).len() as int;
            assert(file_opened(t.take(k), left@, OpenMode::ReadOnly, handle));
        }
        result
    }
}

} // verus!
