//! What the steps of an operation make of what a card holds.
use vstd::prelude::*;

use crate::contents::{
    call_fits, facts_of, file_opens, holds_file, holds_folder, images, no_full_folder,
    nothing_below, place_of, run, run_first, run_middle, run_parts, same_elsewhere, Card, Entry,
    Naming, OpenFile, Place,
};
use crate::creation::{bare_folder_made, dir_iterated, path_scanned};
use crate::errors::{op_error, FsOpError, VolumeError};
use crate::files::{
    chunk_compared, compared_with, contents_checked, contents_compared, copied_from, copied_to,
    file_copied, file_saved, file_verified, file_written, files_compared, first_failure, streamed,
    window_filled, COPY_CHUNK_BYTES, MAX_CHUNKS, READ_CHUNK_BYTES,
};
use crate::names::{components_of, leaf_of, parent_of};
use crate::removal::{
    delete_attempted, delete_concluded, delete_report, delete_retried, entry_deleted, file_removed,
    path_removed, reclaimed, DELETE_RETRY_ATTEMPTS,
};
use crate::session::{batch_removed, destroys, files_removed, one_file_removed, ChildEntry};
use crate::volume::{Call, EntryFacts, EntryRecord, OpenMode, ScanRuleView};
use crate::walk::{
    ask_find, ask_open_dir, ask_open_file, confirmed, descended, dir_opened, entry_found,
    file_opened, inside, name_found, name_opened, op_result,
};

verus! {

/// A question that is put twice at most changes nothing before its last answer.
pub(crate) proof fn confirmed_runs<D, F, T>(
    id: Naming,
    cs: Seq<Card<D, F>>,
    t: Seq<Call<D, F>>,
    ask: spec_fn(Result<T, VolumeError>) -> Call<D, F>,
    outcome: Result<T, VolumeError>,
)
    requires
        run(id, cs, t),
        confirmed(t, ask, outcome),
        forall|c: Card<D, F>, d: Card<D, F>| #[trigger]
            call_fits(id, c, ask(Err(VolumeError::NotFound)), d) ==> d == c,
    ensures
        call_fits(id, cs[0], ask(outcome), cs.last()),
{
    run_first(id, cs, t);
    if t.len() == 3 {
        run_first(id, cs.skip(1), t.skip(1));
        let u = t.skip(1);
        assert(u[0] == t[1]);
        run_first(id, cs.skip(1).skip(1), u.skip(1));
        assert(u.skip(1)[0] == t[2]);
        assert(cs.skip(1).skip(1)[0] == cs[2]);
        assert(cs.skip(1)[1] == cs[2]);
        assert(cs.skip(1).skip(1)[1] == cs[3]);
    }
}

/// The directory that was opened, if one was, is the only thing that changed.
pub open spec fn dir_gained<D, F>(
    c: Card<D, F>,
    d: Card<D, F>,
    directory: Seq<Seq<char>>,
    opened: Result<D, FsOpError>,
) -> bool {
    &&& d.entries == c.entries && d.files == c.files
    &&& match opened {
        Ok(dir) => !c.dirs.contains_key(dir) && d.dirs == c.dirs.insert(dir, directory),
        Err(error) => d.dirs == c.dirs && (error.says_not_found() ==> nothing_below(c, directory)),
    }
}

proof fn descent_runs<D, F>(
    id: Naming,
    base: Card<D, F>,
    cs: Seq<Card<D, F>>,
    t: Seq<Call<D, F>>,
    dir: D,
    at: Seq<Seq<char>>,
    names: Seq<Seq<char>>,
    opened: Result<D, FsOpError>,
)
    requires
        run(id, cs, t),
        descended(t, dir, names, opened),
        !base.dirs.contains_key(dir),
        cs[0] == (Card { dirs: base.dirs.insert(dir, at), ..base }),
    ensures
        dir_gained(base, cs.last(), at + images(id, names), opened),
    decreases names.len(),
{
    if names.len() == 0 {
        assert(at + images(id, names) =~= at);
        assert(cs.last() == cs[0]);
    } else {
        let (k, outcome): (int, Result<D, VolumeError>) = choose|
            k: int,
            outcome: Result<D, VolumeError>,
        |
            {
                &&& 0 <= k < t.len()
                &&& #[trigger] confirmed(t.take(k), ask_open_dir(dir, names[0]), outcome)
                &&& t[k] == Call::<D, F>::CloseDir { dir }
                &&& match outcome {
                    Err(error) => t.len() == k + 1 && opened == Err::<D, FsOpError>(
                        op_error(error),
                    ),
                    Ok(next) => descended(t.skip(k + 1), next, names.skip(1), opened),
                }
            };
        run_parts(id, cs, t, k);
        assert forall|c: Card<D, F>, d: Card<D, F>| #[trigger]
            call_fits(
                id,
                c,
                ask_open_dir::<D, F>(dir, names[0])(Err(VolumeError::NotFound)),
                d,
            ) implies d == c by {}
        confirmed_runs(
            id,
            cs.take(k + 1),
            t.take(k),
            ask_open_dir(dir, names[0]),
            outcome,
        );
        run_first(id, cs.skip(k), t.skip(k));
        assert(t.skip(k)[0] == t[k]);
        assert(cs.skip(k)[1] == cs[k + 1]);
        assert(cs.skip(k).skip(1) =~= cs.skip(k + 1));
        assert(t.skip(k).skip(1) =~= t.skip(k + 1));
        let here = at.push(id(names[0]));
        let rest = images(id, names.skip(1));
        assert(at + images(id, names) =~= here + rest);
        assert(cs[0].dirs[dir] == at);
        match outcome {
            Err(error) => {
                assert(cs[k + 1].dirs =~= base.dirs);
                assert(cs.last() == cs[k + 1]);
                if error is NotFound {
                    assert forall|place: Place| #[trigger]
                        base.entries.contains_key(place) implies !(here + rest).is_prefix_of(
                        place.directory,
                    ) by {
                        assert(cs[0].entries.contains_key(place));
                        if (here + rest).is_prefix_of(place.directory) {
                            assert(here =~= place.directory.take(here.len() as int)) by {
                                assert forall|i: int| 0 <= i < here.len() implies here[i]
                                    == place.directory[i] by {
                                    assert((here + rest)[i] == here[i]);
                                }
                            }
                            assert(here.is_prefix_of(place.directory));
                        }
                    }
                }
            },
            Ok(next) => {
                assert(cs[k + 1].dirs =~= base.dirs.insert(next, here));
                descent_runs(
                    id,
                    base,
                    cs.skip(k + 1),
                    t.skip(k + 1),
                    next,
                    here,
                    names.skip(1),
                    opened,
                );
            },
        }
    }
}

pub(crate) proof fn dir_opening_runs<D, F>(
    id: Naming,
    cs: Seq<Card<D, F>>,
    t: Seq<Call<D, F>>,
    path: Seq<char>,
    opened: Result<D, FsOpError>,
)
    requires
        run(id, cs, t),
        dir_opened(t, path, opened),
    ensures
        dir_gained(cs[0], cs.last(), images(id, components_of(path)), opened),
{
    run_first(id, cs, t);
    match t[0]->OpenRoot_reply {
        Err(_) => {
            assert(cs.last() == cs[1]);
        },
        Ok(root) => {
            let none = Seq::<Seq<char>>::empty();
            descent_runs(
                id,
                cs[0],
                cs.skip(1),
                t.skip(1),
                root,
                none,
                components_of(path),
                opened,
            );
            assert(none + images(id, components_of(path)) =~= images(id, components_of(path)));
        },
    }
}

/// Where the work inside a directory begins and ends.
pub open spec fn worked_in<D, F, R>(
    id: Naming,
    c: Card<D, F>,
    d: Card<D, F>,
    directory: Seq<Seq<char>>,
    body: spec_fn(Seq<Call<D, F>>, D, Result<R, FsOpError>) -> bool,
    result: Result<R, FsOpError>,
) -> bool {
    exists|cs: Seq<Card<D, F>>, t: Seq<Call<D, F>>, dir: D|
        {
            &&& #[trigger] run(id, cs, t)
            &&& !c.dirs.contains_key(dir)
            &&& cs[0] == (Card { dirs: c.dirs.insert(dir, directory), ..c })
            &&& #[trigger] body(t, dir, result)
            &&& d == (Card { dirs: cs.last().dirs.remove(dir), ..cs.last() })
        }
}

/// The directory could not be opened; if it was not found, nothing is in it.
pub open spec fn never_entered<D, F, R>(
    c: Card<D, F>,
    d: Card<D, F>,
    directory: Seq<Seq<char>>,
    result: Result<R, FsOpError>,
) -> bool {
    &&& d == c
    &&& result matches Err(error) && (error.says_not_found() ==> nothing_below(c, directory))
}

pub(crate) proof fn inside_runs<D, F, R>(
    id: Naming,
    cs: Seq<Card<D, F>>,
    t: Seq<Call<D, F>>,
    path: Seq<char>,
    body: spec_fn(Seq<Call<D, F>>, D, Result<R, FsOpError>) -> bool,
    result: Result<R, FsOpError>,
)
    requires
        run(id, cs, t),
        inside(t, path, body, result),
    ensures
        never_entered(cs[0], cs.last(), images(id, components_of(path)), result) || worked_in(
            id,
            cs[0],
            cs.last(),
            images(id, components_of(path)),
            body,
            result,
        ),
{
    let directory = images(id, components_of(path));
    if exists|error: FsOpError| #[trigger]
        dir_opened(t, path, Err::<D, FsOpError>(error)) && result == Err::<R, FsOpError>(error) {
        let error = choose|error: FsOpError| #[trigger]
            dir_opened(t, path, Err::<D, FsOpError>(error)) && result == Err::<R, FsOpError>(error);
        dir_opening_runs(id, cs, t, path, Err::<D, FsOpError>(error));
    } else {
        let (k, dir): (int, D) = choose|k: int, dir: D|
            {
                &&& 0 <= k < t.len()
                &&& #[trigger] dir_opened(t.take(k), path, Ok::<D, FsOpError>(dir))
                &&& t.last() == Call::<D, F>::CloseDir { dir }
                &&& body(t.subrange(k, t.len() - 1), dir, result)
            };
        run_middle(id, cs, t, k);
        dir_opening_runs(id, cs.take(k + 1), t.take(k), path, Ok::<D, FsOpError>(dir));
        let inner = cs.subrange(k, t.len() as int);
        let calls = t.subrange(k, t.len() - 1);
        assert(run(id, inner, calls) && body(calls, dir, result));
    }
}

/// The answer to a lookup is true.
pub open spec fn found_truly<D, F>(
    c: Card<D, F>,
    place: Place,
    reply: Result<EntryFacts, FsOpError>,
) -> bool {
    match reply {
        Ok(facts) => c.entries.contains_key(place) && facts == facts_of(c.entries[place]),
        Err(error) => error.says_not_found() ==> !c.entries.contains_key(place),
    }
}

/// Looking up an entry changes nothing, and is answered truly.
pub proof fn lookups_are_true<D, F>(
    id: Naming,
    cs: Seq<Card<D, F>>,
    t: Seq<Call<D, F>>,
    path: Seq<char>,
    reply: Result<EntryFacts, FsOpError>,
)
    requires
        run(id, cs, t),
        entry_found(t, path, reply),
    ensures
        cs.last() == cs[0],
        found_truly(cs[0], place_of(id, path), reply),
{
    let leaf = leaf_of(path);
    let directory = images(id, components_of(parent_of(path)));
    let place = place_of(id, path);
    let body = name_found::<D, F>(leaf);
    inside_runs(id, cs, t, parent_of(path), body, reply);
    if worked_in(id, cs[0], cs.last(), directory, body, reply) {
        let (inner, calls, dir) = choose|inner: Seq<Card<D, F>>, calls: Seq<Call<D, F>>, dir: D|
            {
                &&& #[trigger] run(id, inner, calls)
                &&& !cs[0].dirs.contains_key(dir)
                &&& inner[0] == (Card { dirs: cs[0].dirs.insert(dir, directory), ..cs[0] })
                &&& #[trigger] body(calls, dir, reply)
                &&& cs.last() == (Card { dirs: inner.last().dirs.remove(dir), ..inner.last() })
            };
        let outcome = choose|outcome: Result<EntryFacts, VolumeError>| #[trigger]
            confirmed(calls, ask_find(dir, leaf), outcome) && reply == op_result(outcome);
        assert forall|c: Card<D, F>, d: Card<D, F>| #[trigger]
            call_fits(
                id,
                c,
                ask_find::<D, F>(dir, leaf)(Err(VolumeError::NotFound)),
                d,
            ) implies d == c by {}
        confirmed_runs(id, inner, calls, ask_find(dir, leaf), outcome);
        assert(cs.last().dirs =~= cs[0].dirs);
    } else if reply->Err_0.says_not_found() {
        if cs[0].entries.contains_key(place) {
            assert(directory.is_prefix_of(place.directory));
        }
    }
}

/// Opening a file at a path.
pub(crate) proof fn file_opening_runs<D, F>(
    id: Naming,
    cs: Seq<Card<D, F>>,
    t: Seq<Call<D, F>>,
    path: Seq<char>,
    mode: OpenMode,
    opened: Result<F, FsOpError>,
)
    requires
        run(id, cs, t),
        file_opened(t, path, mode, opened),
    ensures
        file_gained(cs[0], cs.last(), place_of(id, path), mode, opened),
{
    let leaf = leaf_of(path);
    let directory = images(id, components_of(parent_of(path)));
    let body = name_opened::<D, F>(leaf, mode);
    inside_runs(id, cs, t, parent_of(path), body, opened);
    if worked_in(id, cs[0], cs.last(), directory, body, opened) {
        let (inner, calls, dir) = choose|inner: Seq<Card<D, F>>, calls: Seq<Call<D, F>>, dir: D|
            {
                &&& #[trigger] run(id, inner, calls)
                &&& !cs[0].dirs.contains_key(dir)
                &&& inner[0] == (Card { dirs: cs[0].dirs.insert(dir, directory), ..cs[0] })
                &&& #[trigger] body(calls, dir, opened)
                &&& cs.last() == (Card { dirs: inner.last().dirs.remove(dir), ..inner.last() })
            };
        let outcome = choose|outcome: Result<F, VolumeError>| #[trigger]
            confirmed(calls, ask_open_file(dir, leaf, mode), outcome) && opened == op_result(
                outcome,
            );
        assert forall|c: Card<D, F>, d: Card<D, F>| #[trigger]
            call_fits(
                id,
                c,
                ask_open_file::<D, F>(dir, leaf, mode)(Err(VolumeError::NotFound)),
                d,
            ) implies d == c by {}
        confirmed_runs(id, inner, calls, ask_open_file(dir, leaf, mode), outcome);
        assert(cs.last().dirs =~= cs[0].dirs);
    }
}

/// Opening the file at `place`, over the error of an operation.
pub open spec fn file_gained<D, F>(
    c: Card<D, F>,
    d: Card<D, F>,
    place: Place,
    mode: OpenMode,
    opened: Result<F, FsOpError>,
) -> bool {
    match opened {
        Ok(file) => file_opens(c, place, mode, Ok::<F, VolumeError>(file), d),
        Err(error) => {
            &&& d.dirs == c.dirs && d.files == c.files
            &&& same_elsewhere(c, d, place)
            &&& mode == OpenMode::ReadOnly || error is AlreadyExists ==> d.entries == c.entries
        },
    }
}

/// Nothing changed but how far `file` was read.
pub open spec fn read_on<D, F>(c: Card<D, F>, d: Card<D, F>, file: F) -> bool {
    &&& d.entries == c.entries && d.dirs == c.dirs
    &&& d.files == c.files.insert(file, OpenFile { at: d.files[file].at, ..c.files[file] })
}

/// `file` is open, stands at `at`, and holds `stored`.
pub open spec fn stands_at<D, F>(c: Card<D, F>, file: F, at: int, stored: Seq<u8>) -> bool {
    &&& c.files.contains_key(file)
    &&& c.files[file].at == at
    &&& 0 <= at <= stored.len()
    &&& c.entries[c.files[file].place] matches Entry::File { bytes, .. } && bytes == stored
}

pub(crate) proof fn window_runs<D, F>(
    id: Naming,
    cs: Seq<Card<D, F>>,
    t: Seq<Call<D, F>>,
    file: F,
    size: int,
    got: Seq<u8>,
    result: Result<Seq<u8>, FsOpError>,
    at: int,
    stored: Seq<u8>,
)
    requires
        run(id, cs, t),
        window_filled(t, file, size, got, result),
        stands_at(cs[0], file, at, stored),
    ensures
        read_on(cs[0], cs.last(), file),
        result matches Ok(bytes) ==> {
            let end = at + bytes.len() - got.len();
            &&& at <= end <= stored.len()
            &&& stands_at(cs.last(), file, end, stored)
            &&& bytes == got + stored.subrange(at, end)
            &&& bytes.len() < size ==> end == stored.len()
            &&& got.len() <= size ==> bytes.len() <= size
        },
    decreases t.len(),
{
    if got.len() >= size {
        assert(cs.last() == cs[0]);
        assert(cs[0].files.insert(file, cs[0].files[file]) =~= cs[0].files);
        assert(got + stored.subrange(at, at) =~= got);
    } else {
        run_first(id, cs, t);
        match t[0]->Read_reply {
            Err(_) => {
                assert(cs.last() == cs[1]);
                assert(cs[0].files.insert(file, cs[0].files[file]) =~= cs[0].files);
            },
            Ok(bytes) => {
                let next = at + bytes.len();
                if bytes.len() == 0 {
                    assert(cs.last() == cs[1]);
                    assert(got + stored.subrange(at, at) =~= got);
                } else {
                    window_runs(
                        id,
                        cs.skip(1),
                        t.skip(1),
                        file,
                        size,
                        got + bytes,
                        result,
                        next,
                        stored,
                    );
                    assert(read_on(cs[0], cs.last(), file)) by {
                        assert(cs.last().files =~= cs[0].files.insert(
                            file,
                            OpenFile { at: cs.last().files[file].at, ..cs[0].files[file] },
                        ));
                    }
                    if let Ok(all) = result {
                        let end = next + all.len() - (got + bytes).len();
                        assert(all =~= got + stored.subrange(at, end));
                    }
                }
            },
        }
    }
}

pub(crate) proof fn check_runs<D, F>(
    id: Naming,
    cs: Seq<Card<D, F>>,
    t: Seq<Call<D, F>>,
    file: F,
    expected: Seq<u8>,
    done: int,
    result: Result<(), FsOpError>,
    stored: Seq<u8>,
)
    requires
        run(id, cs, t),
        contents_checked(t, file, expected, done, result),
        stands_at(cs[0], file, done, stored),
        0 <= done <= expected.len(),
        stored.take(done) == expected.take(done),
    ensures
        read_on(cs[0], cs.last(), file),
        result is Ok ==> stored == expected,
    decreases t.len(),
{
    let (k, chunk): (int, Result<Seq<u8>, FsOpError>) = choose|
        k: int,
        chunk: Result<Seq<u8>, FsOpError>,
    |
        {
            &&& 1 <= k <= t.len()
            &&& #[trigger] window_filled(
                t.take(k),
                file,
                READ_CHUNK_BYTES as int,
                Seq::empty(),
                chunk,
            )
            &&& match chunk {
                Err(error) => k == t.len() && result == Err::<(), FsOpError>(error),
                Ok(bytes) => {
                    let end = done + bytes.len();
                    if bytes.len() == 0 {
                        &&& k == t.len()
                        &&& if done == expected.len() {
                            result is Ok
                        } else {
                            result == Err::<(), FsOpError>(FsOpError::VerifyFailed)
                        }
                    } else if end > expected.len() || bytes != expected.subrange(done, end) {
                        k == t.len() && result == Err::<(), FsOpError>(FsOpError::VerifyFailed)
                    } else {
                        contents_checked(t.skip(k), file, expected, end, result)
                    }
                },
            }
        };
    run_parts(id, cs, t, k);
    window_runs(
        id,
        cs.take(k + 1),
        t.take(k),
        file,
        READ_CHUNK_BYTES as int,
        Seq::empty(),
        chunk,
        done,
        stored,
    );
    if k == t.len() {
        assert(cs.last() == cs[k]);
        if result is Ok {
            assert(stored =~= stored.take(done));
            assert(expected =~= expected.take(done));
        }
    } else {
        let bytes = chunk->Ok_0;
        let end = done + bytes.len();
        assert(bytes =~= stored.subrange(done, end));
        assert(stored.take(end) =~= stored.take(done) + stored.subrange(done, end));
        assert(expected.take(end) =~= expected.take(done) + expected.subrange(done, end));
        check_runs(id, cs.skip(k), t.skip(k), file, expected, end, result, stored);
        assert(cs.last().files =~= cs[0].files.insert(
            file,
            OpenFile { at: cs.last().files[file].at, ..cs[0].files[file] },
        ));
    }
}

pub(crate) proof fn verify_runs<D, F>(
    id: Naming,
    cs: Seq<Card<D, F>>,
    t: Seq<Call<D, F>>,
    path: Seq<char>,
    expected: Seq<u8>,
    result: Result<(), FsOpError>,
)
    requires
        run(id, cs, t),
        file_verified(t, path, expected, result),
    ensures
        cs.last().entries == cs[0].entries,
        result is Ok ==> holds_file(cs[0], place_of(id, path), expected),
{
    let place = place_of(id, path);
    let (k, opened): (int, Result<F, FsOpError>) = choose|k: int, opened: Result<F, FsOpError>|
        {
            &&& 0 <= k <= t.len()
            &&& #[trigger] file_opened(t.take(k), path, OpenMode::ReadOnly, opened)
            &&& match opened {
                Err(error) => k == t.len() && result == Err::<(), FsOpError>(error),
                Ok(file) => {
                    &&& k < t.len()
                    &&& contents_checked(t.subrange(k, t.len() - 1), file, expected, 0, result)
                    &&& t.last() matches Call::CloseFile { file: f, .. } && f == file
                },
            }
        };
    run_parts(id, cs, t, k);
    file_opening_runs(id, cs.take(k + 1), t.take(k), path, OpenMode::ReadOnly, opened);
    match opened {
        Err(_) => {
            assert(cs.last() == cs[k]);
        },
        Ok(file) => {
            run_middle(id, cs, t, k);
            let stored = cs[0].entries[place]->bytes;
            assert(stored.take(0) =~= expected.take(0));
            check_runs(
                id,
                cs.subrange(k, t.len() as int),
                t.subrange(k, t.len() - 1),
                file,
                expected,
                0,
                result,
                stored,
            );
        },
    }
}

proof fn write_runs<D, F>(
    id: Naming,
    cs: Seq<Card<D, F>>,
    t: Seq<Call<D, F>>,
    path: Seq<char>,
    contents: Seq<u8>,
    result: Result<(), FsOpError>,
)
    requires
        run(id, cs, t),
        file_written(t, path, contents, result),
    ensures
        same_elsewhere(cs[0], cs.last(), place_of(id, path)),
{
    let mode = OpenMode::ReadWriteCreateOrTruncate;
    let place = place_of(id, path);
    let (k, opened): (int, Result<F, FsOpError>) = choose|k: int, opened: Result<F, FsOpError>|
        {
            &&& 0 <= k <= t.len()
            &&& #[trigger] file_opened(t.take(k), path, OpenMode::ReadWriteCreateOrTruncate, opened)
            &&& match opened {
                Err(error) => k == t.len() && result == Err::<(), FsOpError>(error),
                Ok(file) => {
                    &&& t.len() == k + 2
                    &&& t[k] matches Call::Write { file: f, bytes, reply: written } && {
                        &&& f == file
                        &&& bytes == contents
                        &&& t[k + 1] matches Call::CloseFile { file: g, reply: closed } && {
                            &&& g == file
                            &&& result == first_failure(op_result(written), op_result(closed))
                        }
                    }
                },
            }
        };
    run_parts(id, cs, t, k);
    file_opening_runs(id, cs.take(k + 1), t.take(k), path, mode, opened);
    match opened {
        Err(_) => {
            assert(cs.last() == cs[k]);
        },
        Ok(file) => {
            run_middle(id, cs, t, k);
            run_first(id, cs.subrange(k, t.len() as int), t.subrange(k, t.len() - 1));
            assert(t.subrange(k, t.len() - 1)[0] == t[k]);
            assert(cs.subrange(k, t.len() as int)[1] == cs[k + 1]);
            assert(cs[k].entries.remove(place) =~= cs[0].entries.remove(place));
        },
    }
}

/// A file that was saved holds what was to be saved, even on a card that may store wrongly
/// what is written; whatever happens, nothing else on the card changes.
pub proof fn saved_files_hold_their_contents<D, F>(
    id: Naming,
    cs: Seq<Card<D, F>>,
    t: Seq<Call<D, F>>,
    path: Seq<char>,
    contents: Seq<u8>,
    result: Result<(), FsOpError>,
)
    requires
        run(id, cs, t),
        file_saved(t, path, contents, result),
    ensures
        same_elsewhere(cs[0], cs.last(), place_of(id, path)),
        result is Ok ==> holds_file(cs.last(), place_of(id, path), contents),
{
    let (k, written): (int, Result<(), FsOpError>) = choose|k: int, written: Result<(), FsOpError>|
        {
            &&& 0 <= k <= t.len()
            &&& #[trigger] file_written(t.take(k), path, contents, written)
            &&& if written is Err {
                k == t.len() && result == written
            } else {
                file_verified(t.skip(k), path, contents, result)
            }
        };
    run_parts(id, cs, t, k);
    write_runs(id, cs.take(k + 1), t.take(k), path, contents, written);
    if written is Err {
        assert(cs.last() == cs[k]);
    } else {
        verify_runs(id, cs.skip(k), t.skip(k), path, contents, result);
    }
}

/// The same files are open, at the same places; how far they were read may differ.
pub open spec fn open_alike<D, F>(c: Card<D, F>, d: Card<D, F>) -> bool {
    &&& d.dirs == c.dirs
    &&& d.files.dom() == c.files.dom()
    &&& forall|f: F| #[trigger]
        c.files.contains_key(f) ==> d.files[f].place == c.files[f].place && d.files[f].writable
            == c.files[f].writable
}

proof fn stream_runs<D, F>(
    id: Naming,
    cs: Seq<Card<D, F>>,
    t: Seq<Call<D, F>>,
    source: F,
    destination: F,
    chunks_left: int,
    result: Result<(), FsOpError>,
    place: Place,
)
    requires
        run(id, cs, t),
        streamed(t, source, destination, chunks_left, result),
        cs[0].files.contains_key(source),
        cs[0].files.contains_key(destination),
        cs[0].files[destination].place == place,
    ensures
        open_alike(cs[0], cs.last()),
        same_elsewhere(cs[0], cs.last(), place),
    decreases t.len(),
{
    if chunks_left > 0 {
        run_first(id, cs, t);
        assert(open_alike(cs[0], cs[1])) by {
            assert(cs[1].files.dom() =~= cs[0].files.dom());
        }
        match t[0]->Read_reply {
            Err(_) => {
                assert(cs.last() == cs[1]);
            },
            Ok(chunk) => if chunk.len() == 0 {
                assert(cs.last() == cs[1]);
            } else {
                run_first(id, cs.skip(1), t.skip(1));
                assert(t.skip(1)[0] == t[1]);
                assert(cs.skip(1)[1] == cs[2]);
                assert(cs.skip(1).skip(1) =~= cs.skip(2));
                assert(t.skip(1).skip(1) =~= t.skip(2));
                assert(open_alike(cs[1], cs[2])) by {
                    assert forall|f: F| #[trigger] cs[1].files.contains_key(f) implies cs[2].files[f].place
                        == cs[1].files[f].place && cs[2].files[f].writable == cs[1].files[f].writable by {
                        if f != destination {
                            assert(cs[2].files[f] == cs[1].files[f]);
                        }
                    }
                }
                if t[1]->Write_reply is Ok {
                    stream_runs(
                        id,
                        cs.skip(2),
                        t.skip(2),
                        source,
                        destination,
                        chunks_left - 1,
                        result,
                        place,
                    );
                } else {
                    assert(cs.last() == cs[2]);
                }
            },
        }
    } else {
        assert(cs.last() == cs[0]);
    }
}

proof fn copy_to_runs<D, F>(
    id: Naming,
    cs: Seq<Card<D, F>>,
    t: Seq<Call<D, F>>,
    source: F,
    to: Seq<char>,
    mode: OpenMode,
    result: Result<(), FsOpError>,
)
    requires
        run(id, cs, t),
        copied_to(t, source, to, mode, result),
        cs[0].files.contains_key(source),
    ensures
        open_alike(cs[0], cs.last()),
        same_elsewhere(cs[0], cs.last(), place_of(id, to)),
        result is Ok && mode == OpenMode::ReadWriteCreate ==> !cs[0].entries.contains_key(
            place_of(id, to),
        ),
{
    let place = place_of(id, to);
    let (k, opened): (int, Result<F, FsOpError>) = choose|k: int, opened: Result<F, FsOpError>|
        {
            &&& 0 <= k <= t.len()
            &&& #[trigger] file_opened(t.take(k), to, mode, opened)
            &&& match opened {
                Err(error) => k == t.len() && result == Err::<(), FsOpError>(error),
                Ok(destination) => {
                    &&& k < t.len()
                    &&& t.last() matches Call::CloseFile { file, reply } && file == destination
                        && exists|outcome: Result<(), FsOpError>| #[trigger]
                        streamed(
                            t.subrange(k, t.len() - 1),
                            source,
                            destination,
                            MAX_CHUNKS as int,
                            outcome,
                        ) && result == first_failure(outcome, op_result(reply))
                },
            }
        };
    run_parts(id, cs, t, k);
    file_opening_runs(id, cs.take(k + 1), t.take(k), to, mode, opened);
    match opened {
        Err(_) => {
            assert(cs.last() == cs[k]);
        },
        Ok(destination) => {
            run_middle(id, cs, t, k);
            let reply = t.last()->CloseFile_reply;
            let u = t.subrange(k, t.len() - 1);
            let ds = cs.subrange(k, t.len() as int);
            let outcome = choose|outcome: Result<(), FsOpError>| #[trigger]
                streamed(u, source, destination, MAX_CHUNKS as int, outcome) && result
                    == first_failure(outcome, op_result(reply));
            stream_runs(id, ds, u, source, destination, MAX_CHUNKS as int, outcome, place);
            assert(cs[k].entries.remove(place) =~= cs[0].entries.remove(place));
            assert(ds[0].files.contains_key(destination));
            assert(ds.last().files[destination].place == place);
            assert(same_elsewhere(cs[t.len() - 1], cs.last(), place));
            assert(cs.last().files.dom() =~= cs[0].files.dom());
            assert(open_alike(cs[0], cs.last())) by {
                assert forall|f: F| #[trigger] cs[0].files.contains_key(f) implies cs.last().files[f].place
                    == cs[0].files[f].place && cs.last().files[f].writable
                    == cs[0].files[f].writable by {
                    assert(cs[k].files.contains_key(f));
                }
            }
        },
    }
}

proof fn comparison_runs<D, F>(
    id: Naming,
    cs: Seq<Card<D, F>>,
    t: Seq<Call<D, F>>,
    left: F,
    right: F,
    chunks_left: int,
    result: Result<(), FsOpError>,
    at: int,
    a: Seq<u8>,
    b: Seq<u8>,
)
    requires
        run(id, cs, t),
        contents_compared(t, left, right, chunks_left, result),
        left != right,
        stands_at(cs[0], left, at, a),
        stands_at(cs[0], right, at, b),
        a.take(at) == b.take(at),
    ensures
        cs.last().entries == cs[0].entries,
        open_alike(cs[0], cs.last()),
        result is Ok ==> a == b,
    decreases t.len(),
{
    if chunks_left > 0 {
        let (k, chunk): (int, Result<Seq<u8>, FsOpError>) = choose|
            k: int,
            chunk: Result<Seq<u8>, FsOpError>,
        |
            {
                &&& 1 <= k <= t.len()
                &&& #[trigger] window_filled(
                    t.take(k),
                    left,
                    COPY_CHUNK_BYTES as int,
                    Seq::empty(),
                    chunk,
                )
                &&& match chunk {
                    Err(error) => k == t.len() && result == Err::<(), FsOpError>(error),
                    Ok(bytes) => chunk_compared(t.skip(k), left, right, bytes, chunks_left, result),
                }
            };
        run_parts(id, cs, t, k);
        let size = COPY_CHUNK_BYTES as int;
        window_runs(id, cs.take(k + 1), t.take(k), left, size, Seq::empty(), chunk, at, a);
        read_on_is_open_alike(cs[0], cs[k], left);
        if let Ok(bytes) = chunk {
            let u = t.skip(k);
            let ds = cs.skip(k);
            let (m, others): (int, Result<Seq<u8>, FsOpError>) = choose|
                m: int,
                others: Result<Seq<u8>, FsOpError>,
            |
                {
                    &&& 1 <= m <= u.len()
                    &&& #[trigger] window_filled(
                        u.take(m),
                        right,
                        COPY_CHUNK_BYTES as int,
                        Seq::empty(),
                        others,
                    )
                    &&& match others {
                        Err(error) => m == u.len() && result == Err::<(), FsOpError>(error),
                        Ok(more) => if more != bytes {
                            m == u.len() && result == Err::<(), FsOpError>(FsOpError::VerifyFailed)
                        } else if bytes.len() == 0 {
                            m == u.len() && result is Ok
                        } else {
                            contents_compared(u.skip(m), left, right, chunks_left - 1, result)
                        },
                    }
                };
            run_parts(id, ds, u, m);
            assert(stands_at(ds[0], right, at, b));
            window_runs(id, ds.take(m + 1), u.take(m), right, size, Seq::empty(), others, at, b);
            read_on_is_open_alike(ds[0], ds[m], right);
            if m == u.len() {
                assert(ds.last() == ds[m]);
                if result is Ok {
                    assert(a =~= a.take(at));
                    assert(b =~= b.take(at));
                }
            } else {
                let next = at + bytes.len();
                assert(bytes =~= a.subrange(at, next));
                assert(bytes =~= b.subrange(at, next));
                assert(a.take(next) =~= a.take(at) + bytes);
                assert(b.take(next) =~= b.take(at) + bytes);
                assert(stands_at(ds.skip(m)[0], left, next, a));
                comparison_runs(
                    id,
                    ds.skip(m),
                    u.skip(m),
                    left,
                    right,
                    chunks_left - 1,
                    result,
                    next,
                    a,
                    b,
                );
            }
        } else {
            assert(cs.last() == cs[k]);
        }
    } else {
        assert(cs.last() == cs[0]);
    }
}

proof fn read_on_is_open_alike<D, F>(c: Card<D, F>, d: Card<D, F>, file: F)
    requires
        read_on(c, d, file),
        c.files.contains_key(file),
    ensures
        open_alike(c, d),
{
    assert(d.files.dom() =~= c.files.dom());
}

/// The card holds files with the same contents at both places.
pub open spec fn same_contents<D, F>(c: Card<D, F>, p: Place, q: Place) -> bool {
    exists|contents: Seq<u8>| #[trigger] holds_file(c, p, contents) && holds_file(c, q, contents)
}

proof fn compare_with_runs<D, F>(
    id: Naming,
    cs: Seq<Card<D, F>>,
    t: Seq<Call<D, F>>,
    left: F,
    right: Seq<char>,
    result: Result<(), FsOpError>,
    a: Seq<u8>,
)
    requires
        run(id, cs, t),
        compared_with(t, left, right, result),
        stands_at(cs[0], left, 0, a),
    ensures
        cs.last().entries == cs[0].entries,
        open_alike(cs[0], cs.last()),
        result is Ok ==> holds_file(cs[0], place_of(id, right), a),
{
    let place = place_of(id, right);
    let (k, opened): (int, Result<F, FsOpError>) = choose|k: int, opened: Result<F, FsOpError>|
        {
            &&& 0 <= k <= t.len()
            &&& #[trigger] file_opened(t.take(k), right, OpenMode::ReadOnly, opened)
            &&& match opened {
                Err(error) => k == t.len() && result == Err::<(), FsOpError>(error),
                Ok(file) => {
                    &&& k < t.len()
                    &&& contents_compared(
                        t.subrange(k, t.len() - 1),
                        left,
                        file,
                        MAX_CHUNKS as int,
                        result,
                    )
                    &&& t.last() matches Call::CloseFile { file: f, .. } && f == file
                },
            }
        };
    run_parts(id, cs, t, k);
    file_opening_runs(id, cs.take(k + 1), t.take(k), right, OpenMode::ReadOnly, opened);
    match opened {
        Err(_) => {
            assert(cs.last() == cs[k]);
        },
        Ok(file) => {
            run_middle(id, cs, t, k);
            let b = cs[0].entries[place]->bytes;
            assert(a.take(0) =~= b.take(0));
            comparison_runs(
                id,
                cs.subrange(k, t.len() as int),
                t.subrange(k, t.len() - 1),
                left,
                file,
                MAX_CHUNKS as int,
                result,
                0,
                a,
                b,
            );
            assert(cs.last().files.dom() =~= cs[0].files.dom());
            assert(open_alike(cs[0], cs.last())) by {
                assert forall|f: F| #[trigger] cs[0].files.contains_key(f) implies cs.last().files[f].place
                    == cs[0].files[f].place && cs.last().files[f].writable
                    == cs[0].files[f].writable by {
                    assert(cs[k].files.contains_key(f));
                }
            }
        },
    }
}

pub(crate) proof fn compare_runs<D, F>(
    id: Naming,
    cs: Seq<Card<D, F>>,
    t: Seq<Call<D, F>>,
    left: Seq<char>,
    right: Seq<char>,
    result: Result<(), FsOpError>,
)
    requires
        run(id, cs, t),
        files_compared(t, left, right, result),
    ensures
        cs.last().entries == cs[0].entries,
        result is Ok ==> same_contents(cs[0], place_of(id, left), place_of(id, right)),
{
    let place = place_of(id, left);
    let (k, opened): (int, Result<F, FsOpError>) = choose|k: int, opened: Result<F, FsOpError>|
        {
            &&& 0 <= k <= t.len()
            &&& #[trigger] file_opened(t.take(k), left, OpenMode::ReadOnly, opened)
            &&& match opened {
                Err(error) => k == t.len() && result == Err::<(), FsOpError>(error),
                Ok(file) => {
                    &&& k < t.len()
                    &&& compared_with(t.subrange(k, t.len() - 1), file, right, result)
                    &&& t.last() matches Call::CloseFile { file: f, .. } && f == file
                },
            }
        };
    run_parts(id, cs, t, k);
    file_opening_runs(id, cs.take(k + 1), t.take(k), left, OpenMode::ReadOnly, opened);
    match opened {
        Err(_) => {
            assert(cs.last() == cs[k]);
        },
        Ok(file) => {
            run_middle(id, cs, t, k);
            let a = cs[0].entries[place]->bytes;
            compare_with_runs(
                id,
                cs.subrange(k, t.len() as int),
                t.subrange(k, t.len() - 1),
                file,
                right,
                result,
                a,
            );
            assert(cs[k].files.contains_key(file));
            if result is Ok {
                assert(holds_file(cs[0], place, a));
            }
        },
    }
}

proof fn copy_from_runs<D, F>(
    id: Naming,
    cs: Seq<Card<D, F>>,
    t: Seq<Call<D, F>>,
    source: F,
    from: Seq<char>,
    to: Seq<char>,
    mode: OpenMode,
    result: Result<(), FsOpError>,
)
    requires
        run(id, cs, t),
        copied_from(t, source, from, to, mode, result),
        cs[0].files.contains_key(source),
        !cs[0].files[source].writable,
    ensures
        same_elsewhere(cs[0], cs.last(), place_of(id, to)),
        result is Ok ==> same_contents(cs.last(), place_of(id, from), place_of(id, to)),
        result is Ok && mode == OpenMode::ReadWriteCreate ==> !cs[0].entries.contains_key(
            place_of(id, to),
        ),
{
    let (k, copied): (int, Result<(), FsOpError>) = choose|k: int, copied: Result<(), FsOpError>|
        {
            &&& 0 <= k < t.len()
            &&& #[trigger] copied_to(t.take(k), source, to, mode, copied)
            &&& t[k] matches Call::CloseFile { file, .. } && file == source
            &&& if copied is Err {
                t.len() == k + 1 && result == copied
            } else {
                files_compared(t.skip(k + 1), from, to, result)
            }
        };
    run_parts(id, cs, t, k);
    copy_to_runs(id, cs.take(k + 1), t.take(k), source, to, mode, copied);
    run_first(id, cs.skip(k), t.skip(k));
    assert(t.skip(k)[0] == t[k]);
    assert(cs.skip(k)[1] == cs[k + 1]);
    assert(cs.skip(k).skip(1) =~= cs.skip(k + 1));
    assert(t.skip(k).skip(1) =~= t.skip(k + 1));
    assert(cs[0].files.contains_key(source));
    if copied is Err {
        assert(cs.last() == cs[k + 1]);
    } else {
        compare_runs(id, cs.skip(k + 1), t.skip(k + 1), from, to, result);
        if result is Ok {
            let contents = choose|contents: Seq<u8>| #[trigger]
                holds_file(cs[k + 1], place_of(id, from), contents) && holds_file(
                    cs[k + 1],
                    place_of(id, to),
                    contents,
                );
            assert(holds_file(cs.last(), place_of(id, from), contents));
        }
    }
}

/// A file that was copied and its copy hold the same; whatever happens, nothing but the
/// copy changes.
pub proof fn copied_files_hold_the_same<D, F>(
    id: Naming,
    cs: Seq<Card<D, F>>,
    t: Seq<Call<D, F>>,
    from: Seq<char>,
    to: Seq<char>,
    mode: OpenMode,
    result: Result<(), FsOpError>,
)
    requires
        run(id, cs, t),
        file_copied(t, from, to, mode, result),
    ensures
        same_elsewhere(cs[0], cs.last(), place_of(id, to)),
        result is Ok ==> same_contents(cs.last(), place_of(id, from), place_of(id, to)),
        result is Ok && mode == OpenMode::ReadWriteCreate ==> !cs[0].entries.contains_key(
            place_of(id, to),
        ),
{
    let (k, opened): (int, Result<F, FsOpError>) = choose|k: int, opened: Result<F, FsOpError>|
        {
            &&& 0 <= k <= t.len()
            &&& #[trigger] file_opened(t.take(k), from, OpenMode::ReadOnly, opened)
            &&& match opened {
                Err(error) => k == t.len() && result == Err::<(), FsOpError>(error),
                Ok(source) => copied_from(t.skip(k), source, from, to, mode, result),
            }
        };
    run_parts(id, cs, t, k);
    file_opening_runs(id, cs.take(k + 1), t.take(k), from, OpenMode::ReadOnly, opened);
    match opened {
        Err(_) => {
            assert(cs.last() == cs[k]);
        },
        Ok(source) => {
            copy_from_runs(id, cs.skip(k), t.skip(k), source, from, to, mode, result);
        },
    }
}

proof fn attempt_runs<D, F>(
    id: Naming,
    cs: Seq<Card<D, F>>,
    t: Seq<Call<D, F>>,
    dir: D,
    name: Seq<char>,
    reply: Result<(), VolumeError>,
    absent: bool,
)
    requires
        run(id, cs, t),
        delete_attempted(t, dir, name, reply, absent),
    ensures
        cs.last().dirs == cs[0].dirs,
        ({
            let place = Place { directory: cs[0].dirs[dir], name: id(name) };
            &&& cs.last().entries == if reply is Ok {
                cs[0].entries.remove(place)
            } else {
                cs[0].entries
            }
            &&& absent ==> !cs[0].entries.contains_key(place)
            &&& reply is Ok ==> no_full_folder(cs[0], place)
        }),
{
    run_first(id, cs, t);
    if reply matches Err(VolumeError::NotFound) {
        run_first(id, cs.skip(1), t.skip(1));
        let u = t.skip(1);
        assert(u[0] == t[1]);
        run_first(id, cs.skip(1).skip(1), u.skip(1));
        assert(u.skip(1)[0] == t[2]);
        assert(cs.skip(1)[1] == cs[2]);
        assert(cs.skip(1).skip(1)[1] == cs[3]);
    }
}

proof fn retries_run<D, F>(
    id: Naming,
    cs: Seq<Card<D, F>>,
    t: Seq<Call<D, F>>,
    dir: D,
    name: Seq<char>,
    left: int,
    outcome: Result<(), VolumeError>,
    last: Result<(), VolumeError>,
)
    requires
        run(id, cs, t),
        delete_retried(t, dir, name, left, outcome, last),
        outcome is Ok ==> !cs[0].entries.contains_key(
            Place { directory: cs[0].dirs[dir], name: id(name) },
        ),
    ensures
        cs.last().dirs == cs[0].dirs,
        cs.last().entries == if last is Ok {
            cs[0].entries.remove(Place { directory: cs[0].dirs[dir], name: id(name) })
        } else {
            cs[0].entries
        },
        last is Ok ==> no_full_folder(
            cs[0],
            Place { directory: cs[0].dirs[dir], name: id(name) },
        ),
    decreases left,
{
    let place = Place { directory: cs[0].dirs[dir], name: id(name) };
    if left <= 0 || outcome is Ok {
        assert(cs.last() == cs[0]);
        if outcome is Ok {
            assert(cs[0].entries.remove(place) =~= cs[0].entries);
        }
    } else {
        let (k, reply, absent): (int, Result<(), VolumeError>, bool) = choose|
            k: int,
            reply: Result<(), VolumeError>,
            absent: bool,
        |
            {
                &&& 1 <= k <= t.len()
                &&& t[0] == Call::<D, F>::DropCache
                &&& #[trigger] delete_attempted(t.subrange(1, k), dir, name, reply, absent)
                &&& delete_retried(
                    t.skip(k),
                    dir,
                    name,
                    left - 1,
                    if absent { Ok(()) } else { reply },
                    last,
                )
            };
        run_first(id, cs, t);
        run_parts(id, cs.skip(1), t.skip(1), k - 1);
        assert(t.skip(1).take(k - 1) =~= t.subrange(1, k));
        assert(t.skip(1).skip(k - 1) =~= t.skip(k));
        let ds = cs.skip(1).skip(k - 1);
        attempt_runs(id, cs.skip(1).take(k), t.subrange(1, k), dir, name, reply, absent);
        if absent {
            assert(cs[0].entries.remove(place) =~= cs[0].entries);
        }
        assert(no_full_folder(ds[0], place) && reply is Err ==> no_full_folder(cs[0], place));
        retries_run(
            id,
            ds,
            t.skip(k),
            dir,
            name,
            left - 1,
            if absent { Ok(()) } else { reply },
            last,
        );
        assert(cs[0].entries.remove(place).remove(place) =~= cs[0].entries.remove(place));
    }
}

/// What removing the entry at `place` leaves.
pub open spec fn removal_leaves<D, F>(
    c: Card<D, F>,
    d: Card<D, F>,
    place: Place,
    result: Result<(), FsOpError>,
) -> bool {
    match result {
        Ok(_) => d.entries == c.entries.remove(place) && no_full_folder(c, place),
        Err(FsOpError::DeleteIncomplete(_)) => same_elsewhere(c, d, place),
        Err(_) => d.entries == c.entries,
    }
}

proof fn conclusion_runs<D, F>(
    id: Naming,
    cs: Seq<Card<D, F>>,
    t: Seq<Call<D, F>>,
    dir: D,
    name: Seq<char>,
    outcome: Result<(), VolumeError>,
    truncated: bool,
    result: Result<(), FsOpError>,
)
    requires
        run(id, cs, t),
        delete_concluded(t, dir, name, outcome, truncated, result),
        outcome is Ok ==> !cs[0].entries.contains_key(
            Place { directory: cs[0].dirs[dir], name: id(name) },
        ),
    ensures
        cs.last().dirs == cs[0].dirs,
        result is Ok ==> no_full_folder(
            cs[0],
            Place { directory: cs[0].dirs[dir], name: id(name) },
        ),
        cs.last().entries == if result is Ok {
            cs[0].entries.remove(Place { directory: cs[0].dirs[dir], name: id(name) })
        } else {
            cs[0].entries
        },
        truncated && result is Err ==> result->Err_0 is DeleteIncomplete,
{
    let left = DELETE_RETRY_ATTEMPTS - 1;
    if exists|last: Result<(), VolumeError>| #[trigger]
        delete_retried(t, dir, name, left, outcome, last) && last is Ok && result is Ok {
        let last = choose|last: Result<(), VolumeError>| #[trigger]
            delete_retried(t, dir, name, left, outcome, last) && last is Ok && result is Ok;
        retries_run(id, cs, t, dir, name, left, outcome, last);
    } else {
        let last = choose|last: Result<(), VolumeError>| #[trigger]
            delete_retried(t.drop_last(), dir, name, left, outcome, last) && last is Err && result
                == delete_report(last, truncated);
        run_middle(id, cs, t, 0);
        assert(t.subrange(0, t.len() - 1) =~= t.drop_last());
        retries_run(
            id,
            cs.subrange(0, t.len() as int),
            t.drop_last(),
            dir,
            name,
            left,
            outcome,
            last,
        );
    }
}

proof fn entry_deletion_runs<D, F>(
    id: Naming,
    cs: Seq<Card<D, F>>,
    t: Seq<Call<D, F>>,
    dir: D,
    name: Seq<char>,
    truncated: bool,
    result: Result<(), FsOpError>,
)
    requires
        run(id, cs, t),
        entry_deleted(t, dir, name, truncated, result),
    ensures
        cs.last().dirs == cs[0].dirs,
        result is Ok ==> no_full_folder(
            cs[0],
            Place { directory: cs[0].dirs[dir], name: id(name) },
        ),
        cs.last().entries == if result is Ok {
            cs[0].entries.remove(Place { directory: cs[0].dirs[dir], name: id(name) })
        } else {
            cs[0].entries
        },
        truncated && result is Err ==> result->Err_0 is DeleteIncomplete,
{
    let place = Place { directory: cs[0].dirs[dir], name: id(name) };
    let (k, reply, absent): (int, Result<(), VolumeError>, bool) = choose|
        k: int,
        reply: Result<(), VolumeError>,
        absent: bool,
    |
        {
            &&& 0 <= k <= t.len()
            &&& #[trigger] delete_attempted(t.take(k), dir, name, reply, absent)
            &&& if absent {
                &&& k == t.len()
                &&& result == Err::<(), FsOpError>(
                    if truncated {
                        FsOpError::DeleteIncomplete(Box::new(FsOpError::Fs(VolumeError::NotFound)))
                    } else {
                        FsOpError::Fs(VolumeError::NotFound)
                    },
                )
            } else {
                delete_concluded(t.skip(k), dir, name, reply, truncated, result)
            }
        };
    run_parts(id, cs, t, k);
    attempt_runs(id, cs.take(k + 1), t.take(k), dir, name, reply, absent);
    if absent {
        assert(cs.last() == cs[k]);
    } else {
        conclusion_runs(id, cs.skip(k), t.skip(k), dir, name, reply, truncated, result);
        assert(no_full_folder(cs[k], place) && reply is Err ==> no_full_folder(cs[0], place));
        assert(cs[0].entries.remove(place).remove(place) =~= cs[0].entries.remove(place));
    }
}

proof fn reclaiming_runs<D, F>(
    id: Naming,
    cs: Seq<Card<D, F>>,
    t: Seq<Call<D, F>>,
    fat32: bool,
    dir: D,
    name: Seq<char>,
    truncated: bool,
)
    requires
        run(id, cs, t),
        reclaimed(t, fat32, dir, name, truncated),
    ensures
        cs.last().dirs == cs[0].dirs,
        same_elsewhere(
            cs[0],
            cs.last(),
            Place { directory: cs[0].dirs[dir], name: id(name) },
        ),
        !truncated || holds_folder(
            cs[0],
            Place { directory: cs[0].dirs[dir], name: id(name) },
        ) ==> cs.last().entries == cs[0].entries,
{
    let place = Place { directory: cs[0].dirs[dir], name: id(name) };
    if fat32 {
        run_first(id, cs, t);
        if t[0]->OpenFile_reply is Ok {
            run_first(id, cs.skip(1), t.skip(1));
            assert(t.skip(1)[0] == t[1]);
            assert(cs.skip(1)[1] == cs[2]);
            assert(cs[1].entries.remove(place) =~= cs[0].entries.remove(place));
        }
    }
}

pub(crate) proof fn file_removal_runs<D, F>(
    id: Naming,
    cs: Seq<Card<D, F>>,
    t: Seq<Call<D, F>>,
    fat32: bool,
    name: Seq<char>,
    dir: D,
    result: Result<(), FsOpError>,
)
    requires
        run(id, cs, t),
        one_file_removed(t, fat32, name, dir, result),
    ensures
        cs.last().dirs == cs[0].dirs,
        removal_leaves(
            cs[0],
            cs.last(),
            Place { directory: cs[0].dirs[dir], name: id(name) },
            result,
        ),
{
    let place = Place { directory: cs[0].dirs[dir], name: id(name) };
    let (k, truncated): (int, bool) = choose|k: int, truncated: bool|
        {
            &&& 0 <= k <= t.len()
            &&& #[trigger] reclaimed(t.take(k), fat32, dir, name, truncated)
            &&& entry_deleted(t.skip(k), dir, name, truncated, result)
        };
    run_parts(id, cs, t, k);
    reclaiming_runs(id, cs.take(k + 1), t.take(k), fat32, dir, name, truncated);
    entry_deletion_runs(id, cs.skip(k), t.skip(k), dir, name, truncated, result);
    if result is Ok && holds_folder(cs[0], place) {
        assert(nothing_below(cs[k], place.directory.push(place.name)));
        assert(nothing_below(cs[0], place.directory.push(place.name)));
    }
}

/// Removing an entry: a success leaves the card without it, and without anything else
/// missing; a delete that is incomplete changes nothing else either; and any other failure
/// changes nothing at all.
pub proof fn removals_are_reported_truly<D, F>(
    id: Naming,
    cs: Seq<Card<D, F>>,
    t: Seq<Call<D, F>>,
    fat32: bool,
    path: Seq<char>,
    result: Result<(), FsOpError>,
)
    requires
        run(id, cs, t),
        path_removed(t, fat32, path, result),
    ensures
        removal_leaves(cs[0], cs.last(), place_of(id, path), result),
{
    let leaf = leaf_of(path);
    let directory = images(id, components_of(parent_of(path)));
    let place = place_of(id, path);
    let body = file_removed::<D, F>(fat32, leaf);
    inside_runs(id, cs, t, parent_of(path), body, result);
    if worked_in(id, cs[0], cs.last(), directory, body, result) {
        let (inner, calls, dir) = choose|inner: Seq<Card<D, F>>, calls: Seq<Call<D, F>>, dir: D|
            {
                &&& #[trigger] run(id, inner, calls)
                &&& !cs[0].dirs.contains_key(dir)
                &&& inner[0] == (Card { dirs: cs[0].dirs.insert(dir, directory), ..cs[0] })
                &&& #[trigger] body(calls, dir, result)
                &&& cs.last() == (Card { dirs: inner.last().dirs.remove(dir), ..inner.last() })
            };
        assert(inner[0].dirs[dir] == directory);
        file_removal_runs(id, inner, calls, fat32, leaf, dir, result);
        if result is Ok && holds_folder(cs[0], place) {
            assert(holds_folder(inner[0], place));
            assert(nothing_below(inner[0], place.directory.push(place.name)));
            assert(nothing_below(cs[0], place.directory.push(place.name)));
        }
    }
}

/// The two cards agree on what is at `place`.
pub open spec fn unchanged_at<D, F>(c: Card<D, F>, d: Card<D, F>, place: Place) -> bool {
    &&& c.entries.contains_key(place) == d.entries.contains_key(place)
    &&& c.entries.contains_key(place) ==> c.entries[place] == d.entries[place]
}

/// The place is in the directory that these names lead to, or below it.
pub open spec fn lies_under(place: Place, directory: Seq<Seq<char>>) -> bool {
    directory.is_prefix_of(place.directory)
}

/// Nothing changed outside the directory that these names lead to.
pub open spec fn only_under<D, F>(
    c: Card<D, F>,
    d: Card<D, F>,
    directory: Seq<Seq<char>>,
) -> bool {
    forall|place: Place|
        !lies_under(place, directory) ==> #[trigger] unchanged_at(c, d, place)
}

/// What is the same but for one place is unchanged at every other.
pub(crate) proof fn same_elsewhere_at<D, F>(c: Card<D, F>, d: Card<D, F>, changed: Place, place: Place)
    requires
        same_elsewhere(c, d, changed),
        place != changed,
    ensures
        unchanged_at(c, d, place),
{
    assert(c.entries.remove(changed).contains_key(place) == d.entries.remove(changed).contains_key(
        place,
    ));
    assert(c.entries.remove(changed)[place] == d.entries.remove(changed)[place]);
}

/// A removal changes nothing at any other place.
pub(crate) proof fn removal_unchanged_at<D, F>(
    c: Card<D, F>,
    d: Card<D, F>,
    changed: Place,
    result: Result<(), FsOpError>,
    place: Place,
)
    requires
        removal_leaves(c, d, changed, result),
        place != changed,
    ensures
        unchanged_at(c, d, place),
{
    if result matches Err(FsOpError::DeleteIncomplete(_)) {
        same_elsewhere_at(c, d, changed, place);
    }
}

proof fn batch_runs<D, F>(
    id: Naming,
    cs: Seq<Card<D, F>>,
    t: Seq<Call<D, F>>,
    fat32: bool,
    dir: D,
    children: Seq<ChildEntry>,
    i: int,
    so_far: bool,
    destroyed: bool,
    result: Result<(), FsOpError>,
)
    requires
        run(id, cs, t),
        batch_removed(t, fat32, dir, children, i, so_far, destroyed, result),
        i >= 0,
    ensures
        cs.last().dirs == cs[0].dirs,
        only_under(cs[0], cs.last(), cs[0].dirs[dir]),
        so_far ==> destroyed,
        !destroyed ==> cs.last().entries == cs[0].entries,
    decreases children.len() - i,
{
    let directory = cs[0].dirs[dir];
    if i >= children.len() || children[i].read_only && !children[i].is_dir {
        assert(cs.last() == cs[0]);
    } else if children[i].is_dir {
        batch_runs(id, cs, t, fat32, dir, children, i + 1, so_far, destroyed, result);
    } else {
        let name = children[i].name@;
        let (k, outcome): (int, Result<(), FsOpError>) = choose|
            k: int,
            outcome: Result<(), FsOpError>,
        |
            {
                &&& 0 <= k <= t.len()
                &&& #[trigger] one_file_removed(t.take(k), fat32, children[i].name@, dir, outcome)
                &&& if outcome is Err {
                    k == t.len() && destroyed == (so_far || destroys(outcome)) && result == outcome
                } else {
                    batch_removed(t.skip(k), fat32, dir, children, i + 1, true, destroyed, result)
                }
            };
        run_parts(id, cs, t, k);
        file_removal_runs(id, cs.take(k + 1), t.take(k), fat32, name, dir, outcome);
        let place = Place { directory, name: id(name) };
        assert forall|p: Place| !lies_under(p, directory) implies #[trigger] unchanged_at(
            cs[0],
            cs[k],
            p,
        ) by {
            assert(lies_under(place, directory)) by {
                assert(directory.is_prefix_of(directory));
            }
            removal_unchanged_at(cs[0], cs[k], place, outcome, p);
        }
        if outcome is Err {
            assert(cs.last() == cs[k]);
        } else {
            batch_runs(
                id,
                cs.skip(k),
                t.skip(k),
                fat32,
                dir,
                children,
                i + 1,
                true,
                destroyed,
                result,
            );
            assert forall|p: Place| !lies_under(p, directory) implies #[trigger] unchanged_at(
                cs[0],
                cs.last(),
                p,
            ) by {
                assert(unchanged_at(cs[0], cs[k], p));
                assert(unchanged_at(cs[k], cs.last(), p));
            }
        }
    }
}

/// Removing files of a folder changes nothing outside it, and where nothing was destroyed
/// nothing at all.
pub proof fn file_removals_stay_inside<D, F>(
    id: Naming,
    cs: Seq<Card<D, F>>,
    t: Seq<Call<D, F>>,
    fat32: bool,
    path: Seq<char>,
    children: Seq<ChildEntry>,
    destroyed: bool,
    result: Result<(), FsOpError>,
)
    requires
        run(id, cs, t),
        files_removed(t, fat32, path, children, destroyed, result),
    ensures
        only_under(cs[0], cs.last(), images(id, components_of(path))),
        !destroyed ==> cs.last().entries == cs[0].entries,
{
    let directory = images(id, components_of(path));
    if exists|error: FsOpError| #[trigger]
        dir_opened(t, path, Err::<D, FsOpError>(error)) && result == Err::<(), FsOpError>(error)
            && !destroyed {
        let error = choose|error: FsOpError| #[trigger]
            dir_opened(t, path, Err::<D, FsOpError>(error)) && result == Err::<(), FsOpError>(error)
                && !destroyed;
        dir_opening_runs(id, cs, t, path, Err::<D, FsOpError>(error));
    } else {
        let (k, dir): (int, D) = choose|k: int, dir: D|
            {
                &&& 0 <= k < t.len()
                &&& #[trigger] dir_opened(t.take(k), path, Ok::<D, FsOpError>(dir))
                &&& t.last() == Call::<D, F>::CloseDir { dir }
                &&& batch_removed(
                    t.subrange(k, t.len() - 1),
                    fat32,
                    dir,
                    children,
                    0,
                    false,
                    destroyed,
                    result,
                )
            };
        run_middle(id, cs, t, k);
        dir_opening_runs(id, cs.take(k + 1), t.take(k), path, Ok::<D, FsOpError>(dir));
        let inner = cs.subrange(k, t.len() as int);
        let calls = t.subrange(k, t.len() - 1);
        batch_runs(id, inner, calls, fat32, dir, children, 0, false, destroyed, result);
        assert forall|p: Place| !lies_under(p, directory) implies #[trigger] unchanged_at(
            cs[0],
            cs.last(),
            p,
        ) by {
            assert(unchanged_at(inner[0], inner.last(), p));
        }
    }
}

/// Walking over a directory changes nothing.
pub proof fn walks_change_nothing<D, F>(
    id: Naming,
    cs: Seq<Card<D, F>>,
    t: Seq<Call<D, F>>,
    path: Seq<char>,
    rule: ScanRuleView,
    result: Result<Seq<EntryRecord>, FsOpError>,
)
    requires
        run(id, cs, t),
        path_scanned(t, path, rule, result),
    ensures
        cs.last().entries == cs[0].entries,
{
    let directory = images(id, components_of(path));
    let body = dir_iterated::<D, F>(rule);
    inside_runs(id, cs, t, path, body, result);
    if worked_in(id, cs[0], cs.last(), directory, body, result) {
        let (inner, calls, dir) = choose|inner: Seq<Card<D, F>>, calls: Seq<Call<D, F>>, dir: D|
            {
                &&& #[trigger] run(id, inner, calls)
                &&& !cs[0].dirs.contains_key(dir)
                &&& inner[0] == (Card { dirs: cs[0].dirs.insert(dir, directory), ..cs[0] })
                &&& #[trigger] body(calls, dir, result)
                &&& cs.last() == (Card { dirs: inner.last().dirs.remove(dir), ..inner.last() })
            };
        run_first(id, inner, calls);
        assert(inner.last() == inner[1]);
    }
}

/// Making a folder: a success adds it, and nothing else ever changes.
pub proof fn folders_are_made<D, F>(
    id: Naming,
    cs: Seq<Card<D, F>>,
    t: Seq<Call<D, F>>,
    path: Seq<char>,
    result: Result<(), FsOpError>,
)
    requires
        run(id, cs, t),
        inside(t, parent_of(path), bare_folder_made(leaf_of(path)), result),
    ensures
        same_elsewhere(cs[0], cs.last(), place_of(id, path)),
        result is Ok ==> holds_folder(cs.last(), place_of(id, path)),
{
    let leaf = leaf_of(path);
    let directory = images(id, components_of(parent_of(path)));
    let place = place_of(id, path);
    let body = bare_folder_made::<D, F>(leaf);
    inside_runs(id, cs, t, parent_of(path), body, result);
    if worked_in(id, cs[0], cs.last(), directory, body, result) {
        let (inner, calls, dir) = choose|inner: Seq<Card<D, F>>, calls: Seq<Call<D, F>>, dir: D|
            {
                &&& #[trigger] run(id, inner, calls)
                &&& !cs[0].dirs.contains_key(dir)
                &&& inner[0] == (Card { dirs: cs[0].dirs.insert(dir, directory), ..cs[0] })
                &&& #[trigger] body(calls, dir, result)
                &&& cs.last() == (Card { dirs: inner.last().dirs.remove(dir), ..inner.last() })
            };
        run_first(id, inner, calls);
        assert(inner.last() == inner[1]);
        assert(inner[0].dirs[dir] == directory);
        if result is Ok {
            assert(cs.last().entries.remove(place) =~= cs[0].entries.remove(place));
        }
    }
}

} // verus!
