//! A card on which nothing fails that can succeed, and what the steps of a save make of it.
use vstd::prelude::*;

use crate::contents::{
    call_fits, file_opens, holds_file, holds_folder, holds_writable, images, nothing_below, place_of, run,
    run_first, run_middle, run_parts, same_elsewhere, Card, Entry, Naming, OpenFile, Place,
};
use crate::contents_runs::{
    check_runs, compare_runs, confirmed_runs, dir_opening_runs, file_opening_runs,
    file_removal_runs, lookups_are_true, read_on, stands_at, unchanged_at, verify_runs,
    window_runs,
};
use crate::creation::{bare_folder_made, dir_iterated, path_scanned};
use crate::errors::{op_error, FsOpError, VolumeError};
use crate::file_laws::first_delete;
use crate::files::{
    chunk_compared, compared_with, contents_checked, contents_compared, copied_from, copied_to,
    file_copied, file_saved, file_verified, file_written, files_compared, first_failure, streamed,
    window_filled, COPY_CHUNK_BYTES, MAX_CHUNKS, READ_CHUNK_BYTES,
};
use crate::names::{components_of, leaf_of, parent_of};
use crate::removal::{
    delete_concluded, delete_retried, entry_deleted, file_removed, path_removed, reclaimed,
    DELETE_RETRY_ATTEMPTS,
};
use crate::session::{batch_removed, destroys, files_removed, one_file_removed, ChildEntry};
use crate::volume::{Call, EntryFacts, EntryRecord, OpenMode, ScanRuleView};
use crate::walk::{
    ask_find, ask_open_dir, ask_open_file, confirmed, descended, dir_opened, entry_found,
    file_opened, inside, name_found, name_opened, op_result,
};

verus! {

/// Every folder on the way stands.
pub open spec fn folders_stand<D, F>(c: Card<D, F>, directory: Seq<Seq<char>>) -> bool {
    forall|i: int|
        0 <= i < directory.len() ==> holds_folder(
            c,
            Place { directory: directory.take(i), name: #[trigger] directory[i] },
        )
}

/// Nothing stands against opening the file at `place`.
pub open spec fn may_open<D, F>(c: Card<D, F>, place: Place, mode: OpenMode) -> bool {
    match mode {
        OpenMode::ReadOnly => c.entries.contains_key(place) && c.entries[place] is File,
        OpenMode::ReadWriteTruncate => holds_writable(c, place),
        OpenMode::ReadWriteCreate => !c.entries.contains_key(place),
        OpenMode::ReadWriteCreateOrTruncate => !c.entries.contains_key(place) || holds_writable(
            c,
            place,
        ),
    }
}

/// An entry for a file that may be written.
pub open spec fn file_with(contents: Seq<u8>) -> Entry {
    Entry::File { bytes: contents, read_only: false }
}

/// The card holds a folder at `place`, and nothing in it.
pub open spec fn holds_empty_folder<D, F>(c: Card<D, F>, place: Place) -> bool {
    holds_folder(c, place) && nothing_below(c, place.directory.push(place.name))
}

/// Nothing stands against removing what is at `place`.
pub open spec fn may_remove<D, F>(c: Card<D, F>, place: Place) -> bool {
    holds_writable(c, place) || holds_empty_folder(c, place)
}

/// What can succeed has succeeded, and what was written is what the card now holds.
pub open spec fn answered_reliably<D, F>(
    id: Naming,
    c: Card<D, F>,
    call: Call<D, F>,
    d: Card<D, F>,
) -> bool {
    match call {
        Call::OpenRoot { reply } => reply is Ok,
        Call::OpenDir { parent, name, reply } => holds_folder(
            c,
            Place { directory: c.dirs[parent], name: id(name) },
        ) ==> reply is Ok,
        Call::Find { reply, .. } => reply matches Err(error) ==> error is NotFound,
        Call::OpenFile { dir, name, mode, reply } => may_open(
            c,
            Place { directory: c.dirs[dir], name: id(name) },
            mode,
        ) ==> reply is Ok,
        Call::Read { file, reply, .. } => c.files.contains_key(file) ==> reply is Ok,
        Call::Write { file, bytes, reply } => forall|stored: Seq<u8>|
            stands_at(c, file, stored.len() as int, stored) ==> reply is Ok
                && #[trigger] appended(c, d, file, stored + bytes),
        Call::CloseFile { file, reply } => c.files.contains_key(file) ==> reply is Ok && d.entries
            == c.entries,
        Call::Delete { dir, name, reply } => {
            let place = Place { directory: c.dirs[dir], name: id(name) };
            holds_writable(c, place) || holds_empty_folder(c, place) ==> reply is Ok
        },
        Call::MakeDir { dir, name, reply } => !c.entries.contains_key(
            Place { directory: c.dirs[dir], name: id(name) },
        ) ==> reply is Ok,
        Call::Iterate { reply, .. } => reply is Ok,
        _ => true,
    }
}

/// The file now holds `contents`, and stands at their end.
pub open spec fn appended<D, F>(c: Card<D, F>, d: Card<D, F>, file: F, contents: Seq<u8>) -> bool {
    let place = c.files[file].place;
    &&& d.entries == c.entries.insert(
        place,
        Entry::File { bytes: contents, read_only: c.entries[place]->File_read_only },
    )
    &&& d.files == c.files.insert(file, OpenFile { at: contents.len() as int, ..c.files[file] })
}

/// A run on a card on which nothing fails that can succeed.
pub open spec fn reliable_run<D, F>(id: Naming, cs: Seq<Card<D, F>>, t: Seq<Call<D, F>>) -> bool {
    &&& run(id, cs, t)
    &&& forall|i: int| 0 <= i < t.len() ==> #[trigger] reliable_at(id, cs, t, i)
}

pub open spec fn reliable_at<D, F>(
    id: Naming,
    cs: Seq<Card<D, F>>,
    t: Seq<Call<D, F>>,
    i: int,
) -> bool {
    answered_reliably(id, cs[i], t[i], cs[i + 1])
}

/// A reliable run in two parts.
pub(crate) proof fn reliable_parts<D, F>(id: Naming, cs: Seq<Card<D, F>>, t: Seq<Call<D, F>>, k: int)
    requires
        reliable_run(id, cs, t),
        0 <= k <= t.len(),
    ensures
        reliable_run(id, cs.take(k + 1), t.take(k)),
        reliable_run(id, cs.skip(k), t.skip(k)),
        cs.take(k + 1).last() == cs[k],
        cs.take(k + 1)[0] == cs[0],
        cs.skip(k)[0] == cs[k],
        cs.skip(k).last() == cs.last(),
{
    run_parts(id, cs, t, k);
    assert forall|i: int| 0 <= i < k implies #[trigger] reliable_at(
        id,
        cs.take(k + 1),
        t.take(k),
        i,
    ) by {
        assert(reliable_at(id, cs, t, i));
    }
    assert forall|i: int| 0 <= i < t.skip(k).len() implies #[trigger] reliable_at(
        id,
        cs.skip(k),
        t.skip(k),
        i,
    ) by {
        assert(reliable_at(id, cs, t, k + i));
    }
}

pub(crate) proof fn reliable_first<D, F>(id: Naming, cs: Seq<Card<D, F>>, t: Seq<Call<D, F>>)
    requires
        reliable_run(id, cs, t),
        t.len() > 0,
    ensures
        call_fits(id, cs[0], t[0], cs[1]),
        answered_reliably(id, cs[0], t[0], cs[1]),
        reliable_run(id, cs.skip(1), t.skip(1)),
        cs.skip(1)[0] == cs[1],
        cs.skip(1).last() == cs.last(),
{
    run_first(id, cs, t);
    reliable_parts(id, cs, t, 1);
    assert(reliable_at(id, cs, t, 0));
}

proof fn reliable_middle<D, F>(id: Naming, cs: Seq<Card<D, F>>, t: Seq<Call<D, F>>, k: int)
    requires
        reliable_run(id, cs, t),
        0 <= k < t.len(),
    ensures
        reliable_run(id, cs.take(k + 1), t.take(k)),
        cs.take(k + 1)[0] == cs[0],
        cs.take(k + 1).last() == cs[k],
        reliable_run(id, cs.subrange(k, t.len() as int), t.subrange(k, t.len() - 1)),
        cs.subrange(k, t.len() as int)[0] == cs[k],
        cs.subrange(k, t.len() as int).last() == cs[t.len() - 1],
        call_fits(id, cs[t.len() - 1], t.last(), cs.last()),
        answered_reliably(id, cs[t.len() - 1], t.last(), cs.last()),
{
    reliable_parts(id, cs, t, k);
    run_middle(id, cs, t, k);
    let n = t.len() - 1;
    assert forall|i: int| 0 <= i < n - k implies #[trigger] reliable_at(
        id,
        cs.subrange(k, n + 1),
        t.subrange(k, n),
        i,
    ) by {
        assert(reliable_at(id, cs, t, k + i));
    }
    assert(reliable_at(id, cs, t, n));
}

proof fn folders_still_stand<D, F>(
    c: Card<D, F>,
    d: Card<D, F>,
    changed: Place,
    directory: Seq<Seq<char>>,
)
    requires
        folders_stand(c, directory),
        same_elsewhere(c, d, changed),
        !holds_folder(c, changed),
    ensures
        folders_stand(d, directory),
{
    assert forall|i: int| 0 <= i < directory.len() implies holds_folder(
        d,
        Place { directory: directory.take(i), name: #[trigger] directory[i] },
    ) by {
        let place = Place { directory: directory.take(i), name: directory[i] };
        assert(holds_folder(c, place));
        assert(c.entries.remove(changed).contains_key(place));
        assert(c.entries.remove(changed)[place] == d.entries.remove(changed)[place]);
    }
}

pub(crate) proof fn confirmed_reliably<D, F, T>(
    id: Naming,
    cs: Seq<Card<D, F>>,
    t: Seq<Call<D, F>>,
    ask: spec_fn(Result<T, VolumeError>) -> Call<D, F>,
    outcome: Result<T, VolumeError>,
)
    requires
        reliable_run(id, cs, t),
        confirmed(t, ask, outcome),
        forall|c: Card<D, F>, d: Card<D, F>| #[trigger]
            call_fits(id, c, ask(Err(VolumeError::NotFound)), d) ==> d == c,
    ensures
        call_fits(id, cs[0], ask(outcome), cs.last()),
        answered_reliably(id, cs[0], ask(outcome), cs.last()),
{
    confirmed_runs(id, cs, t, ask, outcome);
    reliable_first(id, cs, t);
    if t.len() == 3 {
        reliable_first(id, cs.skip(1), t.skip(1));
        let u = t.skip(1);
        assert(u[0] == t[1]);
        reliable_first(id, cs.skip(1).skip(1), u.skip(1));
        assert(u.skip(1)[0] == t[2]);
        assert(cs.skip(1).skip(1)[0] == cs[2]);
        assert(cs.skip(1)[1] == cs[2]);
        assert(cs.skip(1).skip(1)[1] == cs[3]);
    }
}

proof fn descent_succeeds<D, F>(
    id: Naming,
    base: Card<D, F>,
    cs: Seq<Card<D, F>>,
    t: Seq<Call<D, F>>,
    dir: D,
    at: Seq<Seq<char>>,
    names: Seq<Seq<char>>,
    opened: Result<D, FsOpError>,
)
    requires
        reliable_run(id, cs, t),
        descended(t, dir, names, opened),
        !base.dirs.contains_key(dir),
        cs[0] == (Card { dirs: base.dirs.insert(dir, at), ..base }),
        folders_stand(base, at + images(id, names)),
    ensures
        opened is Ok,
    decreases names.len(),
{
    if names.len() > 0 {
        let (k, outcome): (int, Result<D, VolumeError>) = choose|
            k: int,
            outcome: Result<D, VolumeError>,
        |
            {
                &&& 0 <= k < t.len()
                &&& #[trigger] confirmed(t.take(k), ask_open_dir(dir, names[0]), outcome)
                &&& t[k] == Call::<D, F>::CloseDir { dir }
                &&& match outcome {
                    Err(error) => t.len() == k + 1 && opened == Err::<D, FsOpError>(
                        op_error(error),
                    ),
                    Ok(next) => descended(t.skip(k + 1), next, names.skip(1), opened),
                }
            };
        reliable_parts(id, cs, t, k);
        assert forall|c: Card<D, F>, d: Card<D, F>| #[trigger]
            call_fits(
                id,
                c,
                ask_open_dir::<D, F>(dir, names[0])(Err(VolumeError::NotFound)),
                d,
            ) implies d == c by {}
        confirmed_reliably(
            id,
            cs.take(k + 1),
            t.take(k),
            ask_open_dir(dir, names[0]),
            outcome,
        );
        reliable_first(id, cs.skip(k), t.skip(k));
        assert(t.skip(k)[0] == t[k]);
        assert(cs.skip(k)[1] == cs[k + 1]);
        assert(cs.skip(k).skip(1) =~= cs.skip(k + 1));
        assert(t.skip(k).skip(1) =~= t.skip(k + 1));
        let whole = at + images(id, names);
        let here = at.push(id(names[0]));
        assert(whole =~= here + images(id, names.skip(1)));
        assert(cs[0].dirs[dir] == at);
        assert(whole.take(at.len() as int) =~= at);
        assert(whole[at.len() as int] == id(names[0]));
        assert(holds_folder(cs[0], Place { directory: at, name: id(names[0]) }));
        let next = outcome->Ok_0;
        assert(cs[k + 1].dirs =~= base.dirs.insert(next, here));
        descent_succeeds(
            id,
            base,
            cs.skip(k + 1),
            t.skip(k + 1),
            next,
            here,
            names.skip(1),
            opened,
        );
    }
}

proof fn dir_opening_succeeds<D, F>(
    id: Naming,
    cs: Seq<Card<D, F>>,
    t: Seq<Call<D, F>>,
    path: Seq<char>,
    opened: Result<D, FsOpError>,
)
    requires
        reliable_run(id, cs, t),
        dir_opened(t, path, opened),
        folders_stand(cs[0], images(id, components_of(path))),
    ensures
        opened is Ok,
{
    reliable_first(id, cs, t);
    let none = Seq::<Seq<char>>::empty();
    let root = t[0]->OpenRoot_reply->Ok_0;
    assert(none + images(id, components_of(path)) =~= images(id, components_of(path)));
    descent_succeeds(
        id,
        cs[0],
        cs.skip(1),
        t.skip(1),
        root,
        none,
        components_of(path),
        opened,
    );
}

/// Where the work inside a directory begins and ends.
pub open spec fn worked_reliably_in<D, F, R>(
    id: Naming,
    c: Card<D, F>,
    d: Card<D, F>,
    directory: Seq<Seq<char>>,
    body: spec_fn(Seq<Call<D, F>>, D, Result<R, FsOpError>) -> bool,
    result: Result<R, FsOpError>,
) -> bool {
    exists|cs: Seq<Card<D, F>>, t: Seq<Call<D, F>>, dir: D|
        {
            &&& #[trigger] reliable_run(id, cs, t)
            &&& !c.dirs.contains_key(dir)
            &&& cs[0] == (Card { dirs: c.dirs.insert(dir, directory), ..c })
            &&& #[trigger] body(t, dir, result)
            &&& d == (Card { dirs: cs.last().dirs.remove(dir), ..cs.last() })
        }
}

pub(crate) proof fn inside_succeeds<D, F, R>(
    id: Naming,
    cs: Seq<Card<D, F>>,
    t: Seq<Call<D, F>>,
    path: Seq<char>,
    body: spec_fn(Seq<Call<D, F>>, D, Result<R, FsOpError>) -> bool,
    result: Result<R, FsOpError>,
)
    requires
        reliable_run(id, cs, t),
        inside(t, path, body, result),
        folders_stand(cs[0], images(id, components_of(path))),
    ensures
        worked_reliably_in(
            id,
            cs[0],
            cs.last(),
            images(id, components_of(path)),
            body,
            result,
        ),
{
    if exists|error: FsOpError| #[trigger]
        dir_opened(t, path, Err::<D, FsOpError>(error)) && result == Err::<R, FsOpError>(error) {
        let error = choose|error: FsOpError| #[trigger]
            dir_opened(t, path, Err::<D, FsOpError>(error)) && result == Err::<R, FsOpError>(error);
        dir_opening_succeeds(id, cs, t, path, Err::<D, FsOpError>(error));
    } else {
        let (k, dir): (int, D) = choose|k: int, dir: D|
            {
                &&& 0 <= k < t.len()
                &&& #[trigger] dir_opened(t.take(k), path, Ok::<D, FsOpError>(dir))
                &&& t.last() == Call::<D, F>::CloseDir { dir }
                &&& body(t.subrange(k, t.len() - 1), dir, result)
            };
        reliable_middle(id, cs, t, k);
        dir_opening_runs(id, cs.take(k + 1), t.take(k), path, Ok::<D, FsOpError>(dir));
        let inner = cs.subrange(k, t.len() as int);
        let calls = t.subrange(k, t.len() - 1);
        assert(reliable_run(id, inner, calls) && body(calls, dir, result));
    }
}

/// Looking up an entry finds it where it is, and otherwise says that it was not found.
pub proof fn lookups_answer<D, F>(
    id: Naming,
    cs: Seq<Card<D, F>>,
    t: Seq<Call<D, F>>,
    path: Seq<char>,
    reply: Result<EntryFacts, FsOpError>,
)
    requires
        reliable_run(id, cs, t),
        entry_found(t, path, reply),
        folders_stand(cs[0], place_of(id, path).directory),
    ensures
        cs.last() == cs[0],
        reply matches Err(error) ==> error.says_not_found(),
{
    lookups_are_true(id, cs, t, path, reply);
    let leaf = leaf_of(path);
    let directory = images(id, components_of(parent_of(path)));
    let body = name_found::<D, F>(leaf);
    inside_succeeds(id, cs, t, parent_of(path), body, reply);
    let (inner, calls, dir) = choose|inner: Seq<Card<D, F>>, calls: Seq<Call<D, F>>, dir: D|
        {
            &&& #[trigger] reliable_run(id, inner, calls)
            &&& !cs[0].dirs.contains_key(dir)
            &&& inner[0] == (Card { dirs: cs[0].dirs.insert(dir, directory), ..cs[0] })
            &&& #[trigger] body(calls, dir, reply)
            &&& cs.last() == (Card { dirs: inner.last().dirs.remove(dir), ..inner.last() })
        };
    let outcome = choose|outcome: Result<EntryFacts, VolumeError>| #[trigger]
        confirmed(calls, ask_find(dir, leaf), outcome) && reply == op_result(outcome);
    assert forall|c: Card<D, F>, d: Card<D, F>| #[trigger]
        call_fits(
            id,
            c,
            ask_find::<D, F>(dir, leaf)(Err(VolumeError::NotFound)),
            d,
        ) implies d == c by {}
    confirmed_reliably(id, inner, calls, ask_find(dir, leaf), outcome);
}

proof fn file_opening_succeeds<D, F>(
    id: Naming,
    cs: Seq<Card<D, F>>,
    t: Seq<Call<D, F>>,
    path: Seq<char>,
    mode: OpenMode,
    opened: Result<F, FsOpError>,
)
    requires
        reliable_run(id, cs, t),
        file_opened(t, path, mode, opened),
        folders_stand(cs[0], place_of(id, path).directory),
        may_open(cs[0], place_of(id, path), mode),
    ensures
        opened matches Ok(file) && file_opens(
            cs[0],
            place_of(id, path),
            mode,
            Ok::<F, VolumeError>(file),
            cs.last(),
        ),
{
    file_opening_runs(id, cs, t, path, mode, opened);
    let leaf = leaf_of(path);
    let directory = images(id, components_of(parent_of(path)));
    let body = name_opened::<D, F>(leaf, mode);
    inside_succeeds(id, cs, t, parent_of(path), body, opened);
    let (inner, calls, dir) = choose|inner: Seq<Card<D, F>>, calls: Seq<Call<D, F>>, dir: D|
        {
            &&& #[trigger] reliable_run(id, inner, calls)
            &&& !cs[0].dirs.contains_key(dir)
            &&& inner[0] == (Card { dirs: cs[0].dirs.insert(dir, directory), ..cs[0] })
            &&& #[trigger] body(calls, dir, opened)
            &&& cs.last() == (Card { dirs: inner.last().dirs.remove(dir), ..inner.last() })
        };
    let outcome = choose|outcome: Result<F, VolumeError>| #[trigger]
        confirmed(calls, ask_open_file(dir, leaf, mode), outcome) && opened == op_result(outcome);
    assert forall|c: Card<D, F>, d: Card<D, F>| #[trigger]
        call_fits(
            id,
            c,
            ask_open_file::<D, F>(dir, leaf, mode)(Err(VolumeError::NotFound)),
            d,
        ) implies d == c by {}
    confirmed_reliably(id, inner, calls, ask_open_file(dir, leaf, mode), outcome);
    assert(inner[0].dirs[dir] == directory);
}

proof fn windows_fill<D, F>(
    id: Naming,
    cs: Seq<Card<D, F>>,
    t: Seq<Call<D, F>>,
    file: F,
    size: int,
    got: Seq<u8>,
    result: Result<Seq<u8>, FsOpError>,
    at: int,
    stored: Seq<u8>,
)
    requires
        reliable_run(id, cs, t),
        window_filled(t, file, size, got, result),
        stands_at(cs[0], file, at, stored),
    ensures
        result is Ok,
    decreases t.len(),
{
    if got.len() < size {
        reliable_first(id, cs, t);
        let bytes = t[0]->Read_reply->Ok_0;
        if bytes.len() > 0 {
            windows_fill(
                id,
                cs.skip(1),
                t.skip(1),
                file,
                size,
                got + bytes,
                result,
                at + bytes.len(),
                stored,
            );
        }
    }
}

proof fn checks_succeed<D, F>(
    id: Naming,
    cs: Seq<Card<D, F>>,
    t: Seq<Call<D, F>>,
    file: F,
    done: int,
    result: Result<(), FsOpError>,
    stored: Seq<u8>,
)
    requires
        reliable_run(id, cs, t),
        contents_checked(t, file, stored, done, result),
        stands_at(cs[0], file, done, stored),
    ensures
        result is Ok,
        read_on(cs[0], cs.last(), file),
    decreases t.len(),
{
    assert(stored.take(done) == stored.take(done));
    check_runs(id, cs, t, file, stored, done, result, stored);
    let (k, chunk): (int, Result<Seq<u8>, FsOpError>) = choose|
        k: int,
        chunk: Result<Seq<u8>, FsOpError>,
    |
        {
            &&& 1 <= k <= t.len()
            &&& #[trigger] window_filled(
                t.take(k),
                file,
                READ_CHUNK_BYTES as int,
                Seq::empty(),
                chunk,
            )
            &&& match chunk {
                Err(error) => k == t.len() && result == Err::<(), FsOpError>(error),
                Ok(bytes) => {
                    let end = done + bytes.len();
                    if bytes.len() == 0 {
                        &&& k == t.len()
                        &&& if done == stored.len() {
                            result is Ok
                        } else {
                            result == Err::<(), FsOpError>(FsOpError::VerifyFailed)
                        }
                    } else if end > stored.len() || bytes != stored.subrange(done, end) {
                        k == t.len() && result == Err::<(), FsOpError>(FsOpError::VerifyFailed)
                    } else {
                        contents_checked(t.skip(k), file, stored, end, result)
                    }
                },
            }
        };
    reliable_parts(id, cs, t, k);
    let size = READ_CHUNK_BYTES as int;
    window_runs(id, cs.take(k + 1), t.take(k), file, size, Seq::empty(), chunk, done, stored);
    windows_fill(id, cs.take(k + 1), t.take(k), file, size, Seq::empty(), chunk, done, stored);
    let bytes = chunk->Ok_0;
    let end = done + bytes.len();
    assert(bytes =~= stored.subrange(done, end));
    if bytes.len() > 0 {
        checks_succeed(id, cs.skip(k), t.skip(k), file, end, result, stored);
    }
}

proof fn verifications_succeed<D, F>(
    id: Naming,
    cs: Seq<Card<D, F>>,
    t: Seq<Call<D, F>>,
    path: Seq<char>,
    expected: Seq<u8>,
    result: Result<(), FsOpError>,
)
    requires
        reliable_run(id, cs, t),
        file_verified(t, path, expected, result),
        folders_stand(cs[0], place_of(id, path).directory),
        holds_file(cs[0], place_of(id, path), expected),
    ensures
        result is Ok,
        cs.last().entries == cs[0].entries,
{
    verify_runs(id, cs, t, path, expected, result);
    let (k, opened): (int, Result<F, FsOpError>) = choose|k: int, opened: Result<F, FsOpError>|
        {
            &&& 0 <= k <= t.len()
            &&& #[trigger] file_opened(t.take(k), path, OpenMode::ReadOnly, opened)
            &&& match opened {
                Err(error) => k == t.len() && result == Err::<(), FsOpError>(error),
                Ok(file) => {
                    &&& k < t.len()
                    &&& contents_checked(t.subrange(k, t.len() - 1), file, expected, 0, result)
                    &&& t.last() matches Call::CloseFile { file: f, .. } && f == file
                },
            }
        };
    reliable_parts(id, cs, t, k);
    file_opening_succeeds(id, cs.take(k + 1), t.take(k), path, OpenMode::ReadOnly, opened);
    reliable_middle(id, cs, t, k);
    checks_succeed(
        id,
        cs.subrange(k, t.len() as int),
        t.subrange(k, t.len() - 1),
        opened->Ok_0,
        0,
        result,
        expected,
    );
}

proof fn writes_succeed<D, F>(
    id: Naming,
    cs: Seq<Card<D, F>>,
    t: Seq<Call<D, F>>,
    path: Seq<char>,
    contents: Seq<u8>,
    result: Result<(), FsOpError>,
)
    requires
        reliable_run(id, cs, t),
        file_written(t, path, contents, result),
        folders_stand(cs[0], place_of(id, path).directory),
        may_open(cs[0], place_of(id, path), OpenMode::ReadWriteCreateOrTruncate),
    ensures
        result is Ok,
        cs.last().entries == cs[0].entries.insert(place_of(id, path), file_with(contents)),
{
    let mode = OpenMode::ReadWriteCreateOrTruncate;
    let place = place_of(id, path);
    let (k, opened): (int, Result<F, FsOpError>) = choose|k: int, opened: Result<F, FsOpError>|
        {
            &&& 0 <= k <= t.len()
            &&& #[trigger] file_opened(t.take(k), path, OpenMode::ReadWriteCreateOrTruncate, opened)
            &&& match opened {
                Err(error) => k == t.len() && result == Err::<(), FsOpError>(error),
                Ok(file) => {
                    &&& t.len() == k + 2
                    &&& t[k] matches Call::Write { file: f, bytes, reply: written } && {
                        &&& f == file
                        &&& bytes == contents
                        &&& t[k + 1] matches Call::CloseFile { file: g, reply: closed } && {
                            &&& g == file
                            &&& result == first_failure(op_result(written), op_result(closed))
                        }
                    }
                },
            }
        };
    reliable_parts(id, cs, t, k);
    file_opening_succeeds(id, cs.take(k + 1), t.take(k), path, mode, opened);
    let file = opened->Ok_0;
    reliable_middle(id, cs, t, k);
    let u = t.subrange(k, t.len() - 1);
    let ds = cs.subrange(k, t.len() as int);
    reliable_first(id, ds, u);
    assert(u[0] == t[k]);
    assert(ds[1] == cs[k + 1]);
    let none = Seq::<u8>::empty();
    assert(stands_at(cs[k], file, none.len() as int, none));
    assert(appended(cs[k], cs[k + 1], file, none + contents));
    assert(none + contents =~= contents);
    assert(cs.last().entries =~= cs[0].entries.insert(place, file_with(contents)));
}

/// Saving a file succeeds, and changes nothing else.
pub proof fn file_saves_succeed<D, F>(
    id: Naming,
    cs: Seq<Card<D, F>>,
    t: Seq<Call<D, F>>,
    path: Seq<char>,
    contents: Seq<u8>,
    result: Result<(), FsOpError>,
)
    requires
        reliable_run(id, cs, t),
        file_saved(t, path, contents, result),
        folders_stand(cs[0], place_of(id, path).directory),
        may_open(cs[0], place_of(id, path), OpenMode::ReadWriteCreateOrTruncate),
    ensures
        result is Ok,
        cs.last().entries == cs[0].entries.insert(place_of(id, path), file_with(contents)),
{
    let place = place_of(id, path);
    let (k, written): (int, Result<(), FsOpError>) = choose|k: int, written: Result<(), FsOpError>|
        {
            &&& 0 <= k <= t.len()
            &&& #[trigger] file_written(t.take(k), path, contents, written)
            &&& if written is Err {
                k == t.len() && result == written
            } else {
                file_verified(t.skip(k), path, contents, result)
            }
        };
    reliable_parts(id, cs, t, k);
    writes_succeed(id, cs.take(k + 1), t.take(k), path, contents, written);
    assert(cs[k].entries.remove(place) =~= cs[0].entries.remove(place));
    folders_still_stand(cs[0], cs[k], place, place.directory);
    verifications_succeed(id, cs.skip(k), t.skip(k), path, contents, result);
}

proof fn streams_succeed<D, F>(
    id: Naming,
    cs: Seq<Card<D, F>>,
    t: Seq<Call<D, F>>,
    source: F,
    destination: F,
    chunks_left: int,
    result: Result<(), FsOpError>,
    at: int,
    stored: Seq<u8>,
)
    requires
        reliable_run(id, cs, t),
        streamed(t, source, destination, chunks_left, result),
        source != destination,
        stands_at(cs[0], source, at, stored),
        stands_at(cs[0], destination, at, stored.take(at)),
        cs[0].files[source].place != cs[0].files[destination].place,
        cs[0].entries[cs[0].files[destination].place] == file_with(stored.take(at)),
        chunks_left > stored.len() - at,
    ensures
        result is Ok,
        cs.last().entries == cs[0].entries.insert(
            cs[0].files[destination].place,
            file_with(stored),
        ) || at == stored.len() && cs.last().entries == cs[0].entries,
        cs.last().files.dom() == cs[0].files.dom(),
        cs.last().files[source].writable == cs[0].files[source].writable,
        cs.last().files[source].place == cs[0].files[source].place,
    decreases t.len(),
{
    let place = cs[0].files[destination].place;
    reliable_first(id, cs, t);
    let chunk = t[0]->Read_reply->Ok_0;
    let next = at + chunk.len();
    if chunk.len() == 0 {
        assert(cs.last() == cs[1]);
        assert(cs[1].files.dom() =~= cs[0].files.dom());
    } else {
        reliable_first(id, cs.skip(1), t.skip(1));
        assert(t.skip(1)[0] == t[1]);
        assert(cs.skip(1)[1] == cs[2]);
        assert(cs.skip(1).skip(1) =~= cs.skip(2));
        assert(t.skip(1).skip(1) =~= t.skip(2));
        let so_far = stored.take(at);
        assert(stands_at(cs[1], destination, so_far.len() as int, so_far));
        assert(appended(cs[1], cs[2], destination, so_far + chunk));
        assert(so_far + chunk =~= stored.take(next));
        streams_succeed(
            id,
            cs.skip(2),
            t.skip(2),
            source,
            destination,
            chunks_left - 1,
            result,
            next,
            stored,
        );
        assert(cs[2].entries =~= cs[0].entries.insert(place, file_with(stored.take(next))));
        if next == stored.len() {
            assert(stored.take(next) =~= stored);
        }
        assert(cs.last().entries =~= cs[0].entries.insert(place, file_with(stored)));
        assert(cs.last().files.dom() =~= cs[0].files.dom());
    }
}

proof fn copies_to_succeed<D, F>(
    id: Naming,
    cs: Seq<Card<D, F>>,
    t: Seq<Call<D, F>>,
    source: F,
    to: Seq<char>,
    mode: OpenMode,
    result: Result<(), FsOpError>,
    stored: Seq<u8>,
)
    requires
        reliable_run(id, cs, t),
        copied_to(t, source, to, mode, result),
        stands_at(cs[0], source, 0, stored),
        cs[0].files[source].place != place_of(id, to),
        folders_stand(cs[0], place_of(id, to).directory),
        may_open(cs[0], place_of(id, to), mode),
        mode != OpenMode::ReadOnly,
        stored.len() < MAX_CHUNKS,
    ensures
        result is Ok,
        cs.last().entries == cs[0].entries.insert(place_of(id, to), file_with(stored)),
        cs.last().files.contains_key(source),
        cs.last().files[source].writable == cs[0].files[source].writable,
{
    let place = place_of(id, to);
    let (k, opened): (int, Result<F, FsOpError>) = choose|k: int, opened: Result<F, FsOpError>|
        {
            &&& 0 <= k <= t.len()
            &&& #[trigger] file_opened(t.take(k), to, mode, opened)
            &&& match opened {
                Err(error) => k == t.len() && result == Err::<(), FsOpError>(error),
                Ok(destination) => {
                    &&& k < t.len()
                    &&& t.last() matches Call::CloseFile { file, reply } && file == destination
                        && exists|outcome: Result<(), FsOpError>| #[trigger]
                        streamed(
                            t.subrange(k, t.len() - 1),
                            source,
                            destination,
                            MAX_CHUNKS as int,
                            outcome,
                        ) && result == first_failure(outcome, op_result(reply))
                },
            }
        };
    reliable_parts(id, cs, t, k);
    file_opening_succeeds(id, cs.take(k + 1), t.take(k), to, mode, opened);
    let destination = opened->Ok_0;
    reliable_middle(id, cs, t, k);
    let reply = t.last()->CloseFile_reply;
    let u = t.subrange(k, t.len() - 1);
    let ds = cs.subrange(k, t.len() as int);
    let outcome = choose|outcome: Result<(), FsOpError>| #[trigger]
        streamed(u, source, destination, MAX_CHUNKS as int, outcome) && result == first_failure(
            outcome,
            op_result(reply),
        );
    assert(stored.take(0) =~= Seq::empty());
    assert(ds[0].entries == cs[0].entries.insert(place, file_with(Seq::empty())));
    streams_succeed(
        id,
        ds,
        u,
        source,
        destination,
        MAX_CHUNKS as int,
        outcome,
        0,
        stored,
    );
    assert(ds.last().files.contains_key(destination));
    if stored.len() == 0 {
        assert(stored =~= Seq::empty());
    }
    assert(cs.last().entries =~= cs[0].entries.insert(place, file_with(stored)));
}

proof fn comparisons_succeed<D, F>(
    id: Naming,
    cs: Seq<Card<D, F>>,
    t: Seq<Call<D, F>>,
    left: F,
    right: F,
    chunks_left: int,
    result: Result<(), FsOpError>,
    at: int,
    stored: Seq<u8>,
)
    requires
        reliable_run(id, cs, t),
        contents_compared(t, left, right, chunks_left, result),
        left != right,
        stands_at(cs[0], left, at, stored),
        stands_at(cs[0], right, at, stored),
        chunks_left > stored.len() - at,
    ensures
        result is Ok,
    decreases t.len(),
{
    let (k, chunk): (int, Result<Seq<u8>, FsOpError>) = choose|
        k: int,
        chunk: Result<Seq<u8>, FsOpError>,
    |
        {
            &&& 1 <= k <= t.len()
            &&& #[trigger] window_filled(
                t.take(k),
                left,
                COPY_CHUNK_BYTES as int,
                Seq::empty(),
                chunk,
            )
            &&& match chunk {
                Err(error) => k == t.len() && result == Err::<(), FsOpError>(error),
                Ok(bytes) => chunk_compared(t.skip(k), left, right, bytes, chunks_left, result),
            }
        };
    reliable_parts(id, cs, t, k);
    let size = COPY_CHUNK_BYTES as int;
    window_runs(id, cs.take(k + 1), t.take(k), left, size, Seq::empty(), chunk, at, stored);
    windows_fill(id, cs.take(k + 1), t.take(k), left, size, Seq::empty(), chunk, at, stored);
    let bytes = chunk->Ok_0;
    let next = at + bytes.len();
    assert(bytes =~= stored.subrange(at, next));
    let u = t.skip(k);
    let ds = cs.skip(k);
    let (m, others): (int, Result<Seq<u8>, FsOpError>) = choose|
        m: int,
        others: Result<Seq<u8>, FsOpError>,
    |
        {
            &&& 1 <= m <= u.len()
            &&& #[trigger] window_filled(
                u.take(m),
                right,
                COPY_CHUNK_BYTES as int,
                Seq::empty(),
                others,
            )
            &&& match others {
                Err(error) => m == u.len() && result == Err::<(), FsOpError>(error),
                Ok(more) => if more != bytes {
                    m == u.len() && result == Err::<(), FsOpError>(FsOpError::VerifyFailed)
                } else if bytes.len() == 0 {
                    m == u.len() && result is Ok
                } else {
                    contents_compared(u.skip(m), left, right, chunks_left - 1, result)
                },
            }
        };
    reliable_parts(id, ds, u, m);
    assert(stands_at(ds[0], right, at, stored));
    window_runs(id, ds.take(m + 1), u.take(m), right, size, Seq::empty(), others, at, stored);
    windows_fill(id, ds.take(m + 1), u.take(m), right, size, Seq::empty(), others, at, stored);
    let more = others->Ok_0;
    assert(more =~= stored.subrange(at, at + more.len()));
    assert(more.len() == bytes.len());
    if bytes.len() > 0 {
        assert(stands_at(ds.skip(m)[0], left, next, stored));
        comparisons_succeed(
            id,
            ds.skip(m),
            u.skip(m),
            left,
            right,
            chunks_left - 1,
            result,
            next,
            stored,
        );
    }
}

proof fn comparisons_with_succeed<D, F>(
    id: Naming,
    cs: Seq<Card<D, F>>,
    t: Seq<Call<D, F>>,
    left: F,
    right: Seq<char>,
    result: Result<(), FsOpError>,
    stored: Seq<u8>,
)
    requires
        reliable_run(id, cs, t),
        compared_with(t, left, right, result),
        stands_at(cs[0], left, 0, stored),
        folders_stand(cs[0], place_of(id, right).directory),
        holds_file(cs[0], place_of(id, right), stored),
        stored.len() < MAX_CHUNKS,
    ensures
        result is Ok,
{
    let (k, opened): (int, Result<F, FsOpError>) = choose|k: int, opened: Result<F, FsOpError>|
        {
            &&& 0 <= k <= t.len()
            &&& #[trigger] file_opened(t.take(k), right, OpenMode::ReadOnly, opened)
            &&& match opened {
                Err(error) => k == t.len() && result == Err::<(), FsOpError>(error),
                Ok(file) => {
                    &&& k < t.len()
                    &&& contents_compared(
                        t.subrange(k, t.len() - 1),
                        left,
                        file,
                        MAX_CHUNKS as int,
                        result,
                    )
                    &&& t.last() matches Call::CloseFile { file: f, .. } && f == file
                },
            }
        };
    reliable_parts(id, cs, t, k);
    file_opening_succeeds(id, cs.take(k + 1), t.take(k), right, OpenMode::ReadOnly, opened);
    reliable_middle(id, cs, t, k);
    comparisons_succeed(
        id,
        cs.subrange(k, t.len() as int),
        t.subrange(k, t.len() - 1),
        left,
        opened->Ok_0,
        MAX_CHUNKS as int,
        result,
        0,
        stored,
    );
}

proof fn file_comparisons_succeed<D, F>(
    id: Naming,
    cs: Seq<Card<D, F>>,
    t: Seq<Call<D, F>>,
    left: Seq<char>,
    right: Seq<char>,
    result: Result<(), FsOpError>,
    stored: Seq<u8>,
)
    requires
        reliable_run(id, cs, t),
        files_compared(t, left, right, result),
        folders_stand(cs[0], place_of(id, left).directory),
        folders_stand(cs[0], place_of(id, right).directory),
        holds_file(cs[0], place_of(id, left), stored),
        holds_file(cs[0], place_of(id, right), stored),
        stored.len() < MAX_CHUNKS,
    ensures
        result is Ok,
        cs.last().entries == cs[0].entries,
{
    compare_runs(id, cs, t, left, right, result);
    let (k, opened): (int, Result<F, FsOpError>) = choose|k: int, opened: Result<F, FsOpError>|
        {
            &&& 0 <= k <= t.len()
            &&& #[trigger] file_opened(t.take(k), left, OpenMode::ReadOnly, opened)
            &&& match opened {
                Err(error) => k == t.len() && result == Err::<(), FsOpError>(error),
                Ok(file) => {
                    &&& k < t.len()
                    &&& compared_with(t.subrange(k, t.len() - 1), file, right, result)
                    &&& t.last() matches Call::CloseFile { file: f, .. } && f == file
                },
            }
        };
    reliable_parts(id, cs, t, k);
    file_opening_succeeds(id, cs.take(k + 1), t.take(k), left, OpenMode::ReadOnly, opened);
    reliable_middle(id, cs, t, k);
    comparisons_with_succeed(
        id,
        cs.subrange(k, t.len() as int),
        t.subrange(k, t.len() - 1),
        opened->Ok_0,
        right,
        result,
        stored,
    );
}

proof fn copies_from_succeed<D, F>(
    id: Naming,
    cs: Seq<Card<D, F>>,
    t: Seq<Call<D, F>>,
    source: F,
    from: Seq<char>,
    to: Seq<char>,
    mode: OpenMode,
    result: Result<(), FsOpError>,
    stored: Seq<u8>,
)
    requires
        reliable_run(id, cs, t),
        copied_from(t, source, from, to, mode, result),
        stands_at(cs[0], source, 0, stored),
        cs[0].files[source].place == place_of(id, from),
        folders_stand(cs[0], place_of(id, from).directory),
        folders_stand(cs[0], place_of(id, to).directory),
        holds_file(cs[0], place_of(id, from), stored),
        place_of(id, from) != place_of(id, to),
        may_open(cs[0], place_of(id, to), mode),
        mode != OpenMode::ReadOnly,
        stored.len() < MAX_CHUNKS,
    ensures
        result is Ok,
        cs.last().entries == cs[0].entries.insert(place_of(id, to), file_with(stored)),
{
    let place = place_of(id, to);
    let (k, copied): (int, Result<(), FsOpError>) = choose|k: int, copied: Result<(), FsOpError>|
        {
            &&& 0 <= k < t.len()
            &&& #[trigger] copied_to(t.take(k), source, to, mode, copied)
            &&& t[k] matches Call::CloseFile { file, .. } && file == source
            &&& if copied is Err {
                t.len() == k + 1 && result == copied
            } else {
                files_compared(t.skip(k + 1), from, to, result)
            }
        };
    reliable_parts(id, cs, t, k);
    copies_to_succeed(id, cs.take(k + 1), t.take(k), source, to, mode, copied, stored);
    let d = cs[k + 1];
    assert(reliable_run(id, cs.skip(k + 1), t.skip(k + 1)) && d.entries == cs[k].entries) by {
        reliable_first(id, cs.skip(k), t.skip(k));
        assert(t.skip(k)[0] == t[k]);
        assert(cs.skip(k)[1] == d);
        assert(cs.skip(k).skip(1) =~= cs.skip(k + 1));
        assert(t.skip(k).skip(1) =~= t.skip(k + 1));
    }
    assert(d.entries.remove(place) =~= cs[0].entries.remove(place));
    folders_still_stand(cs[0], d, place, place.directory);
    folders_still_stand(cs[0], d, place, place_of(id, from).directory);
    assert(cs.skip(k + 1)[0] == d);
    file_comparisons_succeed(id, cs.skip(k + 1), t.skip(k + 1), from, to, result, stored);
}

/// Copying a file succeeds, and changes nothing else.
pub proof fn file_copies_succeed<D, F>(
    id: Naming,
    cs: Seq<Card<D, F>>,
    t: Seq<Call<D, F>>,
    from: Seq<char>,
    to: Seq<char>,
    mode: OpenMode,
    result: Result<(), FsOpError>,
    stored: Seq<u8>,
)
    requires
        reliable_run(id, cs, t),
        file_copied(t, from, to, mode, result),
        folders_stand(cs[0], place_of(id, from).directory),
        folders_stand(cs[0], place_of(id, to).directory),
        holds_file(cs[0], place_of(id, from), stored),
        place_of(id, from) != place_of(id, to),
        may_open(cs[0], place_of(id, to), mode),
        mode != OpenMode::ReadOnly,
        stored.len() < MAX_CHUNKS,
    ensures
        result is Ok,
        cs.last().entries == cs[0].entries.insert(place_of(id, to), file_with(stored)),
{
    let (k, opened): (int, Result<F, FsOpError>) = choose|k: int, opened: Result<F, FsOpError>|
        {
            &&& 0 <= k <= t.len()
            &&& #[trigger] file_opened(t.take(k), from, OpenMode::ReadOnly, opened)
            &&& match opened {
                Err(error) => k == t.len() && result == Err::<(), FsOpError>(error),
                Ok(source) => copied_from(t.skip(k), source, from, to, mode, result),
            }
        };
    reliable_parts(id, cs, t, k);
    file_opening_succeeds(id, cs.take(k + 1), t.take(k), from, OpenMode::ReadOnly, opened);
    let source = opened->Ok_0;
    assert(stands_at(cs[k], source, 0, stored));
    same_entries_same_folders(cs[0], cs[k], place_of(id, from).directory);
    same_entries_same_folders(cs[0], cs[k], place_of(id, to).directory);
    copies_from_succeed(id, cs.skip(k), t.skip(k), source, from, to, mode, result, stored);
}

pub(crate) proof fn same_entries_same_folders<D, F>(
    c: Card<D, F>,
    d: Card<D, F>,
    directory: Seq<Seq<char>>,
)
    requires
        folders_stand(c, directory),
        d.entries == c.entries,
    ensures
        folders_stand(d, directory),
{
    assert forall|i: int| 0 <= i < directory.len() implies holds_folder(
        d,
        Place { directory: directory.take(i), name: #[trigger] directory[i] },
    ) by {
        assert(holds_folder(c, Place { directory: directory.take(i), name: directory[i] }));
    }
}

proof fn reclaiming_succeeds<D, F>(
    id: Naming,
    cs: Seq<Card<D, F>>,
    t: Seq<Call<D, F>>,
    fat32: bool,
    dir: D,
    name: Seq<char>,
    truncated: bool,
)
    requires
        reliable_run(id, cs, t),
        reclaimed(t, fat32, dir, name, truncated),
        may_remove(cs[0], Place { directory: cs[0].dirs[dir], name: id(name) }),
    ensures
        cs.last().dirs == cs[0].dirs,
        may_remove(cs.last(), Place { directory: cs[0].dirs[dir], name: id(name) }),
{
    let place = Place { directory: cs[0].dirs[dir], name: id(name) };
    if fat32 {
        reliable_first(id, cs, t);
        if holds_folder(cs[0], place) {
            assert(cs.last() == cs[1]);
            let below = place.directory.push(place.name);
            assert(nothing_below(cs[0], below));
            assert(nothing_below(cs[1], below));
        } else {
            reliable_first(id, cs.skip(1), t.skip(1));
            assert(t.skip(1)[0] == t[1]);
            assert(cs.skip(1)[1] == cs[2]);
            assert(cs.last() == cs[2]);
        }
    } else {
        assert(cs.last() == cs[0]);
    }
}

proof fn one_removal_succeeds<D, F>(
    id: Naming,
    cs: Seq<Card<D, F>>,
    t: Seq<Call<D, F>>,
    fat32: bool,
    name: Seq<char>,
    dir: D,
    result: Result<(), FsOpError>,
)
    requires
        reliable_run(id, cs, t),
        one_file_removed(t, fat32, name, dir, result),
        may_remove(cs[0], Place { directory: cs[0].dirs[dir], name: id(name) }),
    ensures
        result is Ok,
        cs.last().dirs == cs[0].dirs,
        cs.last().entries == cs[0].entries.remove(
            Place { directory: cs[0].dirs[dir], name: id(name) },
        ),
{
    file_removal_runs(id, cs, t, fat32, name, dir, result);
    let (k, truncated): (int, bool) = choose|k: int, truncated: bool|
        {
            &&& 0 <= k <= t.len()
            &&& #[trigger] reclaimed(t.take(k), fat32, dir, name, truncated)
            &&& entry_deleted(t.skip(k), dir, name, truncated, result)
        };
    reliable_parts(id, cs, t, k);
    reclaiming_succeeds(id, cs.take(k + 1), t.take(k), fat32, dir, name, truncated);
    let u = t.skip(k);
    let (m, reply, absent) = first_delete(u, dir, name, truncated, result);
    reliable_first(id, cs.skip(k), u);
    assert(u.take(m)[0] == u[0]);
    assert(reply is Ok);
    let left = DELETE_RETRY_ATTEMPTS - 1;
    let v = u.skip(m);
    assert(forall|w: Seq<Call<D, F>>, last: Result<(), VolumeError>| #[trigger]
        delete_retried(w, dir, name, left, reply, last) ==> last is Ok);
    assert(delete_concluded(v, dir, name, reply, truncated, result));
}

/// Removing a file or an empty folder succeeds, and changes nothing else.
pub proof fn removals_succeed<D, F>(
    id: Naming,
    cs: Seq<Card<D, F>>,
    t: Seq<Call<D, F>>,
    fat32: bool,
    path: Seq<char>,
    result: Result<(), FsOpError>,
)
    requires
        reliable_run(id, cs, t),
        path_removed(t, fat32, path, result),
        folders_stand(cs[0], place_of(id, path).directory),
        may_remove(cs[0], place_of(id, path)),
    ensures
        result is Ok,
        cs.last().entries == cs[0].entries.remove(place_of(id, path)),
{
    let leaf = leaf_of(path);
    let place = place_of(id, path);
    let directory = images(id, components_of(parent_of(path)));
    let body = file_removed::<D, F>(fat32, leaf);
    inside_succeeds(id, cs, t, parent_of(path), body, result);
    let (inner, calls, dir) = choose|inner: Seq<Card<D, F>>, calls: Seq<Call<D, F>>, dir: D|
        {
            &&& #[trigger] reliable_run(id, inner, calls)
            &&& !cs[0].dirs.contains_key(dir)
            &&& inner[0] == (Card { dirs: cs[0].dirs.insert(dir, directory), ..cs[0] })
            &&& #[trigger] body(calls, dir, result)
            &&& cs.last() == (Card { dirs: inner.last().dirs.remove(dir), ..inner.last() })
        };
    assert(inner[0].dirs[dir] == directory);
    assert(may_remove(inner[0], place)) by {
        let below = place.directory.push(place.name);
        if nothing_below(cs[0], below) {
            assert(nothing_below(inner[0], below));
        }
    }
    one_removal_succeeds(id, inner, calls, fat32, leaf, dir, result);
}

/// The place is that of a file among `children[i..]`.
pub open spec fn is_file_of(
    id: Naming,
    directory: Seq<Seq<char>>,
    children: Seq<ChildEntry>,
    i: int,
    place: Place,
) -> bool {
    &&& place.directory == directory
    &&& exists|j: int|
        i <= j < children.len() && !(#[trigger] children[j]).is_dir && id(children[j].name@)
            == place.name
}

/// Nothing stands against removing the files among `children[i..]`.
pub open spec fn may_remove_files<D, F>(
    id: Naming,
    c: Card<D, F>,
    directory: Seq<Seq<char>>,
    children: Seq<ChildEntry>,
    i: int,
) -> bool {
    &&& forall|j: int|
        i <= j < children.len() && !(#[trigger] children[j]).is_dir ==> !children[j].read_only
            && holds_writable(c, Place { directory, name: id(children[j].name@) })
    &&& forall|j: int, l: int|
        i <= j < children.len() && i <= l < children.len() && j != l ==> id(
            (#[trigger] children[j]).name@,
        ) != id((#[trigger] children[l]).name@)
}

/// The files among `children[i..]` are gone, and nothing else changed.
pub open spec fn files_gone<D, F>(
    id: Naming,
    c: Card<D, F>,
    d: Card<D, F>,
    directory: Seq<Seq<char>>,
    children: Seq<ChildEntry>,
    i: int,
) -> bool {
    forall|place: Place| #[trigger] gone_or_kept(id, c, d, directory, children, i, place)
}

/// A file among `children[i..]` is gone, and anything else is as it was.
pub open spec fn gone_or_kept<D, F>(
    id: Naming,
    c: Card<D, F>,
    d: Card<D, F>,
    directory: Seq<Seq<char>>,
    children: Seq<ChildEntry>,
    i: int,
    place: Place,
) -> bool {
    if is_file_of(id, directory, children, i, place) {
        !d.entries.contains_key(place)
    } else {
        unchanged_at(c, d, place)
    }
}

proof fn batch_removal_succeeds<D, F>(
    id: Naming,
    cs: Seq<Card<D, F>>,
    t: Seq<Call<D, F>>,
    fat32: bool,
    dir: D,
    children: Seq<ChildEntry>,
    i: int,
    so_far: bool,
    destroyed: bool,
    result: Result<(), FsOpError>,
)
    requires
        reliable_run(id, cs, t),
        batch_removed(t, fat32, dir, children, i, so_far, destroyed, result),
        i >= 0,
        may_remove_files(id, cs[0], cs[0].dirs[dir], children, i),
    ensures
        result is Ok,
        cs.last().dirs == cs[0].dirs,
        files_gone(id, cs[0], cs.last(), cs[0].dirs[dir], children, i),
    decreases children.len() - i,
{
    let directory = cs[0].dirs[dir];
    if i >= children.len() {
        assert(cs.last() == cs[0]);
    } else if children[i].is_dir {
        batch_removal_succeeds(
            id,
            cs,
            t,
            fat32,
            dir,
            children,
            i + 1,
            so_far,
            destroyed,
            result,
        );
        assert forall|place: Place| #[trigger]
            gone_or_kept(id, cs[0], cs.last(), directory, children, i, place) by {
            assert(gone_or_kept(id, cs[0], cs.last(), directory, children, i + 1, place));
            if is_file_of(id, directory, children, i + 1, place) {
                let j = choose|j: int|
                    i + 1 <= j < children.len() && !(#[trigger] children[j]).is_dir && id(
                        children[j].name@,
                    ) == place.name;
                assert(i <= j && !children[j].is_dir);
            } else if is_file_of(id, directory, children, i, place) {
                let j = choose|j: int|
                    i <= j < children.len() && !(#[trigger] children[j]).is_dir && id(
                        children[j].name@,
                    ) == place.name;
                assert(j != i);
            }
        }
    } else {
        let name = children[i].name@;
        let own = Place { directory, name: id(name) };
        let (k, outcome): (int, Result<(), FsOpError>) = choose|
            k: int,
            outcome: Result<(), FsOpError>,
        |
            {
                &&& 0 <= k <= t.len()
                &&& #[trigger] one_file_removed(t.take(k), fat32, children[i].name@, dir, outcome)
                &&& if outcome is Err {
                    k == t.len() && destroyed == (so_far || destroys(outcome)) && result == outcome
                } else {
                    batch_removed(t.skip(k), fat32, dir, children, i + 1, true, destroyed, result)
                }
            };
        reliable_parts(id, cs, t, k);
        one_removal_succeeds(id, cs.take(k + 1), t.take(k), fat32, name, dir, outcome);
        assert(may_remove_files(id, cs[k], directory, children, i + 1)) by {
            assert forall|j: int|
                i + 1 <= j < children.len() && !(#[trigger] children[j]).is_dir
                implies !children[j].read_only && holds_writable(
                cs[k],
                Place { directory, name: id(children[j].name@) },
            ) by {
                assert(id(children[j].name@) != id(children[i].name@));
            }
        }
        batch_removal_succeeds(
            id,
            cs.skip(k),
            t.skip(k),
            fat32,
            dir,
            children,
            i + 1,
            true,
            destroyed,
            result,
        );
        assert forall|place: Place| #[trigger]
            gone_or_kept(id, cs[0], cs.last(), directory, children, i, place) by {
            assert(gone_or_kept(id, cs[k], cs.last(), directory, children, i + 1, place));
            if is_file_of(id, directory, children, i + 1, place) {
                let j = choose|j: int|
                    i + 1 <= j < children.len() && !(#[trigger] children[j]).is_dir && id(
                        children[j].name@,
                    ) == place.name;
                assert(is_file_of(id, directory, children, i, place));
                assert(!cs.last().entries.contains_key(place));
            } else if is_file_of(id, directory, children, i, place) {
                let j = choose|j: int|
                    i <= j < children.len() && !(#[trigger] children[j]).is_dir && id(
                        children[j].name@,
                    ) == place.name;
                assert(j == i);
                assert(place == own);
            } else {
                assert(place != own);
            }
        }
    }
}

/// Removing files of a folder succeeds, and changes nothing else.
pub proof fn file_removals_succeed<D, F>(
    id: Naming,
    cs: Seq<Card<D, F>>,
    t: Seq<Call<D, F>>,
    fat32: bool,
    path: Seq<char>,
    children: Seq<ChildEntry>,
    destroyed: bool,
    result: Result<(), FsOpError>,
)
    requires
        reliable_run(id, cs, t),
        files_removed(t, fat32, path, children, destroyed, result),
        folders_stand(cs[0], images(id, components_of(path))),
        may_remove_files(id, cs[0], images(id, components_of(path)), children, 0),
    ensures
        result is Ok,
        files_gone(id, cs[0], cs.last(), images(id, components_of(path)), children, 0),
{
    let directory = images(id, components_of(path));
    if exists|error: FsOpError| #[trigger]
        dir_opened(t, path, Err::<D, FsOpError>(error)) && result == Err::<(), FsOpError>(error)
            && !destroyed {
        let error = choose|error: FsOpError| #[trigger]
            dir_opened(t, path, Err::<D, FsOpError>(error)) && result == Err::<(), FsOpError>(error)
                && !destroyed;
        dir_opening_succeeds(id, cs, t, path, Err::<D, FsOpError>(error));
    } else {
        let (k, dir): (int, D) = choose|k: int, dir: D|
            {
                &&& 0 <= k < t.len()
                &&& #[trigger] dir_opened(t.take(k), path, Ok::<D, FsOpError>(dir))
                &&& t.last() == Call::<D, F>::CloseDir { dir }
                &&& batch_removed(
                    t.subrange(k, t.len() - 1),
                    fat32,
                    dir,
                    children,
                    0,
                    false,
                    destroyed,
                    result,
                )
            };
        reliable_middle(id, cs, t, k);
        dir_opening_runs(id, cs.take(k + 1), t.take(k), path, Ok::<D, FsOpError>(dir));
        let inner = cs.subrange(k, t.len() as int);
        let calls = t.subrange(k, t.len() - 1);
        assert(may_remove_files(id, inner[0], directory, children, 0)) by {
            assert forall|j: int|
                0 <= j < children.len() && !(#[trigger] children[j]).is_dir
                implies !children[j].read_only && holds_writable(
                inner[0],
                Place { directory, name: id(children[j].name@) },
            ) by {
                assert(holds_writable(cs[0], Place { directory, name: id(children[j].name@) }));
            }
        }
        batch_removal_succeeds(
            id,
            inner,
            calls,
            fat32,
            dir,
            children,
            0,
            false,
            destroyed,
            result,
        );
        assert forall|place: Place| #[trigger]
            gone_or_kept(id, cs[0], cs.last(), directory, children, 0, place) by {
            assert(gone_or_kept(id, inner[0], inner.last(), directory, children, 0, place));
        }
    }
}

/// Walking over a folder that stands succeeds.
pub proof fn walks_succeed<D, F>(
    id: Naming,
    cs: Seq<Card<D, F>>,
    t: Seq<Call<D, F>>,
    path: Seq<char>,
    rule: ScanRuleView,
    result: Result<Seq<EntryRecord>, FsOpError>,
)
    requires
        reliable_run(id, cs, t),
        path_scanned(t, path, rule, result),
        folders_stand(cs[0], images(id, components_of(path))),
    ensures
        result is Ok,
{
    let directory = images(id, components_of(path));
    let body = dir_iterated::<D, F>(rule);
    inside_succeeds(id, cs, t, path, body, result);
    let (inner, calls, dir) = choose|inner: Seq<Card<D, F>>, calls: Seq<Call<D, F>>, dir: D|
        {
            &&& #[trigger] reliable_run(id, inner, calls)
            &&& !cs[0].dirs.contains_key(dir)
            &&& inner[0] == (Card { dirs: cs[0].dirs.insert(dir, directory), ..cs[0] })
            &&& #[trigger] body(calls, dir, result)
            &&& cs.last() == (Card { dirs: inner.last().dirs.remove(dir), ..inner.last() })
        };
    reliable_first(id, inner, calls);
}

/// Making a folder where nothing is succeeds, and changes nothing else.
pub proof fn makings_succeed<D, F>(
    id: Naming,
    cs: Seq<Card<D, F>>,
    t: Seq<Call<D, F>>,
    path: Seq<char>,
    result: Result<(), FsOpError>,
)
    requires
        reliable_run(id, cs, t),
        inside(t, parent_of(path), bare_folder_made(leaf_of(path)), result),
        folders_stand(cs[0], place_of(id, path).directory),
        !cs[0].entries.contains_key(place_of(id, path)),
    ensures
        result is Ok,
{
    let leaf = leaf_of(path);
    let directory = images(id, components_of(parent_of(path)));
    let body = bare_folder_made::<D, F>(leaf);
    inside_succeeds(id, cs, t, parent_of(path), body, result);
    let (inner, calls, dir) = choose|inner: Seq<Card<D, F>>, calls: Seq<Call<D, F>>, dir: D|
        {
            &&& #[trigger] reliable_run(id, inner, calls)
            &&& !cs[0].dirs.contains_key(dir)
            &&& inner[0] == (Card { dirs: cs[0].dirs.insert(dir, directory), ..cs[0] })
            &&& #[trigger] body(calls, dir, result)
            &&& cs.last() == (Card { dirs: inner.last().dirs.remove(dir), ..inner.last() })
        };
    reliable_first(id, inner, calls);
    assert(inner[0].dirs[dir] == directory);
}

} // verus!
