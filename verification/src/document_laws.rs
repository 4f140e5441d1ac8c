//! What opening, creating and saving documents make of what a card holds.
use vstd::prelude::*;
use vstd::utf8::encode_utf8;

use crate::card::{document_loaded, CardFs};
use crate::contents::{
    call_fits, holds_file, holds_folder, images, place_of, run, run_first, run_middle, run_parts,
    same_elsewhere, Card, Naming, Place,
};
use crate::contents_laws::{reported_saves_are_on_the_card, stages_elsewhere};
use crate::contents_runs::{
    confirmed_runs, file_opening_runs, inside_runs, lookups_are_true, read_on, stands_at,
    unchanged_at, worked_in,
};
use crate::creation::{empty_file_made, folder_made, made_folder_verdict, name_taken};
use crate::editing::{editor_saved, EditorView};
use crate::editor::TextBuffer;
use crate::errors::{FsOpError, LoadError, SaveError, VolumeError};
use crate::files::{file_read, read_to_end};
use crate::names::{components_of, leaf_of, parent_of};
use crate::notice::Notice;
use crate::reliable::{file_with, folders_stand, inside_succeeds, reliable_first, reliable_run};
use crate::reliable_laws::{ready_for, saves_succeed_and_leave_nothing_behind};
use crate::saving::save_view;
use crate::screens::EditorMedia;
use crate::session::{explained, step_made, Session};
use crate::storage::since;
use crate::volume::{Call, EntryFacts, OpenMode, VolumeAccess};
use crate::walk::{ask_find, confirmed, file_opened, inside};

verus! {

proof fn reading_to_the_end_runs<D, F>(
    id: Naming,
    cs: Seq<Card<D, F>>,
    t: Seq<Call<D, F>>,
    file: F,
    got: Seq<u8>,
    result: Result<Seq<u8>, FsOpError>,
    at: int,
    stored: Seq<u8>,
)
    requires
        run(id, cs, t),
        read_to_end(t, file, got, result),
        stands_at(cs[0], file, at, stored),
        got == stored.take(at),
    ensures
        read_on(cs[0], cs.last(), file),
        result matches Ok(bytes) ==> bytes == stored,
    decreases t.len(),
{
    run_first(id, cs, t);
    match t[0]->Read_reply {
        Err(_) => {
            assert(cs.last() == cs[1]);
            assert(cs[0].files.insert(file, cs[0].files[file]) =~= cs[0].files);
        },
        Ok(bytes) => {
            let next = at + bytes.len();
            if bytes.len() == 0 {
                assert(cs.last() == cs[1]);
                assert(stored.take(at) =~= stored);
            } else {
                assert(got + bytes =~= stored.take(next));
                reading_to_the_end_runs(
                    id,
                    cs.skip(1),
                    t.skip(1),
                    file,
                    got + bytes,
                    result,
                    next,
                    stored,
                );
                assert(cs.last().files =~= cs[0].files.insert(
                    file,
                    crate::contents::OpenFile {
                        at: cs.last().files[file].at,
                        ..cs[0].files[file]
                    },
                ));
            }
        },
    }
}

/// What is read from a file is exactly what the card holds there, and reading changes nothing.
pub proof fn files_are_read_as_they_are<D, F>(
    id: Naming,
    cs: Seq<Card<D, F>>,
    t: Seq<Call<D, F>>,
    path: Seq<char>,
    result: Result<Seq<u8>, FsOpError>,
)
    requires
        run(id, cs, t),
        file_read(t, path, result),
    ensures
        cs.last().entries == cs[0].entries,
        result matches Ok(bytes) ==> holds_file(cs[0], place_of(id, path), bytes),
{
    let place = place_of(id, path);
    let (k, opened): (int, Result<F, FsOpError>) = choose|k: int, opened: Result<F, FsOpError>|
        {
            &&& 0 <= k <= t.len()
            &&& #[trigger] file_opened(t.take(k), path, OpenMode::ReadOnly, opened)
            &&& match opened {
                Err(error) => k == t.len() && result == Err::<Seq<u8>, FsOpError>(error),
                Ok(file) => {
                    &&& k < t.len()
                    &&& read_to_end(t.subrange(k, t.len() - 1), file, Seq::empty(), result)
                    &&& t.last() matches Call::CloseFile { file: f, .. } && f == file
                },
            }
        };
    run_parts(id, cs, t, k);
    file_opening_runs(id, cs.take(k + 1), t.take(k), path, OpenMode::ReadOnly, opened);
    match opened {
        Err(_) => {
            assert(cs.last() == cs[k]);
        },
        Ok(file) => {
            run_middle(id, cs, t, k);
            let stored = cs[0].entries[place]->bytes;
            assert(stored.take(0) =~= Seq::empty());
            reading_to_the_end_runs(
                id,
                cs.subrange(k, t.len() as int),
                t.subrange(k, t.len() - 1),
                file,
                Seq::empty(),
                result,
                0,
                stored,
            );
        },
    }
}

/// A document that was opened holds exactly the bytes of the file at its path, and opening it
/// changes nothing on the card.
pub proof fn opened_documents_hold_their_file<M: VolumeAccess>(
    id: Naming,
    cs: Seq<Card<M::Dir, M::File>>,
    before: CardFs<M>,
    after: CardFs<M>,
    path: Seq<char>,
    result: Result<TextBuffer, LoadError>,
)
    requires
        after.follows(&before),
        document_loaded(after.steps_since(&before), path, result),
        run(id, cs, since(before.volume().calls(), after.volume().calls())),
    ensures
        cs.last().entries == cs[0].entries,
        result matches Ok(buffer) ==> holds_file(
            cs[0],
            place_of(id, path),
            encode_utf8(buffer.text()),
        ),
{
    broadcast use vstd::utf8::decode_utf8_encode_utf8;

    let calls = since(before.volume().calls(), after.volume().calls());
    let steps = after.steps_since(&before);
    let layout = after.layout();
    reveal(Session::accounts_since);
    reveal(explained);
    assert(explained(calls, layout, steps));
    let k = choose|k: int|
        0 <= k <= calls.len() && explained(#[trigger] calls.take(k), layout, steps.drop_last())
            && step_made(calls.skip(k), layout, steps.last());
    run_parts(id, cs, calls, k);
    let front = calls.take(k);
    let head = steps.drop_last();
    if steps.len() == 1 {
        assert(front.len() == 0);
        assert(calls.skip(k) =~= calls);
        lookups_are_true(id, cs, calls, path, steps[0]->Find_reply);
    } else {
        let m = choose|m: int|
            0 <= m <= front.len() && explained(#[trigger] front.take(m), layout, head.drop_last())
                && step_made(front.skip(m), layout, head.last());
        assert(front.take(m).len() == 0);
        assert(front.skip(m) =~= front);
        assert(head.last() == steps[0]);
        lookups_are_true(id, cs.take(k + 1), front, path, steps[0]->Find_reply);
        files_are_read_as_they_are(
            id,
            cs.skip(k),
            calls.skip(k),
            path,
            steps[1]->Read_reply,
        );
        if let Ok(buffer) = result {
            assert(buffer.text() =~= buffer.after());
        }
    }
}

proof fn empty_file_body_runs<D, F>(
    id: Naming,
    cs: Seq<Card<D, F>>,
    t: Seq<Call<D, F>>,
    name: Seq<char>,
    dir: D,
    result: Result<(), FsOpError>,
)
    requires
        run(id, cs, t),
        empty_file_made::<D, F>(name)(t, dir, result),
    ensures
        same_elsewhere(
            cs[0],
            cs.last(),
            Place { directory: cs[0].dirs[dir], name: id(name) },
        ),
        result is Ok ==> !cs[0].entries.contains_key(
            Place { directory: cs[0].dirs[dir], name: id(name) },
        ),
{
    let place = Place { directory: cs[0].dirs[dir], name: id(name) };
    run_first(id, cs, t);
    let u = t.skip(1);
    let ds = cs.skip(1);
    if name_taken(t[0]->Find_reply) is None {
        run_first(id, ds, u);
        assert(u[0] == t[1]);
        assert(ds[1] == cs[2]);
        if t[1]->OpenFile_reply is Ok {
            run_first(id, ds.skip(1), u.skip(1));
            assert(u.skip(1)[0] == t[2]);
            assert(ds.skip(1)[1] == cs[3]);
            assert(cs[2].entries.remove(place) =~= cs[0].entries.remove(place));
            assert(cs.last() == cs[3]);
        } else {
            assert(cs.last() == cs[2]);
        }
    } else {
        assert(cs.last() == cs[1]);
    }
}

/// Creating a file never touches what is there already: it succeeds only where nothing was,
/// and nothing else on the card changes.
pub proof fn new_files_replace_nothing<D, F>(
    id: Naming,
    cs: Seq<Card<D, F>>,
    t: Seq<Call<D, F>>,
    path: Seq<char>,
    result: Result<(), FsOpError>,
)
    requires
        run(id, cs, t),
        inside(t, parent_of(path), empty_file_made(leaf_of(path)), result),
    ensures
        same_elsewhere(cs[0], cs.last(), place_of(id, path)),
        result is Ok ==> !cs[0].entries.contains_key(place_of(id, path)),
{
    let leaf = leaf_of(path);
    let directory = images(id, components_of(parent_of(path)));
    let body = empty_file_made::<D, F>(leaf);
    inside_runs(id, cs, t, parent_of(path), body, result);
    if worked_in(id, cs[0], cs.last(), directory, body, result) {
        let (inner, calls, dir) = choose|inner: Seq<Card<D, F>>, calls: Seq<Call<D, F>>, dir: D|
            {
                &&& #[trigger] run(id, inner, calls)
                &&& !cs[0].dirs.contains_key(dir)
                &&& inner[0] == (Card { dirs: cs[0].dirs.insert(dir, directory), ..cs[0] })
                &&& #[trigger] body(calls, dir, result)
                &&& cs.last() == (Card { dirs: inner.last().dirs.remove(dir), ..inner.last() })
            };
        assert(inner[0].dirs[dir] == directory);
        empty_file_body_runs(id, inner, calls, leaf, dir, result);
    }
}

/// On a card on which nothing fails, creating a file where nothing is leaves an empty file at
/// exactly that path, and nothing else changes.
pub proof fn new_files_are_empty<D, F>(
    id: Naming,
    cs: Seq<Card<D, F>>,
    t: Seq<Call<D, F>>,
    path: Seq<char>,
    result: Result<(), FsOpError>,
)
    requires
        reliable_run(id, cs, t),
        inside(t, parent_of(path), empty_file_made(leaf_of(path)), result),
        folders_stand(cs[0], place_of(id, path).directory),
        !cs[0].entries.contains_key(place_of(id, path)),
    ensures
        result is Ok,
        cs.last().entries == cs[0].entries.insert(place_of(id, path), file_with(Seq::empty())),
{
    let leaf = leaf_of(path);
    let place = place_of(id, path);
    let directory = images(id, components_of(parent_of(path)));
    let body = empty_file_made::<D, F>(leaf);
    inside_succeeds(id, cs, t, parent_of(path), body, result);
    let (inner, calls, dir) = choose|inner: Seq<Card<D, F>>, calls: Seq<Call<D, F>>, dir: D|
        {
            &&& #[trigger] reliable_run(id, inner, calls)
            &&& !cs[0].dirs.contains_key(dir)
            &&& inner[0] == (Card { dirs: cs[0].dirs.insert(dir, directory), ..cs[0] })
            &&& #[trigger] body(calls, dir, result)
            &&& cs.last() == (Card { dirs: inner.last().dirs.remove(dir), ..inner.last() })
        };
    assert(inner[0].dirs[dir] == directory);
    reliable_first(id, inner, calls);
    assert(name_taken(calls[0]->Find_reply) is None);
    let u = calls.skip(1);
    let ds = inner.skip(1);
    reliable_first(id, ds, u);
    assert(u[0] == calls[1]);
    assert(ds[1] == inner[2]);
    reliable_first(id, ds.skip(1), u.skip(1));
    assert(u.skip(1)[0] == calls[2]);
    assert(ds.skip(1)[1] == inner[3]);
    assert(inner.last() == inner[3]);
}

/// Creating a folder: a success finds nothing there before and a folder afterwards, and
/// nothing else on the card changes.
pub proof fn new_folders_are_there<D, F>(
    id: Naming,
    cs: Seq<Card<D, F>>,
    t: Seq<Call<D, F>>,
    path: Seq<char>,
    result: Result<(), FsOpError>,
)
    requires
        run(id, cs, t),
        inside(t, parent_of(path), folder_made(leaf_of(path)), result),
    ensures
        same_elsewhere(cs[0], cs.last(), place_of(id, path)),
        result is Ok ==> !cs[0].entries.contains_key(place_of(id, path)) && holds_folder(
            cs.last(),
            place_of(id, path),
        ),
{
    let leaf = leaf_of(path);
    let place = place_of(id, path);
    let directory = images(id, components_of(parent_of(path)));
    let body = folder_made::<D, F>(leaf);
    inside_runs(id, cs, t, parent_of(path), body, result);
    if worked_in(id, cs[0], cs.last(), directory, body, result) {
        let (inner, calls, dir) = choose|inner: Seq<Card<D, F>>, calls: Seq<Call<D, F>>, dir: D|
            {
                &&& #[trigger] run(id, inner, calls)
                &&& !cs[0].dirs.contains_key(dir)
                &&& inner[0] == (Card { dirs: cs[0].dirs.insert(dir, directory), ..cs[0] })
                &&& #[trigger] body(calls, dir, result)
                &&& cs.last() == (Card { dirs: inner.last().dirs.remove(dir), ..inner.last() })
            };
        assert(inner[0].dirs[dir] == directory);
        run_first(id, inner, calls);
        let u = calls.skip(1);
        let ds = inner.skip(1);
        if name_taken(calls[0]->Find_reply) is None {
            run_first(id, ds, u);
            assert(u[0] == calls[1]);
            assert(ds[1] == inner[2]);
            if calls[1]->MakeDir_reply is Ok {
                assert(inner[2].entries.remove(place) =~= inner[0].entries.remove(place));
                assert(u.skip(1) =~= calls.skip(2));
                let seen = choose|seen: Result<EntryFacts, VolumeError>| #[trigger]
                    confirmed(calls.skip(2), ask_find(dir, leaf), seen) && result
                        == made_folder_verdict(seen);
                assert forall|c: Card<D, F>, d: Card<D, F>| #[trigger]
                    call_fits(
                        id,
                        c,
                        ask_find::<D, F>(dir, leaf)(Err(VolumeError::NotFound)),
                        d,
                    ) implies d == c by {}
                confirmed_runs(id, ds.skip(1), u.skip(1), ask_find(dir, leaf), seen);
            } else {
                assert(inner.last() == inner[2]);
            }
        } else {
            assert(inner.last() == inner[1]);
        }
    }
}

/// What the editor's document is, byte by byte.
pub open spec fn document_bytes(v: EditorView) -> Seq<u8> {
    encode_utf8(v.buffer.before + v.buffer.after)
}

/// A save that the editor reports as done has put the document into the file at the path that
/// the document has, byte for byte, even on a card that stores wrongly some of what is
/// written. The editor then holds the same document, marked as saved.
pub proof fn saved_documents_are_in_their_file<M: VolumeAccess>(
    id: Naming,
    cs: Seq<Card<M::Dir, M::File>>,
    before: CardFs<M>,
    after: CardFs<M>,
    v: EditorView,
    w: EditorView,
)
    requires
        editor_saved(Some(before), Some(after), v, w, true),
        run(id, cs, since(before.volume().calls(), after.volume().calls())),
        cs[0].entries.contains_key(place_of(id, v.path@)) || stages_elsewhere(id, cs[0], v.path@),
    ensures
        holds_file(
            cs.last(),
            place_of(id, v.path@),
            encode_utf8(v.buffer.before + v.buffer.after),
        ),
        w.path == v.path,
        w.buffer.before == v.buffer.before,
        w.buffer.after == v.buffer.after,
        !w.buffer.dirty,
{
    let result = choose|result: Result<(), SaveError>| #[trigger]
        crate::editing::save_made(before, after, v, result) && w == crate::editing::after_save(
            v,
            result,
        ) && result is Ok;
    reported_saves_are_on_the_card(
        id,
        cs,
        before.volume(),
        after.volume(),
        v.path@,
        encode_utf8(v.buffer.before + v.buffer.after),
    );
}

/// On a card on which nothing fails, saving the editor succeeds: the file at the document's
/// path holds the document, and every other file and folder of the card is as it was.
pub proof fn saving_changes_the_document_alone<M: VolumeAccess>(
    id: Naming,
    cs: Seq<Card<M::Dir, M::File>>,
    before: CardFs<M>,
    after: CardFs<M>,
    v: EditorView,
    w: EditorView,
    done: bool,
)
    requires
        editor_saved(Some(before), Some(after), v, w, done),
        v.media == EditorMedia::Ready,
        reliable_run(id, cs, since(before.volume().calls(), after.volume().calls())),
        ready_for(id, cs[0], v.path@),
    ensures
        done,
        holds_file(
            cs.last(),
            place_of(id, v.path@),
            encode_utf8(v.buffer.before + v.buffer.after),
        ),
        forall|place: Place|
            place != place_of(id, v.path@) ==> #[trigger] unchanged_at(cs[0], cs.last(), place),
{
    let result = choose|result: Result<(), SaveError>| #[trigger]
        crate::editing::save_made(before, after, v, result) && w == crate::editing::after_save(
            v,
            result,
        ) && done == (result is Ok);
    saves_succeed_and_leave_nothing_behind(
        id,
        cs,
        before.volume(),
        after.volume(),
        v.path@,
        encode_utf8(v.buffer.before + v.buffer.after),
        save_view(result),
    );
}

/// A document that is opened right after it was saved holds what was saved.
pub proof fn saved_documents_open_as_they_were<M: VolumeAccess>(
    id: Naming,
    cs: Seq<Card<M::Dir, M::File>>,
    ds: Seq<Card<M::Dir, M::File>>,
    before: CardFs<M>,
    saved: CardFs<M>,
    after: CardFs<M>,
    v: EditorView,
    w: EditorView,
    result: Result<TextBuffer, LoadError>,
)
    requires
        editor_saved(Some(before), Some(saved), v, w, true),
        run(id, cs, since(before.volume().calls(), saved.volume().calls())),
        cs[0].entries.contains_key(place_of(id, v.path@)) || stages_elsewhere(id, cs[0], v.path@),
        after.follows(&saved),
        document_loaded(after.steps_since(&saved), v.path@, result),
        run(id, ds, since(saved.volume().calls(), after.volume().calls())),
        ds[0].entries == cs.last().entries,
    ensures
        result matches Ok(buffer) ==> encode_utf8(buffer.text()) == encode_utf8(
            v.buffer.before + v.buffer.after,
        ),
{
    saved_documents_are_in_their_file(id, cs, before, saved, v, w);
    opened_documents_hold_their_file(id, ds, saved, after, v.path@, result);
}

/// A save that failed has left the document in the editor as it was, with its changes still
/// marked as unsaved.
pub proof fn failed_saves_keep_the_document_open<M: VolumeAccess>(
    before: Option<CardFs<M>>,
    after: Option<CardFs<M>>,
    v: EditorView,
    w: EditorView,
)
    requires
        editor_saved(before, after, v, w, false),
    ensures
        w.buffer == v.buffer,
        w.path == v.path,
        w.status is Some,
        w.status != Some(Notice::Saved),
{
}

} // verus!
