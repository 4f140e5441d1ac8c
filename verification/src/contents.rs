//! What a card holds, and what the calls of the filesystem layer make of it.
//!
//! The card of this model looks things up truthfully and delivers what it holds. What is
//! written may be stored wrongly, and any call may fail; but a delete that fails has left
//! the entry where it was.
use vstd::prelude::*;

use crate::errors::VolumeError;
use crate::names::{components_of, leaf_of, parent_of};
use crate::volume::{Call, EntryFacts, OpenMode};

verus! {

/// An entry of a directory.
pub enum Entry {
    File { bytes: Seq<u8>, read_only: bool },
    Folder { read_only: bool },
}

/// The entry is marked as one that may not be changed.
pub open spec fn write_protected(entry: Entry) -> bool {
    match entry {
        Entry::File { read_only, .. } => read_only,
        Entry::Folder { read_only } => read_only,
    }
}

/// Where an entry is: the names that lead to its directory, and its own. Names that mean the
/// same entry are one here.
pub struct Place {
    pub directory: Seq<Seq<char>>,
    pub name: Seq<char>,
}

/// An open file: which one, how far it was read, and whether it may be written.
pub struct OpenFile {
    pub place: Place,
    pub at: int,
    pub writable: bool,
}

/// A card with what is open on it.
#[verifier::reject_recursive_types(D)]
#[verifier::reject_recursive_types(F)]
pub struct Card<D, F> {
    pub entries: Map<Place, Entry>,
    pub dirs: Map<D, Seq<Seq<char>>>,
    pub files: Map<F, OpenFile>,
}

/// Which names mean the same entry: those with the same image.
pub type Naming = spec_fn(Seq<char>) -> Seq<char>;

/// The place of the entry at `path`.
pub open spec fn place_of(id: Naming, path: Seq<char>) -> Place {
    Place { directory: images(id, components_of(parent_of(path))), name: id(leaf_of(path)) }
}

pub open spec fn images(id: Naming, names: Seq<Seq<char>>) -> Seq<Seq<char>> {
    names.map_values(id)
}

/// What a lookup tells of an entry.
pub open spec fn facts_of(entry: Entry) -> EntryFacts {
    match entry {
        Entry::File { bytes, read_only } => EntryFacts {
            directory: false,
            read_only,
            size: bytes.len() as u32,
        },
        Entry::Folder { read_only } => EntryFacts { directory: true, read_only, size: 0 },
    }
}

/// The two cards hold the same, but for what is at `place`.
pub open spec fn same_elsewhere<D, F>(c: Card<D, F>, d: Card<D, F>, place: Place) -> bool {
    c.entries.remove(place) == d.entries.remove(place)
}

/// The card holds a file with these contents at `place`.
pub open spec fn holds_file<D, F>(c: Card<D, F>, place: Place, contents: Seq<u8>) -> bool {
    &&& c.entries.contains_key(place)
    &&& c.entries[place] matches Entry::File { bytes, .. } && bytes == contents
}

/// The card holds a file at `place` that may be written.
pub open spec fn holds_writable<D, F>(c: Card<D, F>, place: Place) -> bool {
    &&& c.entries.contains_key(place)
    &&& c.entries[place] matches Entry::File { read_only, .. } && !read_only
}

/// Opening the file at `place`.
pub open spec fn file_opens<D, F>(
    c: Card<D, F>,
    place: Place,
    mode: OpenMode,
    reply: Result<F, VolumeError>,
    d: Card<D, F>,
) -> bool {
    &&& d.dirs == c.dirs
    &&& match reply {
        Ok(file) => {
            &&& !c.files.contains_key(file)
            &&& d.files == c.files.insert(
                file,
                OpenFile { place, at: 0, writable: mode != OpenMode::ReadOnly },
            )
            &&& match mode {
                OpenMode::ReadOnly => d.entries == c.entries && c.entries.contains_key(place)
                    && c.entries[place] is File,
                OpenMode::ReadWriteTruncate => holds_writable(c, place) && emptied(c, d, place),
                OpenMode::ReadWriteCreate => !c.entries.contains_key(place) && emptied(c, d, place),
                OpenMode::ReadWriteCreateOrTruncate => (!c.entries.contains_key(place)
                    || holds_writable(c, place)) && emptied(c, d, place),
            }
        },
        Err(error) => {
            &&& d.files == c.files
            &&& error is NotFound ==> !c.entries.contains_key(place) && d.entries == c.entries
            &&& error is FileAlreadyExists || error is DirAlreadyExists ==> d.entries == c.entries
            &&& mode == OpenMode::ReadOnly ==> d.entries == c.entries
            // Only a failure of the device can strike when something was changed already.
            &&& !(error is DeviceError) && mode == OpenMode::ReadWriteTruncate ==> d.entries
                == c.entries
            // A folder is never opened as a file.
            &&& holds_folder(c, place) ==> d.entries == c.entries
            &&& same_elsewhere(c, d, place)
        },
    }
}

/// The card holds a folder at `place`.
pub open spec fn holds_folder<D, F>(c: Card<D, F>, place: Place) -> bool {
    c.entries.contains_key(place) && c.entries[place] is Folder
}

/// A folder at `place`, if there is one, is empty: no other is deleted.
pub open spec fn no_full_folder<D, F>(c: Card<D, F>, place: Place) -> bool {
    holds_folder(c, place) ==> nothing_below(c, place.directory.push(place.name))
}

/// The file at `place` is there, and empty.
pub open spec fn emptied<D, F>(c: Card<D, F>, d: Card<D, F>, place: Place) -> bool {
    d.entries == c.entries.insert(place, Entry::File { bytes: Seq::empty(), read_only: false })
}

/// The card before and after a call.
pub open spec fn call_fits<D, F>(
    id: Naming,
    c: Card<D, F>,
    call: Call<D, F>,
    d: Card<D, F>,
) -> bool {
    match call {
        Call::OpenRoot { reply } => {
            &&& d.entries == c.entries && d.files == c.files
            &&& match reply {
                Ok(dir) => !c.dirs.contains_key(dir) && d.dirs == c.dirs.insert(dir, Seq::empty()),
                Err(error) => d.dirs == c.dirs && !(error is NotFound),
            }
        },
        Call::OpenDir { parent, name, reply } => {
            &&& d.entries == c.entries && d.files == c.files
            &&& match reply {
                Ok(dir) => !c.dirs.contains_key(dir) && d.dirs == c.dirs.insert(
                    dir,
                    c.dirs[parent].push(id(name)),
                ),
                Err(error) => d.dirs == c.dirs && (error is NotFound ==> nothing_below(
                    c,
                    c.dirs[parent].push(id(name)),
                )),
            }
        },
        Call::CloseDir { dir } => {
            d == Card { dirs: c.dirs.remove(dir), ..c }
        },
        Call::Find { dir, name, reply } => {
            let place = Place { directory: c.dirs[dir], name: id(name) };
            &&& d == c
            &&& match reply {
                Ok(facts) => c.entries.contains_key(place) && facts == facts_of(c.entries[place]),
                Err(error) => error is NotFound ==> !c.entries.contains_key(place),
            }
        },
        Call::MakeDir { dir, name, reply } => {
            let place = Place { directory: c.dirs[dir], name: id(name) };
            &&& d.dirs == c.dirs && d.files == c.files
            &&& match reply {
                Ok(_) => !c.entries.contains_key(place) && d.entries == c.entries.insert(
                    place,
                    Entry::Folder { read_only: false },
                ),
                Err(_) => same_elsewhere(c, d, place),
            }
        },
        Call::Delete { dir, name, reply } => {
            let place = Place { directory: c.dirs[dir], name: id(name) };
            &&& d.dirs == c.dirs && d.files == c.files
            &&& match reply {
                Ok(_) => d.entries == c.entries.remove(place) && no_full_folder(c, place),
                Err(error) => d.entries == c.entries && (error is NotFound
                    ==> !c.entries.contains_key(place)),
            }
        },
        Call::OpenFile { dir, name, mode, reply } => file_opens(
            c,
            Place { directory: c.dirs[dir], name: id(name) },
            mode,
            reply,
            d,
        ),
        Call::Read { file, limit, reply } => {
            let open = c.files[file];
            &&& d.entries == c.entries && d.dirs == c.dirs
            &&& match reply {
                Ok(bytes) => {
                    &&& d.files == c.files.insert(
                        file,
                        OpenFile { at: open.at + bytes.len(), ..open },
                    )
                    &&& delivers(c.entries[open.place], open.at, limit as int, bytes)
                },
                Err(_) => d.files == c.files,
            }
        },
        Call::Write { file, bytes, reply } => {
            let open = c.files[file];
            &&& d.dirs == c.dirs && d.files.dom() == c.files.dom()
            &&& forall|f: F| c.files.contains_key(f) && f != file ==> #[trigger] d.files[f] == c.files[f]
            &&& d.files[file].place == open.place && d.files[file].writable == open.writable
            &&& same_elsewhere(c, d, open.place)
            &&& holds_writable(c, open.place) ==> holds_writable(d, open.place)
        },
        Call::CloseFile { file, reply } => {
            let open = c.files[file];
            &&& d.dirs == c.dirs && d.files == c.files.remove(file)
            &&& same_elsewhere(c, d, open.place)
            &&& !open.writable ==> d.entries == c.entries
        },
        _ => d == c,
    }
}

/// No entry is in the directory that these names lead to, or below it.
pub open spec fn nothing_below<D, F>(c: Card<D, F>, directory: Seq<Seq<char>>) -> bool {
    forall|place: Place| #[trigger]
        c.entries.contains_key(place) ==> !directory.is_prefix_of(place.directory)
}

/// A read from `at` on delivers what the file holds, and something before its end.
pub open spec fn delivers(entry: Entry, at: int, limit: int, bytes: Seq<u8>) -> bool {
    entry matches Entry::File { bytes: stored, .. } && {
        &&& 0 <= at && at + bytes.len() <= stored.len()
        &&& bytes.len() <= limit
        &&& bytes == stored.subrange(at, at + bytes.len())
        &&& bytes.len() == 0 && limit > 0 ==> at == stored.len()
    }
}

/// The cards before, between and after the calls `t`.
pub open spec fn run<D, F>(id: Naming, cs: Seq<Card<D, F>>, t: Seq<Call<D, F>>) -> bool {
    &&& cs.len() == t.len() + 1
    &&& forall|i: int| 0 <= i < t.len() ==> #[trigger] call_fits_at(id, cs, t, i)
}

pub open spec fn call_fits_at<D, F>(
    id: Naming,
    cs: Seq<Card<D, F>>,
    t: Seq<Call<D, F>>,
    i: int,
) -> bool {
    call_fits(id, cs[i], t[i], cs[i + 1])
}

/// A run in two parts.
pub(crate) proof fn run_parts<D, F>(id: Naming, cs: Seq<Card<D, F>>, t: Seq<Call<D, F>>, k: int)
    requires
        run(id, cs, t),
        0 <= k <= t.len(),
    ensures
        run(id, cs.take(k + 1), t.take(k)),
        run(id, cs.skip(k), t.skip(k)),
        cs.take(k + 1).last() == cs[k],
        cs.take(k + 1)[0] == cs[0],
        cs.skip(k)[0] == cs[k],
        cs.skip(k).last() == cs.last(),
{
    assert forall|i: int| 0 <= i < k implies #[trigger] call_fits_at(
        id,
        cs.take(k + 1),
        t.take(k),
        i,
    ) by {
        assert(call_fits_at(id, cs, t, i));
    }
    assert forall|i: int| 0 <= i < t.skip(k).len() implies #[trigger] call_fits_at(
        id,
        cs.skip(k),
        t.skip(k),
        i,
    ) by {
        assert(call_fits_at(id, cs, t, k + i));
    }
}

/// A run with its first call apart.
pub(crate) proof fn run_first<D, F>(id: Naming, cs: Seq<Card<D, F>>, t: Seq<Call<D, F>>)
    requires
        run(id, cs, t),
        t.len() > 0,
    ensures
        call_fits(id, cs[0], t[0], cs[1]),
        run(id, cs.skip(1), t.skip(1)),
        cs.skip(1)[0] == cs[1],
        cs.skip(1).last() == cs.last(),
{
    run_parts(id, cs, t, 1);
    assert(call_fits_at(id, cs, t, 0));
}

/// A run with its last call apart, and cut once more.
pub(crate) proof fn run_middle<D, F>(id: Naming, cs: Seq<Card<D, F>>, t: Seq<Call<D, F>>, k: int)
    requires
        run(id, cs, t),
        0 <= k < t.len(),
    ensures
        run(id, cs.take(k + 1), t.take(k)),
        cs.take(k + 1)[0] == cs[0],
        cs.take(k + 1).last() == cs[k],
        run(id, cs.subrange(k, t.len() as int), t.subrange(k, t.len() - 1)),
        cs.subrange(k, t.len() as int)[0] == cs[k],
        cs.subrange(k, t.len() as int).last() == cs[t.len() - 1],
        call_fits(id, cs[t.len() - 1], t.last(), cs.last()),
{
    run_parts(id, cs, t, k);
    let n = t.len() - 1;
    assert forall|i: int| 0 <= i < n - k implies #[trigger] call_fits_at(
        id,
        cs.subrange(k, n + 1),
        t.subrange(k, n),
        i,
    ) by {
        assert(call_fits_at(id, cs, t, k + i));
    }
    assert(call_fits_at(id, cs, t, n));
}

} // verus!
