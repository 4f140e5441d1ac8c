//! Creating files and folders, and listing folders.
use vstd::prelude::*;

use crate::errors::{op_error, FsOpError, VolumeError};
use crate::names::{leaf_name, leaf_of, parent_of, parent_path};
use crate::storage::{cut, extends, no_more, one_more, since};
use crate::volume::{
    scan_reply, Call, EntryFacts, EntryRecord, EntryScan, OpenMode, ScanRule, ScanRuleView, Volume,
    VolumeAccess,
};
use crate::walk::{ask_find, confirmed, inside, op_result, to_op_result, worked_inside};

verus! {

/// The answer to "is the name free?": nothing for a free name.
pub open spec fn name_taken(found: Result<EntryFacts, VolumeError>) -> Option<FsOpError> {
    match found {
        Ok(_) => Some(FsOpError::AlreadyExists),
        Err(VolumeError::NotFound) => None,
        Err(error) => Some(op_error(error)),
    }
}

/// Creating an empty file `name`. There is no reading back: the cache could show
/// a state that never reached the card.
pub open spec fn empty_file_made<D, F>(name: Seq<char>) -> spec_fn(
    Seq<Call<D, F>>,
    D,
    Result<(), FsOpError>,
) -> bool {
    |t: Seq<Call<D, F>>, dir: D, result: Result<(), FsOpError>|
        {
            &&& t.len() >= 1
            &&& t[0] matches Call::Find { dir: d, name: n, reply: found } && {
                &&& d == dir
                &&& n == name
                &&& match name_taken(found) {
                    Some(error) => t.len() == 1 && result == Err::<(), FsOpError>(error),
                    None => {
                        &&& t.len() >= 2
                        &&& t[1] matches Call::OpenFile { dir: e, name: m, mode, reply } && {
                            &&& e == dir
                            &&& m == name
                            &&& mode == OpenMode::ReadWriteCreate
                            &&& match reply {
                                Err(error) => t.len() == 2 && result == Err::<(), FsOpError>(
                                    op_error(error),
                                ),
                                Ok(file) => {
                                    &&& t.len() == 3
                                    &&& t[2] matches Call::CloseFile { file: f, reply: closed } && f
                                        == file && result == op_result(closed)
                                },
                            }
                        }
                    },
                }
            }
        }
}

/// What a look at a folder that was just made says.
pub open spec fn made_folder_verdict(seen: Result<EntryFacts, VolumeError>) -> Result<(), FsOpError> {
    match seen {
        Ok(facts) => if facts.directory {
            Ok(())
        } else {
            Err(FsOpError::VerifyFailed)
        },
        Err(error) => Err(op_error(error)),
    }
}

/// Creating a folder `name` and looking whether it is there.
pub open spec fn folder_made<D, F>(name: Seq<char>) -> spec_fn(
    Seq<Call<D, F>>,
    D,
    Result<(), FsOpError>,
) -> bool {
    |t: Seq<Call<D, F>>, dir: D, result: Result<(), FsOpError>|
        {
            &&& t.len() >= 1
            &&& t[0] matches Call::Find { dir: d, name: n, reply: found } && {
                &&& d == dir
                &&& n == name
                &&& match name_taken(found) {
                    Some(error) => t.len() == 1 && result == Err::<(), FsOpError>(error),
                    None => {
                        &&& t.len() >= 2
                        &&& t[1] matches Call::MakeDir { dir: e, name: m, reply } && {
                            &&& e == dir
                            &&& m == name
                            &&& match reply {
                                Err(error) => t.len() == 2 && result == Err::<(), FsOpError>(
                                    op_error(error),
                                ),
                                Ok(_) => exists|seen: Result<EntryFacts, VolumeError>| #[trigger]
                                    confirmed(t.skip(2), ask_find(dir, name), seen) && result
                                        == made_folder_verdict(seen),
                            }
                        }
                    },
                }
            }
        }
}

/// Making a folder `name` without more ado.
pub open spec fn bare_folder_made<D, F>(name: Seq<char>) -> spec_fn(
    Seq<Call<D, F>>,
    D,
    Result<(), FsOpError>,
) -> bool {
    |t: Seq<Call<D, F>>, dir: D, result: Result<(), FsOpError>|
        {
            &&& t.len() == 1
            &&& t[0] matches Call::MakeDir { dir: d, name: n, reply } && d == dir && n == name
                && result == op_result(reply)
        }
}

/// Walking over a directory under `rule`.
pub open spec fn dir_iterated<D, F>(rule: ScanRuleView) -> spec_fn(
    Seq<Call<D, F>>,
    D,
    Result<Seq<EntryRecord>, FsOpError>,
) -> bool {
    |t: Seq<Call<D, F>>, dir: D, result: Result<Seq<EntryRecord>, FsOpError>|
        {
            &&& t.len() == 1
            &&& t[0] matches Call::Iterate { dir: d, rule: r, reply } && d == dir && r == rule
                && result == op_result(reply)
        }
}

/// Walking over the directory at `path` under `rule`; `result` holds the entries
/// that were visited.
pub open spec fn path_scanned<D, F>(
    t: Seq<Call<D, F>>,
    path: Seq<char>,
    rule: ScanRuleView,
    result: Result<Seq<EntryRecord>, FsOpError>,
) -> bool {
    inside(t, path, dir_iterated(rule), result)
}

/// The entries that a walk visited.
pub open spec fn scan_view(result: Result<EntryScan, FsOpError>) -> Result<
    Seq<EntryRecord>,
    FsOpError,
> {
    match result {
        Ok(scan) => Ok(scan.visited()),
        Err(error) => Err(error),
    }
}

impl<M: VolumeAccess> Volume<M> {
    fn make_empty_file(&mut self, dir: M::Dir, name: &str) -> (result: Result<(), FsOpError>)
        ensures
            extends(old(self).calls(), final(self).calls()),
            empty_file_made(name@)(since(old(self).calls(), final(self).calls()), dir, result),
    {
        let ghost start = self.calls();
        proof {
            no_more(start);
        }
        let found = self.find_entry(dir, name);
        let ghost find = Call::<M::Dir, M::File>::Find { dir, name: name@, reply: found };
        proof {
            one_more(start, start, find);
            assert(since(start, self.calls()) =~= seq![find]);
        }
        match found {
            Ok(_) => return Err(FsOpError::AlreadyExists),
            Err(VolumeError::NotFound) => {},
            Err(error) => return Err(FsOpError::from(error)),
        }
        let ghost looked = self.calls();
        let reply = self.open_file(dir, name, OpenMode::ReadWriteCreate);
        let ghost open = Call::<M::Dir, M::File>::OpenFile {
            dir,
            name: name@,
            mode: OpenMode::ReadWriteCreate,
            reply,
        };
        proof {
            one_more(start, looked, open);
            assert(since(start, self.calls()) =~= seq![find, open]);
        }
        let file = match reply {
            Ok(file) => file,
            Err(error) => return Err(FsOpError::from(error)),
        };
        let ghost opened = self.calls();
        let closed = self.close_file(file);
        proof {
            let close = Call::<M::Dir, M::File>::CloseFile { file, reply: closed };
            one_more(start, opened, close);
            assert(since(start, self.calls()) =~= seq![find, open, close]);
        }
        to_op_result(closed)
    }

    /// Create an empty file at `path`, where there must be nothing yet.
    pub fn create_file(&mut self, path: &str) -> (result: Result<(), FsOpError>)
        ensures
            extends(old(self).calls(), final(self).calls()),
            inside(
                since(old(self).calls(), final(self).calls()),
                parent_of(path@),
                empty_file_made(leaf_of(path@)),
                result,
            ),
    {
        let ghost start = self.calls();
        let parent = parent_path(path);
        let dir = match self.open_dir_path(parent.as_str()) {
            Ok(dir) => dir,
            Err(error) => return Err(error),
        };
        let ghost opened = self.calls();
        let result = self.make_empty_file(dir, leaf_name(path));
        let ghost worked = self.calls();
        self.close_dir(dir);
        proof {
            let body = empty_file_made::<M::Dir, M::File>(leaf_of(path@));
            worked_inside(start, opened, worked, parent_of(path@), dir, body, result);
        }
        result
    }

    fn make_checked_folder(&mut self, dir: M::Dir, name: &str) -> (result: Result<(), FsOpError>)
        ensures
            extends(old(self).calls(), final(self).calls()),
            folder_made(name@)(since(old(self).calls(), final(self).calls()), dir, result),
    {
        let ghost start = self.calls();
        proof {
            no_more(start);
        }
        let found = self.find_entry(dir, name);
        let ghost find = Call::<M::Dir, M::File>::Find { dir, name: name@, reply: found };
        proof {
            one_more(start, start, find);
            assert(since(start, self.calls()) =~= seq![find]);
        }
        match found {
            Ok(_) => return Err(FsOpError::AlreadyExists),
            Err(VolumeError::NotFound) => {},
            Err(error) => return Err(FsOpError::from(error)),
        }
        let ghost looked = self.calls();
        let reply = self.make_dir(dir, name);
        let ghost make = Call::<M::Dir, M::File>::MakeDir { dir, name: name@, reply };
        let ghost made = self.calls();
        proof {
            one_more(start, looked, make);
            assert(since(start, made) =~= seq![find, make]);
        }
        match reply {
            Ok(()) => {},
            Err(error) => return Err(FsOpError::from(error)),
        }
        let seen = self.confirmed_find(dir, name);
        proof {
            cut(start, made, self.calls());
            let t = since(start, self.calls());
            assert(t[0] == t.take(2)[0] && t[1] == t.take(2)[1]);
            assert(confirmed(t.skip(2), ask_find(dir, name@), seen));
        }
        match seen {
            Ok(facts) => if facts.directory {
                Ok(())
            } else {
                Err(FsOpError::VerifyFailed)
            },
            Err(error) => Err(FsOpError::from(error)),
        }
    }

    /// Create a folder at `path`, where there must be nothing yet.
    pub fn create_folder(&mut self, path: &str) -> (result: Result<(), FsOpError>)
        ensures
            extends(old(self).calls(), final(self).calls()),
            inside(
                since(old(self).calls(), final(self).calls()),
                parent_of(path@),
                folder_made(leaf_of(path@)),
                result,
            ),
    {
        let ghost start = self.calls();
        let parent = parent_path(path);
        let dir = match self.open_dir_path(parent.as_str()) {
            Ok(dir) => dir,
            Err(error) => return Err(error),
        };
        let ghost opened = self.calls();
        let result = self.make_checked_folder(dir, leaf_name(path));
        let ghost worked = self.calls();
        self.close_dir(dir);
        proof {
            let body = folder_made::<M::Dir, M::File>(leaf_of(path@));
            worked_inside(start, opened, worked, parent_of(path@), dir, body, result);
        }
        result
    }

    /// Make a folder at `path`.
    pub fn make_folder(&mut self, path: &str) -> (result: Result<(), FsOpError>)
        ensures
            extends(old(self).calls(), final(self).calls()),
            inside(
                since(old(self).calls(), final(self).calls()),
                parent_of(path@),
                bare_folder_made(leaf_of(path@)),
                result,
            ),
    {
        let ghost start = self.calls();
        let parent = parent_path(path);
        let dir = match self.open_dir_path(parent.as_str()) {
            Ok(dir) => dir,
            Err(error) => return Err(error),
        };
        let ghost opened = self.calls();
        let reply = self.make_dir(dir, leaf_name(path));
        let ghost make = Call::<M::Dir, M::File>::MakeDir { dir, name: leaf_of(path@), reply };
        let ghost worked = self.calls();
        self.close_dir(dir);
        let result = to_op_result(reply);
        proof {
            no_more(opened);
            one_more(opened, opened, make);
            assert(since(opened, worked) =~= seq![make]);
            let body = bare_folder_made::<M::Dir, M::File>(leaf_of(path@));
            worked_inside(start, opened, worked, parent_of(path@), dir, body, result);
        }
        result
    }

    /// Walk over the directory at `path`.
    pub fn scan_path(&mut self, path: &str, rule: ScanRule) -> (result: Result<
        EntryScan,
        FsOpError,
    >)
        ensures
            extends(old(self).calls(), final(self).calls()),
            path_scanned(
                since(old(self).calls(), final(self).calls()),
                path@,
                rule@,
                scan_view(result),
            ),
            result matches Ok(scan) ==> scan.rule() == rule@,
    {
        let ghost start = self.calls();
        let ghost asked = rule@;
        let dir = match self.open_dir_path(path) {
            Ok(dir) => dir,
            Err(error) => return Err(error),
        };
        let ghost opened = self.calls();
        let reply = self.iterate_dir(dir, rule);
        let ghost iterate = Call::<M::Dir, M::File>::Iterate {
            dir,
            rule: asked,
            reply: scan_reply(reply),
        };
        let ghost worked = self.calls();
        self.close_dir(dir);
        let result = to_op_result(reply);
        proof {
            no_more(opened);
            one_more(opened, opened, iterate);
            assert(since(opened, worked) =~= seq![iterate]);
            let body = dir_iterated::<M::Dir, M::File>(asked);
            worked_inside(start, opened, worked, path@, dir, body, scan_view(result));
        }
        result
    }
}

} // verus!
