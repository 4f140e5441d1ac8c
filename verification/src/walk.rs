//! Reaching directories and files by path.
use vstd::prelude::*;

use crate::errors::{op_error, FsOpError, VolumeError};
use crate::names::{components, components_of, leaf_name, leaf_of, parent_of, parent_path, texts};
use crate::storage::{cut, extends, no_more, one_more, since};
use crate::volume::{Call, EntryFacts, OpenMode, Volume, VolumeAccess};

verus! {

/// A question put to the filesystem layer that is not content with a single "not
/// found": the layer turns some read errors into that answer, so the cache is
/// dropped and the question put again, and the second answer counts.
pub open spec fn confirmed<D, F, T>(
    t: Seq<Call<D, F>>,
    ask: spec_fn(Result<T, VolumeError>) -> Call<D, F>,
    outcome: Result<T, VolumeError>,
) -> bool {
    ||| !(outcome matches Err(VolumeError::NotFound)) && t == seq![ask(outcome)]
    ||| t == seq![ask(Err(VolumeError::NotFound)), Call::DropCache, ask(outcome)]
}

pub open spec fn ask_open_dir<D, F>(parent: D, name: Seq<char>) -> spec_fn(
    Result<D, VolumeError>,
) -> Call<D, F> {
    |reply: Result<D, VolumeError>| Call::OpenDir { parent, name, reply }
}

pub open spec fn ask_find<D, F>(dir: D, name: Seq<char>) -> spec_fn(
    Result<EntryFacts, VolumeError>,
) -> Call<D, F> {
    |reply: Result<EntryFacts, VolumeError>| Call::Find { dir, name, reply }
}

pub open spec fn ask_open_file<D, F>(dir: D, name: Seq<char>, mode: OpenMode) -> spec_fn(
    Result<F, VolumeError>,
) -> Call<D, F> {
    |reply: Result<F, VolumeError>| Call::OpenFile { dir, name, mode, reply }
}

/// Going down from `dir` through `names`; each directory is closed once the next
/// one is open.
pub open spec fn descended<D, F>(
    t: Seq<Call<D, F>>,
    dir: D,
    names: Seq<Seq<char>>,
    opened: Result<D, FsOpError>,
) -> bool
    decreases names.len(),
{
    if names.len() == 0 {
        t.len() == 0 && opened == Ok::<D, FsOpError>(dir)
    } else {
        exists|k: int, outcome: Result<D, VolumeError>|
            {
                &&& 0 <= k < t.len()
                &&& #[trigger] confirmed(t.take(k), ask_open_dir(dir, names[0]), outcome)
                &&& t[k] == Call::<D, F>::CloseDir { dir }
                &&& match outcome {
                    Err(error) => t.len() == k + 1 && opened == Err::<D, FsOpError>(
                        op_error(error),
                    ),
                    Ok(next) => descended(t.skip(k + 1), next, names.skip(1), opened),
                }
            }
    }
}

/// Opening the directory at `path`.
pub open spec fn dir_opened<D, F>(
    t: Seq<Call<D, F>>,
    path: Seq<char>,
    opened: Result<D, FsOpError>,
) -> bool {
    &&& t.len() >= 1
    &&& t[0] matches Call::OpenRoot { reply } && match reply {
        Err(error) => t.len() == 1 && opened == Err::<D, FsOpError>(op_error(error)),
        Ok(root) => descended(t.skip(1), root, components_of(path), opened),
    }
}

/// Working inside the directory at `path`: it is opened, `body` says what happens
/// inside, and it is closed again whatever the result.
pub open spec fn inside<D, F, R>(
    t: Seq<Call<D, F>>,
    path: Seq<char>,
    body: spec_fn(Seq<Call<D, F>>, D, Result<R, FsOpError>) -> bool,
    result: Result<R, FsOpError>,
) -> bool {
    ||| exists|error: FsOpError| #[trigger]
        dir_opened(t, path, Err::<D, FsOpError>(error)) && result == Err::<R, FsOpError>(error)
    ||| exists|k: int, dir: D|
        {
            &&& 0 <= k < t.len()
            &&& #[trigger] dir_opened(t.take(k), path, Ok::<D, FsOpError>(dir))
            &&& t.last() == Call::<D, F>::CloseDir { dir }
            &&& body(t.subrange(k, t.len() - 1), dir, result)
        }
}

/// A result of the filesystem layer as the result of an operation.
pub open spec fn op_result<T>(outcome: Result<T, VolumeError>) -> Result<T, FsOpError> {
    match outcome {
        Ok(value) => Ok(value),
        Err(error) => Err(op_error(error)),
    }
}

pub fn to_op_result<T>(outcome: Result<T, VolumeError>) -> (result: Result<T, FsOpError>)
    ensures
        result == op_result(outcome),
{
    match outcome {
        Ok(value) => Ok(value),
        Err(error) => Err(FsOpError::from(error)),
    }
}

/// Looking up `name` as the whole of what happens inside a directory.
pub open spec fn name_found<D, F>(name: Seq<char>) -> spec_fn(
    Seq<Call<D, F>>,
    D,
    Result<EntryFacts, FsOpError>,
) -> bool {
    |t: Seq<Call<D, F>>, dir: D, result: Result<EntryFacts, FsOpError>|
        exists|outcome: Result<EntryFacts, VolumeError>| #[trigger]
            confirmed(t, ask_find(dir, name), outcome) && result == op_result(outcome)
}

/// Opening `name` as the whole of what happens inside a directory.
pub open spec fn name_opened<D, F>(name: Seq<char>, mode: OpenMode) -> spec_fn(
    Seq<Call<D, F>>,
    D,
    Result<F, FsOpError>,
) -> bool {
    |t: Seq<Call<D, F>>, dir: D, result: Result<F, FsOpError>|
        exists|outcome: Result<F, VolumeError>| #[trigger]
            confirmed(t, ask_open_file(dir, name, mode), outcome) && result == op_result(outcome)
}

/// Looking up the entry at `path`.
pub open spec fn entry_found<D, F>(
    t: Seq<Call<D, F>>,
    path: Seq<char>,
    result: Result<EntryFacts, FsOpError>,
) -> bool {
    inside(t, parent_of(path), name_found(leaf_of(path)), result)
}

/// Opening the file at `path`; no directory stays open.
pub open spec fn file_opened<D, F>(
    t: Seq<Call<D, F>>,
    path: Seq<char>,
    mode: OpenMode,
    result: Result<F, FsOpError>,
) -> bool {
    inside(t, parent_of(path), name_opened(leaf_of(path), mode), result)
}

fn is_not_found<T>(outcome: &Result<T, VolumeError>) -> (yes: bool)
    ensures
        yes == (outcome matches Err(VolumeError::NotFound)),
{
    matches!(outcome, Err(VolumeError::NotFound))
}

impl<M: VolumeAccess> Volume<M> {
    fn confirmed_open_dir(&mut self, parent: M::Dir, name: &str) -> (outcome: Result<
        M::Dir,
        VolumeError,
    >)
        ensures
            extends(old(self).calls(), final(self).calls()),
            confirmed(
                since(old(self).calls(), final(self).calls()),
                ask_open_dir(parent, name@),
                outcome,
            ),
    {
        let ghost start = self.calls();
        let ghost ask = ask_open_dir::<M::Dir, M::File>(parent, name@);
        let first = self.open_dir(parent, name);
        assert(since(start, self.calls()) =~= seq![ask(first)]);
        if !is_not_found(&first) {
            return first;
        }
        self.drop_cache();
        let second = self.open_dir(parent, name);
        assert(since(start, self.calls()) =~= seq![ask(first), Call::DropCache, ask(second)]);
        second
    }

    pub fn confirmed_find(&mut self, dir: M::Dir, name: &str) -> (outcome: Result<
        EntryFacts,
        VolumeError,
    >)
        ensures
            extends(old(self).calls(), final(self).calls()),
            confirmed(
                since(old(self).calls(), final(self).calls()),
                ask_find(dir, name@),
                outcome,
            ),
    {
        let ghost start = self.calls();
        let ghost ask = ask_find::<M::Dir, M::File>(dir, name@);
        let first = self.find_entry(dir, name);
        assert(since(start, self.calls()) =~= seq![ask(first)]);
        if !is_not_found(&first) {
            return first;
        }
        self.drop_cache();
        let second = self.find_entry(dir, name);
        assert(since(start, self.calls()) =~= seq![ask(first), Call::DropCache, ask(second)]);
        second
    }

    fn confirmed_open_file(&mut self, dir: M::Dir, name: &str, mode: OpenMode) -> (outcome: Result<
        M::File,
        VolumeError,
    >)
        ensures
            extends(old(self).calls(), final(self).calls()),
            confirmed(
                since(old(self).calls(), final(self).calls()),
                ask_open_file(dir, name@, mode),
                outcome,
            ),
    {
        let ghost start = self.calls();
        let ghost ask = ask_open_file::<M::Dir, M::File>(dir, name@, mode);
        let first = self.open_file(dir, name, mode);
        assert(since(start, self.calls()) =~= seq![ask(first)]);
        if !is_not_found(&first) {
            return first;
        }
        self.drop_cache();
        let second = self.open_file(dir, name, mode);
        assert(since(start, self.calls()) =~= seq![ask(first), Call::DropCache, ask(second)]);
        second
    }

    /// Open the directory at `path`, holding at most two directories open.
    pub fn open_dir_path(&mut self, path: &str) -> (opened: Result<M::Dir, FsOpError>)
        ensures
            extends(old(self).calls(), final(self).calls()),
            dir_opened(since(old(self).calls(), final(self).calls()), path@, opened),
    {
        let ghost start = self.calls();
        let names = components(path);
        let ghost all = components_of(path@);
        let root = self.open_root_dir();
        let ghost event = Call::<M::Dir, M::File>::OpenRoot { reply: root };
        proof {
            no_more(start);
            one_more(start, start, event);
            assert(since(start, self.calls()) =~= seq![event]);
        }
        let mut dir = match root {
            Ok(root) => root,
            Err(error) => return Err(FsOpError::from(error)),
        };
        proof {
            assert(all.skip(0) =~= all);
            assert forall|rest: Seq<Call<M::Dir, M::File>>, opened: Result<M::Dir, FsOpError>|
                descended(rest, dir, all.skip(0), opened) implies #[trigger] dir_opened(
                since(start, self.calls()) + rest,
                path@,
                opened,
            ) by {
                assert((seq![event] + rest).skip(1) =~= rest);
            }
        }
        let mut i: usize = 0;
        while i < names.len()
            invariant
                i <= names@.len(),
                start == old(self).calls(),
                texts(names@) == all,
                all == components_of(path@),
                extends(start, self.calls()),
                forall|rest: Seq<Call<M::Dir, M::File>>, opened: Result<M::Dir, FsOpError>|
                    descended(rest, dir, all.skip(i as int), opened) ==> #[trigger] dir_opened(
                        since(start, self.calls()) + rest,
                        path@,
                        opened,
                    ),
            decreases names@.len() - i,
        {
            let ghost before = self.calls();
            let ghost left = all.skip(i as int);
            assert(left[0] == names@[i as int]@);
            let outcome = self.confirmed_open_dir(dir, names[i].as_str());
            let ghost asked = self.calls();
            let ghost k = since(before, asked).len() as int;
            self.close_dir(dir);
            let ghost close = Call::<M::Dir, M::File>::CloseDir { dir };
            let ghost t = since(before, self.calls());
            proof {
                one_more(before, asked, close);
                cut(start, before, self.calls());
                assert(t.take(k) =~= since(before, asked));
                assert(confirmed(t.take(k), ask_open_dir(dir, left[0]), outcome));
                assert(since(start, self.calls()) =~= since(start, before) + t);
            }
            match outcome {
                Err(error) => {
                    let error = FsOpError::from(error);
                    proof {
                        assert(descended(t, dir, left, Err(error)));
                        assert(dir_opened(since(start, before) + t, path@, Err(error)));
                    }
                    return Err(error);
                },
                Ok(next) => {
                    let ghost parent = dir;
                    dir = next;
                    i = i + 1;
                    proof {
                        assert(left.skip(1) =~= all.skip(i as int));
                        assert forall|
                            rest: Seq<Call<M::Dir, M::File>>,
                            opened: Result<M::Dir, FsOpError>,
                        | descended(rest, dir, all.skip(i as int), opened) implies #[trigger] dir_opened(
                            since(start, self.calls()) + rest,
                            path@,
                            opened,
                        ) by {
                            let more = t + rest;
                            assert(more.take(k) =~= t.take(k));
                            assert(more.skip(k + 1) =~= rest);
                            assert(confirmed(more.take(k), ask_open_dir(parent, left[0]), outcome));
                            assert(descended(more, parent, left, opened));
                            assert(since(start, before) + more =~= since(start, self.calls())
                                + rest);
                        }
                    }
                },
            }
        }
        proof {
            assert(descended(
                Seq::<Call<M::Dir, M::File>>::empty(),
                dir,
                all.skip(i as int),
                Ok(dir),
            ));
            assert(since(start, self.calls()) + Seq::empty() =~= since(start, self.calls()));
        }
        Ok(dir)
    }
}

/// Opening, working inside and closing make up an operation inside a directory.
pub proof fn worked_inside<D, F, R>(
    start: Seq<Call<D, F>>,
    opened: Seq<Call<D, F>>,
    worked: Seq<Call<D, F>>,
    path: Seq<char>,
    dir: D,
    body: spec_fn(Seq<Call<D, F>>, D, Result<R, FsOpError>) -> bool,
    result: Result<R, FsOpError>,
)
    requires
        extends(start, opened),
        dir_opened(since(start, opened), path, Ok::<D, FsOpError>(dir)),
        extends(opened, worked),
        body(since(opened, worked), dir, result),
    ensures
        ({
            let closed = worked.push(Call::CloseDir { dir });
            extends(start, closed) && inside(since(start, closed), path, body, result)
        }),
{
    let closed = worked.push(Call::CloseDir { dir });
    let t = since(start, closed);
    let k = since(start, opened).len() as int;
    cut(start, opened, worked);
    one_more(start, worked, Call::CloseDir { dir });
    assert(t.take(k) =~= since(start, opened));
    assert(t.subrange(k, t.len() - 1) =~= since(opened, worked));
    assert(dir_opened(t.take(k), path, Ok::<D, FsOpError>(dir)));
}

impl<M: VolumeAccess> Volume<M> {
    /// Look up the entry at `path`.
    pub fn find_path(&mut self, path: &str) -> (result: Result<EntryFacts, FsOpError>)
        ensures
            extends(old(self).calls(), final(self).calls()),
            entry_found(since(old(self).calls(), final(self).calls()), path@, result),
    {
        let ghost start = self.calls();
        let parent = parent_path(path);
        let dir = match self.open_dir_path(parent.as_str()) {
            Ok(dir) => dir,
            Err(error) => return Err(error),
        };
        let ghost opened = self.calls();
        let outcome = self.confirmed_find(dir, leaf_name(path));
        let ghost worked = self.calls();
        self.close_dir(dir);
        let ghost seen = outcome;
        let result = to_op_result(outcome);
        proof {
            let body = name_found::<M::Dir, M::File>(leaf_of(path@));
            assert(confirmed(since(opened, worked), ask_find(dir, leaf_of(path@)), seen));
            assert(body(since(opened, worked), dir, result));
            worked_inside(start, opened, worked, parent_of(path@), dir, body, result);
        }
        result
    }

    /// Open the file at `path`.
    pub fn open_file_at(&mut self, path: &str, mode: OpenMode) -> (result: Result<
        M::File,
        FsOpError,
    >)
        ensures
            extends(old(self).calls(), final(self).calls()),
            file_opened(since(old(self).calls(), final(self).calls()), path@, mode, result),
    {
        let ghost start = self.calls();
        let parent = parent_path(path);
        let dir = match self.open_dir_path(parent.as_str()) {
            Ok(dir) => dir,
            Err(error) => return Err(error),
        };
        let ghost opened = self.calls();
        let outcome = self.confirmed_open_file(dir, leaf_name(path), mode);
        let ghost worked = self.calls();
        self.close_dir(dir);
        let ghost seen = outcome;
        let result = to_op_result(outcome);
        proof {
            let body = name_opened::<M::Dir, M::File>(leaf_of(path@), mode);
            assert(confirmed(since(opened, worked), ask_open_file(dir, leaf_of(path@), mode), seen));
            assert(body(since(opened, worked), dir, result));
            worked_inside(start, opened, worked, parent_of(path@), dir, body, result);
        }
        result
    }
}

} // verus!
