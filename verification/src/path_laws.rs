//! Names, paths and messages, letter by letter.
use vstd::prelude::*;

use crate::errors::{failure_reason, FsOpError};
use crate::names::{
    components_of, entry_name_problem, file_stem_problem, joined_path, leaf_of, lies_inside,
    names_txt, split_path, NameFault,
};
use crate::notice::{notice_text, MoveVerb, Notice};
use crate::text::{folded, same_but_for_case};

verus! {

/// Two characters that differ in nothing but case: the letters of the alphabet, large and
/// small.
pub open spec fn same_letter(a: char, b: char) -> bool {
    ||| a == b
    ||| 'A' <= a <= 'Z' && b as u32 == a as u32 + 32
    ||| 'A' <= b <= 'Z' && a as u32 == b as u32 + 32
}

proof fn folding_overlooks_case(a: char, b: char)
    ensures
        folded(a) == folded(b) <==> same_letter(a, b),
{
    if folded(a) == folded(b) {
        if 'A' <= a <= 'Z' {
            if 'A' <= b <= 'Z' {
                assert(a as u32 == b as u32);
                assert(a == b);
            }
        } else if !('A' <= b <= 'Z') {
            assert(a as u32 == b as u32);
            assert(a == b);
        }
    }
    if same_letter(a, b) {
        assert(folded(a) == folded(b));
    }
}

/// Names are compared without regard to the case of the letters A to Z, and to nothing else.
pub proof fn only_case_is_overlooked(a: Seq<char>, b: Seq<char>)
    ensures
        same_but_for_case(a, b) <==> a.len() == b.len() && forall|i: int|
            0 <= i < a.len() ==> same_letter(#[trigger] a[i], b[i]),
{
    assert forall|x: char, y: char| #[trigger] folded(x) == #[trigger] folded(y) <==> same_letter(
        x,
        y,
    ) by {
        folding_overlooks_case(x, y);
    }
    if same_but_for_case(a, b) {
        assert forall|i: int| 0 <= i < a.len() implies same_letter(#[trigger] a[i], b[i]) by {
            assert(folded(a[i]) == folded(b[i]));
        }
    }
    if a.len() == b.len() && forall|i: int| 0 <= i < a.len() ==> same_letter(#[trigger] a[i], b[i]) {
        assert forall|i: int| 0 <= i < a.len() implies folded(#[trigger] a[i]) == folded(b[i]) by {
            assert(same_letter(a[i], b[i]));
        }
    }
}

/// A document is a file whose name ends in a dot and the letters t, x and t.
pub proof fn documents_end_in_txt(name: Seq<char>)
    ensures
        names_txt(name) <==> name.len() >= 4 && name[name.len() - 4] == '.' && same_letter(
            name[name.len() - 3],
            't',
        ) && same_letter(name[name.len() - 2], 'x') && same_letter(name[name.len() - 1], 't'),
{
    if name.len() >= 4 {
        let tail = name.skip(name.len() - 4);
        let want = seq!['.', 't', 'x', 't'];
        only_case_is_overlooked(tail, want);
        assert(tail[0] == name[name.len() - 4]);
        assert(tail[1] == name[name.len() - 3]);
        assert(tail[2] == name[name.len() - 2]);
        assert(tail[3] == name[name.len() - 1]);
        assert(want[0] == '.' && want[1] == 't' && want[2] == 'x' && want[3] == 't');
        if names_txt(name) {
            assert(same_letter(tail[0], want[0]));
            assert(same_letter(tail[1], want[1]));
            assert(same_letter(tail[2], want[2]));
            assert(same_letter(tail[3], want[3]));
        }
    }
}

/// A path ends in the name, behind one slash, behind the folder. The root is that slash.
pub proof fn paths_are_joined_by_a_slash(parent: Seq<char>, name: Seq<char>)
    ensures
        parent == seq!['/'] ==> joined_path(parent, name) == seq!['/'] + name,
        parent != seq!['/'] ==> joined_path(parent, name) == parent.push('/') + name,
{
    reveal_strlit("/");
    assert("/"@ =~= seq!['/']);
    assert(parent + "/"@ =~= parent.push('/'));
}

/// An entry is inside a folder if its path goes on behind that of the folder, after a slash.
pub proof fn what_is_inside_goes_on_behind_a_slash(ancestor: Seq<char>, path: Seq<char>)
    requires
        ancestor != seq!['/'],
    ensures
        lies_inside(ancestor, path) <==> path.len() >= ancestor.len() + 1 && same_but_for_case(
            path.take(ancestor.len() as int + 1),
            ancestor.push('/'),
        ),
        !lies_inside(path, path),
{
    reveal_strlit("/");
    assert("/"@ =~= seq!['/']);
    if path.len() > ancestor.len() {
        let n = ancestor.len() as int;
        let head = path.take(n);
        let more = path.take(n + 1);
        let want = ancestor.push('/');
        only_case_is_overlooked(head, ancestor);
        only_case_is_overlooked(more, want);
        if lies_inside(ancestor, path) {
            assert forall|i: int| 0 <= i < more.len() implies same_letter(#[trigger] more[i], want[i]) by {
                if i < n {
                    assert(head[i] == more[i]);
                }
            }
        }
        if same_but_for_case(more, want) {
            assert(same_letter(more[n], want[n]));
            assert forall|i: int| 0 <= i < head.len() implies same_letter(
                #[trigger] head[i],
                ancestor[i],
            ) by {
                assert(same_letter(more[i], want[i]));
            }
        }
    }
}

proof fn parts_hold_no_slash(path: Seq<char>)
    ensures
        !split_path(path).1.contains('/'),
        forall|i: int|
            0 <= i < split_path(path).0.len() ==> (#[trigger] split_path(path).0[i]).len() > 0
                && !split_path(path).0[i].contains('/'),
    decreases path.len(),
{
    if path.len() > 0 {
        parts_hold_no_slash(path.drop_last());
        let (complete, current) = split_path(path.drop_last());
        if path.last() != '/' {
            let more = current.push(path.last());
            if more.contains('/') {
                let i = choose|i: int| 0 <= i < more.len() && more[i] == '/';
                assert(current[i] == '/');
            }
        }
    }
}

/// The parts of a path are names: none is empty, and none holds a slash. What holds no slash
/// has one part, itself.
pub proof fn parts_are_names(path: Seq<char>)
    ensures
        forall|i: int|
            0 <= i < components_of(path).len() ==> (#[trigger] components_of(path)[i]).len() > 0
                && !components_of(path)[i].contains('/'),
        !path.contains('/') && path.len() > 0 ==> components_of(path) == seq![path],
{
    parts_hold_no_slash(path);
    if !path.contains('/') && path.len() > 0 {
        plain_paths_are_open(path);
        assert(components_of(path) =~= seq![path]);
    }
}

proof fn plain_paths_are_open(path: Seq<char>)
    requires
        !path.contains('/'),
    ensures
        split_path(path) == (Seq::<Seq<char>>::empty(), path),
    decreases path.len(),
{
    if path.len() > 0 {
        assert(path.contains(path.last()));
        let front = path.drop_last();
        assert(!front.contains('/')) by {
            if front.contains('/') {
                let i = choose|i: int| 0 <= i < front.len() && front[i] == '/';
                assert(path[i] == '/');
            }
        }
        plain_paths_are_open(front);
        assert(front.push(path.last()) =~= path);
    }
}

/// What is wrong with a name is said in words that fit.
pub proof fn problems_are_named(name: Seq<char>, form: Result<Seq<char>, NameFault>)
    ensures
        name.len() == 0 ==> entry_name_problem(name, form) == Some("Enter a name"@)
            && file_stem_problem(name, form) == Some("Enter a file name"@),
        name.contains(' ') ==> entry_name_problem(name, form) == Some(
            "Spaces do not fit in 8.3 names"@,
        ),
        name.len() > 2 && !name.contains(' ') && name.last() == '.' ==> entry_name_problem(
            name,
            form,
        ) == Some("Name cannot end with a dot"@),
        name.len() > 0 && name.contains('.') ==> file_stem_problem(name, form) == Some(
            "Dots are only for the extension"@,
        ),
        name.len() > 8 && !name.contains('.') ==> file_stem_problem(name, form) == Some(
            "Name is longer than 8 characters"@,
        ),
{
    reveal_strlit(".");
    reveal_strlit("..");
    if name.contains(' ') {
        let i = choose|i: int| 0 <= i < name.len() && name[i] == ' ';
        assert(name != "."@) by {
            if name == "."@ {
                assert(name[i] == '.');
            }
        }
        assert(name != ".."@) by {
            if name == ".."@ {
                assert(name[i] == '.');
            }
        }
    }
}

/// A failure is reported with its reason, and a save that failed says where the old contents
/// are if they are not in their place.
pub proof fn failures_say_why(notice: Notice)
    ensures
        notice matches Notice::MoveFailed { error, .. } ==> ends_in(
            notice_text(notice),
            failure_reason(error),
        ),
        notice matches Notice::CreateFailed(error) ==> ends_in(
            notice_text(notice),
            failure_reason(error),
        ),
        notice matches Notice::SaveFailed(failure) ==> ends_in(
            notice_text(notice),
            match failure.backup_kept {
                Some(backup) => leaf_of(backup@),
                None => failure_reason(failure.error),
            },
        ),
{
    match notice {
        Notice::MoveFailed { error, .. } => {
            let text = notice_text(notice);
            let reason = failure_reason(error);
            assert(text.skip(text.len() - reason.len()) =~= reason);
        },
        Notice::CreateFailed(error) => {
            let text = notice_text(notice);
            let reason = failure_reason(error);
            assert(text.skip(text.len() - reason.len()) =~= reason);
        },
        Notice::SaveFailed(failure) => {
            let text = notice_text(notice);
            let reason = match failure.backup_kept {
                Some(backup) => leaf_of(backup@),
                None => failure_reason(failure.error),
            };
            assert(text.skip(text.len() - reason.len()) =~= reason);
        },
        _ => {},
    }
}

/// A failure is named after what was to be done. A delete that failed half way says so, and one
/// that could not be confirmed does not claim that it failed.
pub proof fn failures_are_named(notice: Notice)
    ensures
        notice matches Notice::MoveFailed { verb, .. } ==> begins(
            notice_text(notice),
            match verb {
                MoveVerb::Rename => "Rename failed: "@,
                MoveVerb::Move => "Move failed: "@,
            },
        ),
        notice matches Notice::CreateFailed(_) ==> begins(notice_text(notice), "Create failed: "@),
        notice matches Notice::SaveFailed(failure) ==> begins(
            notice_text(notice),
            if failure.backup_kept is Some {
                "Save failed; kept "@
            } else {
                "Save failed: "@
            },
        ),
        notice matches Notice::DeleteFailed(error) ==> begins(
            notice_text(notice),
            match error {
                FsOpError::DeleteIncomplete(_) => "Delete incomplete: "@,
                FsOpError::VerifyFailed => "Delete unconfirmed; check list"@,
                _ => "Not deleted: "@,
            },
        ),
        notice matches Notice::Landed { verb, source_remains } ==> begins(
            notice_text(notice),
            match verb {
                MoveVerb::Rename => "Renamed"@,
                MoveVerb::Move => "Moved"@,
            },
        ) && (source_remains ==> ends_in(notice_text(notice), "old entry remains"@)),
{
    let text = notice_text(notice);
    match notice {
        Notice::MoveFailed { verb: MoveVerb::Rename, .. } => {
            assert(text.take("Rename failed: "@.len() as int) =~= "Rename failed: "@);
        },
        Notice::MoveFailed { verb: MoveVerb::Move, .. } => {
            assert(text.take("Move failed: "@.len() as int) =~= "Move failed: "@);
        },
        Notice::CreateFailed(_) => {
            assert(text.take("Create failed: "@.len() as int) =~= "Create failed: "@);
        },
        Notice::SaveFailed(failure) => {
            if failure.backup_kept is Some {
                assert(text.take("Save failed; kept "@.len() as int) =~= "Save failed; kept "@);
            } else {
                assert(text.take("Save failed: "@.len() as int) =~= "Save failed: "@);
            }
        },
        Notice::DeleteFailed(error) => {
            match error {
                FsOpError::DeleteIncomplete(_) => {
                    assert(text.take("Delete incomplete: "@.len() as int) =~= "Delete incomplete: "@);
                },
                FsOpError::VerifyFailed => {
                    assert(text.take(text.len() as int) =~= text);
                },
                _ => {
                    assert(text.take("Not deleted: "@.len() as int) =~= "Not deleted: "@);
                },
            }
        },
        Notice::Landed { verb, source_remains } => {
            let done = match verb {
                MoveVerb::Rename => "Renamed"@,
                MoveVerb::Move => "Moved"@,
            };
            assert(text.take(done.len() as int) =~= done);
            if source_remains {
                let tail = "old entry remains"@;
                assert(text.skip(text.len() - tail.len()) =~= tail);
            }
        },
        _ => {},
    }
}

/// The words for a failure fit it: whatever is missing, taken, full, protected, broken or in
/// use is called so.
pub proof fn reasons_fit_the_failure(error: FsOpError)
    ensures
        error.says_not_found() ==> failure_reason(error) == "file not found"@,
        error is AlreadyExists || (error matches FsOpError::Fs(report) && (report
            is FileAlreadyExists || report is DirAlreadyExists)) ==> failure_reason(error)
            == "file already exists"@,
        (error matches FsOpError::Fs(report) && (report is DiskFull || report is NotEnoughSpace))
            ==> failure_reason(error) == "storage is full"@,
        (error matches FsOpError::Fs(report) && report is ReadOnly) ==> failure_reason(error)
            == "file is read-only"@,
        (error matches FsOpError::Fs(report) && report is AllocationError) ==> failure_reason(error)
            == "SD card fault"@,
        (error matches FsOpError::Fs(report) && (report is BadCluster || report is FormatError
            || report is UnterminatedFatChain)) ==> failure_reason(error) == "filesystem is corrupt"@,
        error is DeviceUnresponsive ==> failure_reason(error) == "SD not responding"@,
        error is MoveIntoSelf ==> failure_reason(error) == "move into itself"@,
        error is TooLarge ==> failure_reason(error) == "file too large"@,
        error is TooDeep ==> failure_reason(error) == "folders too deep"@,
        error is VerifyFailed ==> failure_reason(error) == "verify failed"@,
        error is IsADirectory ==> failure_reason(error) == "path is a folder"@,
        error is NotADirectory ==> failure_reason(error) == "not a folder"@,
        error is CleanupIncomplete ==> failure_reason(error) == "partial copy left"@,
        error is DeleteIncomplete ==> failure_reason(error) == "data removed"@,
{
}

/// A text whose first characters are `head`.
pub open spec fn begins(text: Seq<char>, head: Seq<char>) -> bool {
    text.len() >= head.len() && text.take(head.len() as int) == head
}

/// A text whose last characters are `tail`.
pub open spec fn ends_in(text: Seq<char>, tail: Seq<char>) -> bool {
    text.len() >= tail.len() && text.skip(text.len() - tail.len()) == tail
}

} // verus!
