//! Names and paths on the card.
use vstd::prelude::*;
use vstd::string::StrSliceExecFns;

use embedded_sdmmc::{FilenameError, ShortFileName};

use crate::text::{
    chars_of, equal_ignoring_case, fold, folded, holds_char, joined, same_but_for_case, same_text,
    text_of,
};

verus! {

/// Longest stem of a file name.
pub const MAX_FILE_STEM_CHARS: usize = 8;

/// Longest name that can be created: eight characters, a dot and three more.
pub const MAX_ENTRY_NAME_CHARS: usize = 12;

/// Why a name has no 8.3 form.
#[derive(Clone, Copy, Debug, PartialEq, Eq, Structural)]
pub enum NameFault {
    InvalidCharacter,
    Empty,
    TooLong,
    MisplacedPeriod,
    NotText,
}

/// The 8.3 form of a name, as the filesystem layer would store and show it.
pub uninterp spec fn short_form(name: Seq<char>) -> Result<Seq<char>, NameFault>;

/// The text that a short form carries.
pub open spec fn short_form_view(form: Result<String, NameFault>) -> Result<Seq<char>, NameFault> {
    match form {
        Ok(text) => Ok(text@),
        Err(fault) => Err(fault),
    }
}

/// A character that no 8.3 name can hold: a control character, one that FAT reserves, a
/// space, or one beyond ISO 8859-1.
pub open spec fn reserved(c: char) -> bool {
    ||| c as u32 <= 0x1f
    ||| c as u32 > 0xff
    ||| c == '"' || c == '*' || c == '+' || c == ',' || c == '/' || c == ':' || c == ';' || c == '<'
    ||| c == '=' || c == '>' || c == '?' || c == '[' || c == '\\' || c == ']' || c == ' ' || c
        == '|'
}

/// A base, with a dot and an extension where there is one.
pub open spec fn dotted(base: Seq<char>, extension: Seq<char>) -> Seq<char> {
    if extension.len() == 0 {
        base
    } else {
        base + seq!['.'] + extension
    }
}

/// At most eight characters, and a dot and at most three more where there is an
/// extension.
pub open spec fn eight_dot_three(name: Seq<char>) -> bool {
    exists|base: Seq<char>, extension: Seq<char>|
        {
            &&& name == #[trigger] dotted(base, extension)
            &&& 1 <= base.len() <= 8 && extension.len() <= 3
            &&& !base.contains('.') && !extension.contains('.')
        }
}

/// `embedded_sdmmc::ShortFileName::create_from_str`, with the name it makes shown
/// as text. Its result depends on `name` alone, and is called `short_form` here. A name
/// with a reserved character has no form; a form is `.`, `..` or of eight and three
/// characters. What else the form of a given name is, is left to that crate.
#[verifier::external_body]
pub(crate) fn short_name(name: &str) -> (form: Result<String, NameFault>)
    ensures
        short_form_view(form) == short_form(name@),
        (exists|i: int| 0 <= i < name@.len() && #[trigger] reserved(name@[i])) ==> form is Err,
        form matches Ok(text) ==> text@ == seq!['.'] || text@ == seq!['.', '.'] || eight_dot_three(
            text@,
        ),
{
    match ShortFileName::create_from_str(name) {
        Ok(short) => Ok(short.to_string()),
        Err(FilenameError::InvalidCharacter) => Err(NameFault::InvalidCharacter),
        Err(FilenameError::FilenameEmpty) => Err(NameFault::Empty),
        Err(FilenameError::NameTooLong) => Err(NameFault::TooLong),
        Err(FilenameError::MisplacedPeriod) => Err(NameFault::MisplacedPeriod),
        Err(FilenameError::Utf8Error) => Err(NameFault::NotText),
    }
}

/// What is wrong with a name whose 8.3 form is `form`; `None` if it can be used.
/// The form must show the name as it was typed, letter case aside.
pub open spec fn entry_name_problem(name: Seq<char>, form: Result<Seq<char>, NameFault>) -> Option<
    Seq<char>,
> {
    if name.len() == 0 {
        Some("Enter a name"@)
    } else if name == "."@ || name == ".."@ {
        Some("Name is reserved"@)
    } else if name.contains(' ') {
        Some("Spaces do not fit in 8.3 names"@)
    } else if name.last() == '.' {
        Some("Name cannot end with a dot"@)
    } else {
        match form {
            Err(NameFault::Empty) => Some("Enter a name"@),
            Err(NameFault::TooLong) => Some("Use an 8.3 name like NOTES.TXT"@),
            Err(NameFault::MisplacedPeriod) => Some("Use an 8.3 name like NOTES.TXT"@),
            Err(_) => Some("Name contains a FAT-reserved character"@),
            Ok(stored) => if same_but_for_case(stored, name) {
                None
            } else {
                Some("Name would be stored differently"@)
            },
        }
    }
}

/// What is wrong with the stem of a new file's name.
pub open spec fn file_stem_problem(stem: Seq<char>, form: Result<Seq<char>, NameFault>) -> Option<
    Seq<char>,
> {
    if stem.len() == 0 {
        Some("Enter a file name"@)
    } else if stem.contains('.') {
        Some("Dots are only for the extension"@)
    } else if stem.len() > MAX_FILE_STEM_CHARS {
        Some("Name is longer than 8 characters"@)
    } else {
        entry_name_problem(stem, form)
    }
}

/// A verdict says what `problem` says.
pub open spec fn says(verdict: Result<(), &'static str>, problem: Option<Seq<char>>) -> bool {
    match verdict {
        Ok(_) => problem is None,
        Err(message) => problem == Some(message@),
    }
}

/// Judge a name by its 8.3 form.
pub fn judge_entry_name(name: &str, form: &Result<String, NameFault>) -> (verdict: Result<
    (),
    &'static str,
>)
    ensures
        says(verdict, entry_name_problem(name@, short_form_view(*form))),
{
    let chars = chars_of(name);
    if chars.len() == 0 {
        return Err("Enter a name");
    }
    if same_text(name, ".") || same_text(name, "..") {
        return Err("Name is reserved");
    }
    if holds_char(&chars, ' ') {
        return Err("Spaces do not fit in 8.3 names");
    }
    if chars[chars.len() - 1] == '.' {
        return Err("Name cannot end with a dot");
    }
    match form {
        Err(NameFault::Empty) => Err("Enter a name"),
        Err(NameFault::TooLong) => Err("Use an 8.3 name like NOTES.TXT"),
        Err(NameFault::MisplacedPeriod) => Err("Use an 8.3 name like NOTES.TXT"),
        Err(_) => Err("Name contains a FAT-reserved character"),
        Ok(stored) => {
            if equal_ignoring_case(&chars_of(stored.as_str()), &chars) {
                Ok(())
            } else {
                Err("Name would be stored differently")
            }
        },
    }
}

/// Judge the stem of a new file's name by its 8.3 form.
pub fn judge_file_stem(stem: &str, form: &Result<String, NameFault>) -> (verdict: Result<
    (),
    &'static str,
>)
    ensures
        says(verdict, file_stem_problem(stem@, short_form_view(*form))),
{
    let chars = chars_of(stem);
    if chars.len() == 0 {
        return Err("Enter a file name");
    }
    if holds_char(&chars, '.') {
        return Err("Dots are only for the extension");
    }
    if chars.len() > MAX_FILE_STEM_CHARS {
        return Err("Name is longer than 8 characters");
    }
    judge_entry_name(stem, form)
}

/// A name that can be created: of eight and three characters, none of them reserved.
pub open spec fn creatable(name: Seq<char>) -> bool {
    &&& eight_dot_three(name)
    &&& forall|i: int| 0 <= i < name.len() ==> !#[trigger] reserved(name[i])
}

/// A dot has no case.
proof fn dots_have_no_case(a: char, b: char)
    requires
        folded(a) == folded(b),
    ensures
        (a == '.') == (b == '.'),
{
}

/// Letter case makes no difference to the shape of a name.
proof fn shape_ignores_case(stored: Seq<char>, name: Seq<char>)
    requires
        eight_dot_three(stored),
        same_but_for_case(stored, name),
    ensures
        eight_dot_three(name),
{
    let (base, extension) = choose|base: Seq<char>, extension: Seq<char>|
        {
            &&& stored == #[trigger] dotted(base, extension)
            &&& 1 <= base.len() <= 8 && extension.len() <= 3
            &&& !base.contains('.') && !extension.contains('.')
        };
    let n = base.len() as int;
    let own_base = name.take(n);
    let own_extension = if extension.len() == 0 {
        Seq::empty()
    } else {
        name.skip(n + 1)
    };
    assert forall|i: int| 0 <= i < n implies own_base[i] != '.' by {
        assert(stored[i] == base[i]);
        assert(base.contains(base[i]));
        dots_have_no_case(stored[i], name[i]);
    }
    assert forall|i: int| 0 <= i < own_extension.len() implies own_extension[i] != '.' by {
        assert(stored[n + 1 + i] == extension[i]);
        assert(extension.contains(extension[i]));
        dots_have_no_case(stored[n + 1 + i], name[n + 1 + i]);
    }
    if extension.len() > 0 {
        assert(stored[n] == '.');
        dots_have_no_case(stored[n], name[n]);
    }
    assert(name =~= dotted(own_base, own_extension));
}

/// A name whose 8.3 form is `.`, `..` or of eight and three characters, and that has none
/// where it holds a reserved character, is creatable once it is accepted.
pub proof fn accepted_names_are_creatable(name: Seq<char>, form: Result<Seq<char>, NameFault>)
    requires
        (exists|i: int| 0 <= i < name.len() && #[trigger] reserved(name[i])) ==> form is Err,
        form matches Ok(text) ==> text == seq!['.'] || text == seq!['.', '.'] || eight_dot_three(
            text,
        ),
        entry_name_problem(name, form) is None,
    ensures
        creatable(name),
{
    let stored = form->Ok_0;
    if stored == seq!['.'] || stored == seq!['.', '.'] {
        let last = name.len() - 1;
        assert(stored[last] == '.');
        dots_have_no_case(stored[last], name[last]);
        assert(name.last() == '.');
    }
    shape_ignores_case(stored, name);
}

/// Whether an entry of this name can be created.
pub fn validate_entry_name(name: &str) -> (verdict: Result<(), &'static str>)
    ensures
        says(verdict, entry_name_problem(name@, short_form(name@))),
        verdict is Ok ==> creatable(name@),
{
    let form = short_name(name);
    let verdict = judge_entry_name(name, &form);
    proof {
        if verdict is Ok {
            accepted_names_are_creatable(name@, short_form(name@));
        }
    }
    verdict
}

/// Whether this can be the stem of a new file's name.
pub fn validate_file_stem(stem: &str) -> (verdict: Result<(), &'static str>)
    ensures
        says(verdict, file_stem_problem(stem@, short_form(stem@))),
        verdict is Ok ==> creatable(stem@) && stem@.len() <= MAX_FILE_STEM_CHARS,
{
    let form = short_name(stem);
    let verdict = judge_file_stem(stem, &form);
    proof {
        if verdict is Ok {
            accepted_names_are_creatable(stem@, short_form(stem@));
        }
    }
    verdict
}

/// The name ends in `.txt`, in any letter case.
pub open spec fn names_txt(name: Seq<char>) -> bool {
    name.len() >= 4 && same_but_for_case(name.skip(name.len() - 4), seq!['.', 't', 'x', 't'])
}

/// Whether the name is that of a text file.
pub fn is_txt_file(name: &str) -> (yes: bool)
    ensures
        yes == names_txt(name@),
{
    let chars = chars_of(name);
    let len: usize = chars.len();
    if len < 4 {
        return false;
    }
    let yes = fold(chars[len - 4]) == '.' as u32 && fold(chars[len - 3]) == 't' as u32 && fold(
        chars[len - 2],
    ) == 'x' as u32 && fold(chars[len - 1]) == 't' as u32;
    proof {
        let tail = name@.skip(len - 4);
        let want = seq!['.', 't', 'x', 't'];
        assert(tail[0] == chars@[len - 4] && tail[1] == chars@[len - 3] && tail[2] == chars@[len - 2]
            && tail[3] == chars@[len - 1]);
        assert(folded(want[0]) == '.' as u32 && folded(want[1]) == 't' as u32 && folded(want[2])
            == 'x' as u32 && folded(want[3]) == 't' as u32);
        if same_but_for_case(tail, want) {
            assert(folded(tail[0]) == folded(want[0]));
            assert(folded(tail[1]) == folded(want[1]));
            assert(folded(tail[2]) == folded(want[2]));
            assert(folded(tail[3]) == folded(want[3]));
        }
    }
    yes
}

/// The path of `name` in the directory `parent`.
pub open spec fn joined_path(parent: Seq<char>, name: Seq<char>) -> Seq<char> {
    if parent == "/"@ { "/"@ + name } else { parent + "/"@ + name }
}

/// The path of `name` in the directory `parent`.
pub fn join_path(parent: &str, name: &str) -> (path: String)
    ensures
        path@ == joined_path(parent@, name@),
{
    if same_text(parent, "/") {
        joined("/", name)
    } else {
        let front = joined(parent, "/");
        joined(front.as_str(), name)
    }
}

/// What stands before the last `/`; nothing if there is none.
pub open spec fn before_last_slash(path: Seq<char>) -> Seq<char>
    decreases path.len(),
{
    if path.len() == 0 {
        path
    } else if path.last() == '/' {
        path.drop_last()
    } else {
        before_last_slash(path.drop_last())
    }
}

/// The directory that holds the entry at `path`; the root holds itself.
pub open spec fn parent_of(path: Seq<char>) -> Seq<char> {
    if before_last_slash(path).len() == 0 { "/"@ } else { before_last_slash(path) }
}

/// The directory that holds the entry at `path`.
pub fn parent_path(path: &str) -> (parent: String)
    ensures
        parent@ == parent_of(path@),
{
    let chars = chars_of(path);
    let mut end: usize = chars.len();
    assert(chars@.take(end as int) =~= chars@);
    while end > 0 && chars[end - 1] != '/'
        invariant
            end <= chars@.len(),
            before_last_slash(chars@.take(end as int)) == before_last_slash(chars@),
        decreases end,
    {
        assert(chars@.take(end as int).drop_last() =~= chars@.take(end - 1));
        end = end - 1;
    }
    assert(end > 0 ==> chars@.take(end as int).drop_last() =~= chars@.take(end - 1));
    if end <= 1 {
        "/".to_owned()
    } else {
        assert(chars@.subrange(0, end - 1) =~= chars@.take(end - 1));
        text_of(&chars, 0, end - 1)
    }
}

/// What follows the last `/`.
pub open spec fn after_last_slash(path: Seq<char>) -> Seq<char>
    decreases path.len(),
{
    if path.len() == 0 || path.last() == '/' {
        Seq::empty()
    } else {
        after_last_slash(path.drop_last()).push(path.last())
    }
}

/// The last component of a path that is not empty; empty if there is none.
pub open spec fn leaf_of(path: Seq<char>) -> Seq<char>
    decreases path.len(),
{
    if path.len() > 0 && path.last() == '/' {
        leaf_of(path.drop_last())
    } else {
        after_last_slash(path)
    }
}

/// The name under which the entry at `path` is stored.
pub fn leaf_name(path: &str) -> (leaf: &str)
    ensures
        leaf@ == leaf_of(path@),
{
    let chars = chars_of(path);
    let ghost all = path@;
    let mut end: usize = chars.len();
    assert(all.take(end as int) =~= all);
    while end > 0 && chars[end - 1] == '/'
        invariant
            all == chars@,
            end <= all.len(),
            leaf_of(all.take(end as int)) == leaf_of(all),
        decreases end,
    {
        assert(all.take(end as int).drop_last() =~= all.take(end - 1));
        end = end - 1;
    }
    let mut start: usize = end;
    let ghost kept = all.take(end as int);
    assert(all.subrange(end as int, end as int) =~= Seq::empty());
    while start > 0 && chars[start - 1] != '/'
        invariant
            all == chars@,
            start <= end <= all.len(),
            kept == all.take(end as int),
            after_last_slash(kept) == after_last_slash(all.take(start as int)) + all.subrange(
                start as int,
                end as int,
            ),
        decreases start,
    {
        proof {
            let shorter = all.take(start as int).drop_last();
            assert(shorter =~= all.take(start - 1));
            assert(after_last_slash(all.take(start as int)) + all.subrange(
                start as int,
                end as int,
            ) =~= after_last_slash(shorter) + all.subrange(start - 1, end as int));
        }
        start = start - 1;
    }
    assert(after_last_slash(all.take(start as int)) =~= Seq::empty());
    path.substring_char(start, end)
}

/// The components of a path that are complete and the one that is open at its end.
pub open spec fn split_path(path: Seq<char>) -> (Seq<Seq<char>>, Seq<char>)
    decreases path.len(),
{
    if path.len() == 0 {
        (Seq::empty(), Seq::empty())
    } else {
        let (complete, current) = split_path(path.drop_last());
        if path.last() != '/' {
            (complete, current.push(path.last()))
        } else if current.len() > 0 {
            (complete.push(current), Seq::empty())
        } else {
            (complete, current)
        }
    }
}

/// The components of a path, without the empty ones.
pub open spec fn components_of(path: Seq<char>) -> Seq<Seq<char>> {
    let (complete, current) = split_path(path);
    if current.len() > 0 { complete.push(current) } else { complete }
}

/// The texts of a list of strings.
pub open spec fn texts(list: Seq<String>) -> Seq<Seq<char>> {
    list.map_values(|text: String| text@)
}

/// The components of a path, without the empty ones.
pub fn components(path: &str) -> (list: Vec<String>)
    ensures
        texts(list@) == components_of(path@),
{
    let mut list: Vec<String> = Vec::new();
    let mut current = String::new();
    let mut is_open = false;
    assert(texts(list@) =~= Seq::empty());
    for c in it: path.chars()
        invariant
            it.seq() == path@,
            texts(list@) == split_path(path@.take(it.index() as int)).0,
            current@ == split_path(path@.take(it.index() as int)).1,
            is_open == (current@.len() > 0),
    {
        let ghost i = it.index() as int;
        let ghost done = list@;
        assert(path@.take(i + 1).drop_last() =~= path@.take(i));
        if c != '/' {
            current.push(c);
            is_open = true;
        } else if is_open {
            list.push(current);
            assert(texts(list@) =~= texts(done).push(current@));
            current = String::new();
            is_open = false;
        }
    }
    assert(path@.take(path@.len() as int) =~= path@);
    if is_open {
        let ghost done = list@;
        list.push(current);
        assert(texts(list@) =~= texts(done).push(current@));
    }
    list
}

/// `path` lies strictly inside the directory `ancestor`, letter case aside. The root
/// already ends in the `/` that follows any other directory.
pub open spec fn lies_inside(ancestor: Seq<char>, path: Seq<char>) -> bool {
    &&& path.len() > ancestor.len()
    &&& same_but_for_case(path.take(ancestor.len() as int), ancestor)
    &&& ancestor == "/"@ || path[ancestor.len() as int] == '/'
}

/// Whether `path` lies strictly inside the directory `ancestor`.
pub fn path_is_inside(ancestor: &str, path: &str) -> (inside: bool)
    ensures
        inside == lies_inside(ancestor@, path@),
{
    let a = chars_of(ancestor);
    let p = chars_of(path);
    if p.len() <= a.len() {
        return false;
    }
    for i in 0..a.len()
        invariant
            a@ == ancestor@,
            p@ == path@,
            a@.len() < p@.len(),
            forall|j: int| 0 <= j < i ==> folded(p@[j]) == folded(#[trigger] a@[j]),
    {
        if fold(p[i]) != fold(a[i]) {
            assert(folded(path@.take(a@.len() as int)[i as int]) != folded(a@[i as int]));
            return false;
        }
    }
    assert(same_but_for_case(path@.take(a@.len() as int), a@));
    p[a.len()] == '/' || same_text(ancestor, "/")
}

/// A name without `/` is the last component of the path it was joined to.
pub proof fn leaf_of_joined(parent: Seq<char>, name: Seq<char>)
    requires
        name.len() > 0,
        !name.contains('/'),
    ensures
        leaf_of(joined_path(parent, name)) == name,
{
    reveal_strlit("/");
    let front = if parent == "/"@ { "/"@ } else { parent + "/"@ };
    assert(joined_path(parent, name) == front + name);
    assert(front.last() == '/');
    name_follows_slash(front, name);
    assert((front + name).last() == name.last());
    assert(name.contains(name.last()));
}

/// The directory that a name was joined to holds it.
pub proof fn parent_of_joined(parent: Seq<char>, name: Seq<char>)
    requires
        parent.len() > 0,
        !name.contains('/'),
    ensures
        parent_of(joined_path(parent, name)) == parent,
{
    reveal_strlit("/");
    let front = if parent == "/"@ { "/"@ } else { parent + "/"@ };
    assert(joined_path(parent, name) == front + name);
    name_follows_slash(front, name);
    if parent == "/"@ {
        assert(front.drop_last() =~= Seq::empty());
    } else {
        assert(front.drop_last() =~= parent);
    }
}

proof fn name_follows_slash(front: Seq<char>, name: Seq<char>)
    requires
        front.len() > 0,
        front.last() == '/',
        !name.contains('/'),
    ensures
        after_last_slash(front + name) == name,
        before_last_slash(front + name) == front.drop_last(),
    decreases name.len(),
{
    if name.len() == 0 {
        assert(front + name =~= front);
        assert(name =~= Seq::empty());
    } else {
        let shorter = name.drop_last();
        assert forall|i: int| 0 <= i < shorter.len() implies shorter[i] != '/' by {
            assert(name.contains(name[i]));
        }
        name_follows_slash(front, shorter);
        assert((front + name).drop_last() =~= front + shorter);
        assert(name.contains(name.last()));
        assert(shorter.push(name.last()) =~= name);
    }
}

/// An entry joined to a directory lies inside it.
pub proof fn joined_lies_inside(parent: Seq<char>, name: Seq<char>)
    requires
        name.len() > 0,
    ensures
        lies_inside(parent, joined_path(parent, name)),
        !lies_inside(parent, parent),
{
    reveal_strlit("/");
    let path = joined_path(parent, name);
    assert(path.take(parent.len() as int) =~= parent);
    if parent != "/"@ {
        assert(path[parent.len() as int] == '/');
    }
}

/// Joining a name adds one component to a path.
pub proof fn joining_adds_a_component(parent: Seq<char>, name: Seq<char>)
    requires
        name.len() > 0,
        !name.contains('/'),
    ensures
        components_of(joined_path(parent, name)) == components_of(parent).push(name),
{
    reveal_strlit("/");
    let front = if parent == "/"@ { "/"@ } else { parent + "/"@ };
    assert(joined_path(parent, name) == front + name);
    if parent != "/"@ {
        assert(front.drop_last() =~= parent);
    }
    assert(split_path(front) == (components_of(parent), Seq::<char>::empty())) by {
        if parent == "/"@ {
            assert(parent.drop_last() =~= Seq::empty());
        }
        let current = split_path(parent).1;
        if current.len() == 0 {
            assert(current =~= Seq::empty());
        }
    }
    open_component_grows(front, name);
    assert(Seq::<char>::empty() + name =~= name);
}

/// Whatever is joined to a path, its components come first.
pub proof fn joining_keeps_the_components(parent: Seq<char>, name: Seq<char>)
    ensures
        components_of(parent).is_prefix_of(components_of(joined_path(parent, name))),
        components_of(parent).is_prefix_of(components_of(parent_of(joined_path(parent, name)))),
{
    reveal_strlit("/");
    let front = if parent == "/"@ { "/"@ } else { parent + "/"@ };
    assert(joined_path(parent, name) == front + name);
    slash_ends_a_component(parent);
    longer_paths_keep_components(front, name, components_of(parent));
    parents_keep_components(front, name, parent);
}

proof fn slash_ends_a_component(parent: Seq<char>)
    ensures
        split_path(if parent == "/"@ { "/"@ } else { parent + "/"@ }) == (
            components_of(parent),
            Seq::<char>::empty(),
        ),
{
    reveal_strlit("/");
    let front = if parent == "/"@ { "/"@ } else { parent + "/"@ };
    if parent != "/"@ {
        assert(front.drop_last() =~= parent);
    } else {
        assert(parent.drop_last() =~= Seq::empty());
    }
    let current = split_path(parent).1;
    if current.len() == 0 {
        assert(current =~= Seq::empty());
    }
}

proof fn longer_paths_keep_components(
    front: Seq<char>,
    rest: Seq<char>,
    components: Seq<Seq<char>>,
)
    requires
        split_path(front) == (components, Seq::<char>::empty()),
    ensures
        components.is_prefix_of(split_path(front + rest).0),
        components.is_prefix_of(components_of(front + rest)),
    decreases rest.len(),
{
    if rest.len() == 0 {
        assert(front + rest =~= front);
    } else {
        longer_paths_keep_components(front, rest.drop_last(), components);
        assert((front + rest).drop_last() =~= front + rest.drop_last());
    }
}

proof fn parents_keep_components(front: Seq<char>, rest: Seq<char>, parent: Seq<char>)
    requires
        front == if parent == "/"@ { "/"@ } else { parent + "/"@ },
    ensures
        components_of(parent).is_prefix_of(components_of(parent_of(front + rest))),
    decreases rest.len(),
{
    reveal_strlit("/");
    slash_ends_a_component(parent);
    if rest.len() == 0 {
        assert(front + rest =~= front);
        if parent == "/"@ {
            assert(front.drop_last() =~= Seq::empty());
        } else {
            assert(front.drop_last() =~= parent);
            if parent.len() == 0 {
                assert(components_of(parent) =~= Seq::empty());
            }
        }
    } else {
        let shorter = rest.drop_last();
        assert((front + rest).drop_last() =~= front + shorter);
        if rest.last() == '/' {
            longer_paths_keep_components(front, shorter, components_of(parent));
        } else {
            parents_keep_components(front, shorter, parent);
        }
    }
}

/// A path that does not end in `/` has the components of its parent and its leaf.
pub proof fn paths_end_in_their_leaf(path: Seq<char>)
    requires
        path.len() > 0,
        path.last() != '/',
    ensures
        components_of(path) == components_of(parent_of(path)).push(leaf_of(path)),
    decreases path.len(),
{
    reveal_strlit("/");
    leaf_is_open(path);
    assert(leaf_of(path).len() > 0);
    let before = before_last_slash(path);
    assert(components_of("/"@) =~= Seq::empty()) by {
        assert("/"@.drop_last() =~= Seq::empty());
        let nothing = split_path(Seq::<char>::empty());
        assert(nothing.0 =~= Seq::empty() && nothing.1 =~= Seq::empty());
    }
    if before.len() == 0 {
        assert(components_of(before) =~= Seq::empty());
    }
}

proof fn leaf_is_open(path: Seq<char>)
    ensures
        split_path(path).1 == after_last_slash(path),
        split_path(path).0 == components_of(before_last_slash(path)),
    decreases path.len(),
{
    if path.len() == 0 {
        assert(components_of(path) =~= Seq::empty());
    } else if path.last() == '/' {
        let current = split_path(path.drop_last()).1;
        if current.len() == 0 {
            assert(current =~= Seq::empty());
        }
    } else {
        leaf_is_open(path.drop_last());
    }
}

proof fn open_component_grows(front: Seq<char>, name: Seq<char>)
    requires
        !name.contains('/'),
    ensures
        split_path(front + name) == (split_path(front).0, split_path(front).1 + name),
    decreases name.len(),
{
    if name.len() == 0 {
        assert(front + name =~= front);
        assert(split_path(front).1 + name =~= split_path(front).1);
    } else {
        let shorter = name.drop_last();
        assert forall|i: int| 0 <= i < shorter.len() implies shorter[i] != '/' by {
            assert(name.contains(name[i]));
        }
        open_component_grows(front, shorter);
        assert((front + name).drop_last() =~= front + shorter);
        assert(name.contains(name.last()));
        assert((split_path(front).1 + shorter).push(name.last()) =~= split_path(front).1 + name);
    }
}

} // verus!
