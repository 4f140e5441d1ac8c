//! Text helpers: comparing, joining and encoding characters.
use vstd::prelude::*;
use vstd::std_specs::iter::IteratorSpec;
use vstd::string::StringExecFns;
use vstd::utf8::{encode_scalar, encode_utf8, decode_utf8, valid_utf8};

verus! {

/// `core::str::Utf8Error`, carried as is.
#[verifier::external_type_specification]
#[verifier::external_body]
pub struct ExUtf8Error(core::str::Utf8Error);

/// `core::str::from_utf8` accepts exactly the byte sequences that are valid
/// UTF-8, and gives them back as text.
pub assume_specification[ core::str::from_utf8 ](v: &[u8]) -> (result: Result<
    &str,
    core::str::Utf8Error,
>)
    ensures
        result is Ok <==> valid_utf8(v@),
        result matches Ok(text) ==> text@ == decode_utf8(v@),
;

/// `String::push` appends one character.
pub assume_specification[ String::push ](text: &mut String, ch: char)
    ensures
        final(text)@ == old(text)@.push(ch),
;

/// Whether two texts are the same.
pub fn same_text(a: &str, b: &str) -> (same: bool)
    ensures
        same == (a@ == b@),
{
    let mut others = b.chars();
    for c in it: a.chars()
        invariant
            it.seq() == a@,
            it.index() <= b@.len(),
            others.remaining() == b@.skip(it.index() as int),
            a@.take(it.index() as int) == b@.take(it.index() as int),
    {
        match others.next() {
            Some(d) => {
                if c != d {
                    return false;
                }
            },
            None => {
                return false;
            },
        }
    }
    assert(a@.take(a@.len() as int) =~= a@);
    let same = others.next().is_none();
    proof {
        if same {
            assert(b@.take(a@.len() as int) =~= b@);
        }
    }
    same
}

/// The characters of a text, one by one.
pub fn chars_of(text: &str) -> (chars: Vec<char>)
    ensures
        chars@ == text@,
{
    let mut chars: Vec<char> = Vec::new();
    for c in it: text.chars()
        invariant
            it.seq() == text@,
            chars@ == text@.take(it.index() as int),
    {
        chars.push(c);
        assert(chars@ =~= text@.take(it.index() + 1));
    }
    assert(text@.take(text@.len() as int) =~= text@);
    chars
}

/// The text that the characters from `from` up to `to` make.
pub fn text_of(chars: &Vec<char>, from: usize, to: usize) -> (text: String)
    requires
        from <= to <= chars@.len(),
    ensures
        text@ == chars@.subrange(from as int, to as int),
{
    let mut text = String::new();
    assert(text@ =~= chars@.subrange(from as int, from as int));
    for i in from..to
        invariant
            from <= to <= chars@.len(),
            text@ == chars@.subrange(from as int, i as int),
    {
        text.push(chars[i]);
        assert(text@ =~= chars@.subrange(from as int, i + 1));
    }
    text
}

/// Two texts one after the other.
pub fn joined(front: &str, back: &str) -> (text: String)
    ensures
        text@ == front@ + back@,
{
    front.to_owned().concat(back)
}

/// The code of a character, with the ASCII letters made small.
pub open spec fn folded(c: char) -> u32 {
    if 'A' <= c <= 'Z' { (c as u32 + 0x20) as u32 } else { c as u32 }
}

/// Two texts that differ at most in the case of ASCII letters.
pub open spec fn same_but_for_case(a: Seq<char>, b: Seq<char>) -> bool {
    a.len() == b.len() && forall|i: int| 0 <= i < a.len() ==> folded(#[trigger] a[i]) == folded(b[i])
}

/// Fold one character.
pub fn fold(c: char) -> (code: u32)
    ensures
        code == folded(c),
{
    if 'A' <= c && c <= 'Z' {
        c as u32 + 0x20
    } else {
        c as u32
    }
}

/// Whether two texts differ at most in the case of ASCII letters.
pub fn equal_ignoring_case(a: &Vec<char>, b: &Vec<char>) -> (same: bool)
    ensures
        same == same_but_for_case(a@, b@),
{
    if a.len() != b.len() {
        return false;
    }
    for i in 0..a.len()
        invariant
            a@.len() == b@.len(),
            forall|j: int| 0 <= j < i ==> folded(#[trigger] a@[j]) == folded(b@[j]),
    {
        if fold(a[i]) != fold(b[i]) {
            assert(folded(a@[i as int]) != folded(b@[i as int]));
            return false;
        }
    }
    true
}

/// Whether `text` holds `c`.
pub fn holds_char(text: &Vec<char>, c: char) -> (found: bool)
    ensures
        found == text@.contains(c),
{
    for i in 0..text.len()
        invariant
            forall|j: int| 0 <= j < i ==> text@[j] != c,
    {
        if text[i] == c {
            assert(text@[i as int] == c);
            return true;
        }
    }
    false
}

/// Whether `text` begins with `prefix`.
pub fn begins_with(text: &Vec<char>, prefix: &Vec<char>) -> (yes: bool)
    ensures
        yes == prefix@.is_prefix_of(text@),
{
    if text.len() < prefix.len() {
        return false;
    }
    for i in 0..prefix.len()
        invariant
            prefix@.len() <= text@.len(),
            forall|j: int| 0 <= j < i ==> text@[j] == prefix@[j],
    {
        if text[i] != prefix[i] {
            assert(text@.subrange(0, prefix@.len() as int)[i as int] != prefix@[i as int]);
            return false;
        }
    }
    assert(text@.subrange(0, prefix@.len() as int) =~= prefix@);
    true
}

/// The digit character of a number below 16.
pub open spec fn digit_char(n: int) -> char {
    if n < 10 { (48 + n) as u8 as char } else { (55 + n) as u8 as char }
}

/// `n` written in decimal.
pub open spec fn decimal_text(n: nat) -> Seq<char>
    decreases n,
{
    if n < 10 {
        seq![digit_char(n as int)]
    } else {
        decimal_text(n / 10).push(digit_char((n % 10) as int))
    }
}

/// Write a number in decimal.
pub fn decimal(n: u64) -> (text: String)
    ensures
        text@ == decimal_text(n as nat),
    decreases n,
{
    let mut text = if n < 10 { String::new() } else { decimal(n / 10) };
    text.push((48 + (n % 10) as u8) as char);
    assert(n < 10 ==> text@ =~= seq![digit_char(n as int)]);
    text
}

/// `n` written as four hexadecimal digits.
pub open spec fn hex4_text(n: u16) -> Seq<char> {
    seq![
        digit_char((n / 0x1000) as int),
        digit_char((n / 0x100 % 0x10) as int),
        digit_char((n / 0x10 % 0x10) as int),
        digit_char((n % 0x10) as int),
    ]
}

fn digit(n: u16) -> (c: char)
    requires
        n < 16,
    ensures
        c == digit_char(n as int),
{
    if n < 10 {
        (48 + n as u8) as char
    } else {
        (55 + n as u8) as char
    }
}

/// Write a number as four hexadecimal digits.
pub fn hex4(n: u16) -> (text: String)
    ensures
        text@ == hex4_text(n),
{
    let mut text = String::new();
    text.push(digit(n / 0x1000));
    text.push(digit(n / 0x100 % 0x10));
    text.push(digit(n / 0x10 % 0x10));
    text.push(digit(n % 0x10));
    assert(text@ =~= hex4_text(n));
    text
}

/// The UTF-8 encoding of one character.
pub fn encode_char(c: char) -> (bytes: Vec<u8>)
    ensures
        bytes@ == encode_utf8(seq![c]),
        1 <= bytes@.len() <= 4,
{
    let code: u32 = c as u32;
    let mut bytes: Vec<u8> = Vec::new();
    if code <= 0x7f {
        bytes.push((code & 0x7f) as u8);
    } else if code <= 0x7ff {
        bytes.push(0xc0 | ((code >> 6) & 0x1f) as u8);
        bytes.push(0x80 | (code & 0x3f) as u8);
    } else if code <= 0xffff {
        bytes.push(0xe0 | ((code >> 12) & 0x0f) as u8);
        bytes.push(0x80 | ((code >> 6) & 0x3f) as u8);
        bytes.push(0x80 | (code & 0x3f) as u8);
    } else {
        bytes.push(0xf0 | ((code >> 18) & 0x7) as u8);
        bytes.push(0x80 | ((code >> 12) & 0x3f) as u8);
        bytes.push(0x80 | ((code >> 6) & 0x3f) as u8);
        bytes.push(0x80 | (code & 0x3f) as u8);
    }
    proof {
        vstd::utf8::char_is_scalar(c);
        assert(seq![c].drop_first() =~= Seq::empty());
        assert(bytes@ =~= encode_scalar(code));
        assert(encode_utf8(seq![c].drop_first()) =~= Seq::empty());
        assert(bytes@ =~= encode_utf8(seq![c]));
    }
    bytes
}

/// Number of bytes in the UTF-8 encoding of one character.
pub fn encoded_len(c: char) -> (len: usize)
    ensures
        len == encode_utf8(seq![c]).len(),
        1 <= len <= 4,
{
    let code: u32 = c as u32;
    proof {
        vstd::utf8::char_is_scalar(c);
        assert(seq![c].drop_first() =~= Seq::empty());
        assert(encode_utf8(seq![c].drop_first()) =~= Seq::empty());
        assert(encode_utf8(seq![c]) =~= encode_scalar(code));
    }
    if code <= 0x7f {
        1
    } else if code <= 0x7ff {
        2
    } else if code <= 0xffff {
        3
    } else {
        4
    }
}

/// Encoding goes part by part.
pub proof fn encode_joins(a: Seq<char>, b: Seq<char>)
    ensures
        encode_utf8(a + b) == encode_utf8(a) + encode_utf8(b),
    decreases a.len(),
{
    if a.len() == 0 {
        assert(a + b =~= b);
        assert(encode_utf8(a) + encode_utf8(b) =~= encode_utf8(b));
    } else {
        encode_joins(a.drop_first(), b);
        assert((a + b).drop_first() =~= a.drop_first() + b);
        assert(encode_utf8(a + b) =~= encode_utf8(a) + encode_utf8(b));
    }
}

} // verus!
