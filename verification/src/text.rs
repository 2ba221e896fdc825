//! Character classification and small string utilities shared by the
//! tokenizer and the layout engine.
//!
//! The Unicode classifications (`char::is_whitespace`,
//! `char::is_alphanumeric`) and Unicode lowercasing (`str::to_lowercase`)
//! come from std through trusted wrappers; their behaviour on ASCII input is
//! pinned down exactly, the rest is named by uninterpreted spec functions.

use vstd::prelude::*;

verus! {

/// What `char::is_whitespace` returns on a character outside ASCII.
pub uninterp spec fn unicode_ws_ext(c: char) -> bool;

/// What `char::is_alphanumeric` returns on a character outside ASCII.
pub uninterp spec fn unicode_alnum_ext(c: char) -> bool;

/// What `char::is_alphabetic` returns on a character outside ASCII.
pub uninterp spec fn unicode_alpha_ext(c: char) -> bool;

/// What `str::to_lowercase` returns on a string that is not all ASCII:
/// a function of the characters alone.
pub uninterp spec fn unicode_lower_ext(s: Seq<char>) -> Seq<char>;

pub open spec fn is_ascii_char(c: char) -> bool {
    (c as u32) < 128
}

pub open spec fn is_ascii_seq(s: Seq<char>) -> bool {
    forall|i: int| 0 <= i < s.len() ==> is_ascii_char(#[trigger] s[i])
}

/// The ASCII whitespace characters (the ASCII part of Unicode `White_Space`).
pub open spec fn is_ascii_ws(c: char) -> bool {
    c == ' ' || c == '\t' || c == '\n' || c == '\r' || c == '\u{b}' || c == '\u{c}'
}

/// The ASCII letters (the ASCII part of `Alphabetic`).
pub open spec fn is_ascii_letter(c: char) -> bool {
    ('a' as u32 <= c as u32 && c as u32 <= 'z' as u32)
    || ('A' as u32 <= c as u32 && c as u32 <= 'Z' as u32)
}

/// The ASCII letters and digits (the ASCII part of `Alphabetic`/`Number`).
pub open spec fn is_ascii_alnum(c: char) -> bool {
    ('0' as u32 <= c as u32 && c as u32 <= '9' as u32)
    || ('a' as u32 <= c as u32 && c as u32 <= 'z' as u32)
    || ('A' as u32 <= c as u32 && c as u32 <= 'Z' as u32)
}

/// The simple ASCII lowercase mapping: 'A'..='Z' map to 'a'..='z',
/// every other character is left unchanged.
pub open spec fn ascii_lower_char(c: char) -> char {
    match c {
        'A' => 'a',
        'B' => 'b',
        'C' => 'c',
        'D' => 'd',
        'E' => 'e',
        'F' => 'f',
        'G' => 'g',
        'H' => 'h',
        'I' => 'i',
        'J' => 'j',
        'K' => 'k',
        'L' => 'l',
        'M' => 'm',
        'N' => 'n',
        'O' => 'o',
        'P' => 'p',
        'Q' => 'q',
        'R' => 'r',
        'S' => 's',
        'T' => 't',
        'U' => 'u',
        'V' => 'v',
        'W' => 'w',
        'X' => 'x',
        'Y' => 'y',
        'Z' => 'z',
        _ => c,
    }
}

pub open spec fn ascii_lower_seq(s: Seq<char>) -> Seq<char> {
    Seq::new(s.len(), |i: int| ascii_lower_char(s[i]))
}

/// Unicode `White_Space`: exact on ASCII, named beyond it.
pub open spec fn is_ws_char(c: char) -> bool {
    if is_ascii_char(c) {
        is_ascii_ws(c)
    } else {
        unicode_ws_ext(c)
    }
}

/// Unicode `Alphabetic` or `Number`: exact on ASCII, named beyond it.
pub open spec fn is_alnum_char(c: char) -> bool {
    if is_ascii_char(c) {
        is_ascii_alnum(c)
    } else {
        unicode_alnum_ext(c)
    }
}

/// Unicode `Alphabetic`: exact on ASCII, named beyond it.
pub open spec fn is_alpha_char(c: char) -> bool {
    if is_ascii_char(c) {
        is_ascii_letter(c)
    } else {
        unicode_alpha_ext(c)
    }
}

/// Unicode lowercasing: the simple letter-by-letter mapping on all-ASCII
/// strings, named beyond them (Unicode lowercasing of one character may
/// yield several, so the general case is a function of the whole string).
pub open spec fn lower_of(s: Seq<char>) -> Seq<char> {
    if is_ascii_seq(s) {
        ascii_lower_seq(s)
    } else {
        unicode_lower_ext(s)
    }
}

/// Relies on `char::is_whitespace`: true exactly on Unicode `White_Space`
/// characters; within ASCII these are space, \t, \n, \u{b}, \u{c} and \r.
#[verifier::external_body]
pub(crate) fn char_is_whitespace(c: char) -> (r: bool)
    ensures
        r == is_ws_char(c),
        !is_ascii_char(c) ==> r == unicode_ws_ext(c),
{
    c.is_whitespace()
}

/// Relies on `char::is_alphanumeric`: true exactly on Unicode `Alphabetic`
/// and `Number` characters; within ASCII these are the letters and digits.
#[verifier::external_body]
pub(crate) fn char_is_alphanumeric(c: char) -> (r: bool)
    ensures
        r == is_alnum_char(c),
        !is_ascii_char(c) ==> r == unicode_alnum_ext(c),
{
    c.is_alphanumeric()
}

/// Relies on `char::is_alphabetic`: true exactly on Unicode `Alphabetic`
/// characters; within ASCII these are the letters.
#[verifier::external_body]
pub(crate) fn char_is_alphabetic(c: char) -> (r: bool)
    ensures
        r == is_alpha_char(c),
        !is_ascii_char(c) ==> r == unicode_alpha_ext(c),
{
    c.is_alphabetic()
}

/// Relies on `str::to_lowercase`: the result is a function of the characters
/// alone, and on ASCII input it is the simple letter-by-letter mapping.
#[verifier::external_body]
pub(crate) fn to_lowercase_string(s: &str) -> (r: String)
    ensures
        r@ == lower_of(s@),
        !is_ascii_seq(s@) ==> r@ == unicode_lower_ext(s@),
{
    s.to_lowercase()
}

/// Relies on `String: FromIterator<char>`: collecting characters yields a
/// string of exactly those characters in order.
#[verifier::external_body]
pub(crate) fn string_from_chars(v: &Vec<char>) -> (s: String)
    ensures
        s@ == v@,
{
    v.iter().collect()
}

/// Copy the characters of a string slice into a vector for indexed access.
pub(crate) fn str_to_chars(s: &str) -> (v: Vec<char>)
    ensures
        v@ == s@,
{
    broadcast use vstd::string::group_string_axioms;

    let mut v: Vec<char> = Vec::new();
    for c in it: s.chars()
        invariant
            it.seq() == s@,
            v@ == it.seq().take(it.index() as int),
    {
        v.push(c);
    }
    proof {
        assert(v@ =~= s@);
    }
    v
}

/// Character-by-character string equality.
pub(crate) fn str_eq(a: &str, b: &str) -> (r: bool)
    ensures
        r == (a@ == b@),
{
    let n = a.unicode_len();
    if n != b.unicode_len() {
        return false;
    }
    let mut i: usize = 0;
    while i < n
        invariant
            n == a@.len(),
            n == b@.len(),
            i <= n,
            forall|j: int| 0 <= j < i ==> a@[j] == b@[j],
        decreases n - i,
    {
        if a.get_char(i) != b.get_char(i) {
            return false;
        }
        i = i + 1;
    }
    proof {
        assert(a@ =~= b@);
    }
    true
}

} // verus!
