//! The tokenizer: a single left-to-right scan that turns markup text into a
//! flat stream of structural tokens. It is total: malformed input degrades
//! gracefully and never produces an error.
//!
//! `spec_tokenize_from` is the mathematical description of the scan; the
//! executable `tokenize` is proved to produce exactly that token sequence.

use vstd::prelude::*;
use crate::attrs::AttrMap;
use crate::text::{
    char_is_alphabetic, char_is_alphanumeric, char_is_whitespace, is_alnum_char,
    is_alpha_char, is_ws_char, lower_of, str_to_chars, string_from_chars,
    to_lowercase_string,
};

verus! {

/// A lexical unit of the markup language.
#[derive(Debug, PartialEq)]
pub enum Token {
    Doctype,
    OpenTag { name: String, attrs: AttrMap, self_closing: bool },
    CloseTag(String),
    Text(String),
}

/// The mathematical shape of a token: names and contents as character
/// sequences, attributes as a map.
pub ghost enum TokenModel {
    Doctype,
    OpenTag { name: Seq<char>, attrs: Map<Seq<char>, Seq<char>>, self_closing: bool },
    CloseTag(Seq<char>),
    Text(Seq<char>),
}

impl View for Token {
    type V = TokenModel;

    open spec fn view(&self) -> TokenModel {
        match self {
            Token::Doctype => TokenModel::Doctype,
            Token::OpenTag { name, attrs, self_closing } => TokenModel::OpenTag {
                name: name@,
                attrs: attrs@,
                self_closing: *self_closing,
            },
            Token::CloseTag(name) => TokenModel::CloseTag(name@),
            Token::Text(content) => TokenModel::Text(content@),
        }
    }
}

pub open spec fn token_views(ts: Seq<Token>) -> Seq<TokenModel> {
    Seq::new(ts.len(), |i: int| ts[i]@)
}

proof fn lemma_token_views_push(ts: Seq<Token>, t: Token)
    ensures
        token_views(ts.push(t)) == token_views(ts) + seq![t@],
{
    assert(token_views(ts.push(t)) =~= token_views(ts) + seq![t@]);
}

// ── Characters ───────────────────────────────────────────────────────────

/// Characters allowed in a tag name.
pub open spec fn is_name_char(c: char) -> bool {
    is_alnum_char(c) || c == '-' || c == '_' || c == ':'
}

/// Characters that end an attribute name.
pub open spec fn ends_attr_name(c: char) -> bool {
    is_ws_char(c) || c == '=' || c == '>' || c == '/'
}

// ── Scanners ─────────────────────────────────────────────────────────────
//
// Each scanner returns the index of the first character at or after `i`
// that fails its test (or the end of input). All return at least `i`.

pub open spec fn scan_name(s: Seq<char>, i: int) -> int
    decreases s.len() - i,
{
    if i >= s.len() {
        i
    } else if is_name_char(s[i]) {
        scan_name(s, i + 1)
    } else {
        i
    }
}

pub open spec fn scan_ws(s: Seq<char>, i: int) -> int
    decreases s.len() - i,
{
    if i >= s.len() {
        i
    } else if is_ws_char(s[i]) {
        scan_ws(s, i + 1)
    } else {
        i
    }
}

pub open spec fn scan_attr_name(s: Seq<char>, i: int) -> int
    decreases s.len() - i,
{
    if i >= s.len() {
        i
    } else if !ends_attr_name(s[i]) {
        scan_attr_name(s, i + 1)
    } else {
        i
    }
}

/// Unquoted attribute values run until whitespace or `>`.
pub open spec fn scan_unquoted(s: Seq<char>, i: int) -> int
    decreases s.len() - i,
{
    if i >= s.len() {
        i
    } else if !is_ws_char(s[i]) && s[i] != '>' {
        scan_unquoted(s, i + 1)
    } else {
        i
    }
}

/// Text runs until the next `<`.
pub open spec fn scan_text(s: Seq<char>, i: int) -> int
    decreases s.len() - i,
{
    if i >= s.len() {
        i
    } else if s[i] != '<' {
        scan_text(s, i + 1)
    } else {
        i
    }
}

/// Everything up to (excluding) the next occurrence of `stop`.
pub open spec fn scan_until(s: Seq<char>, i: int, stop: char) -> int
    decreases s.len() - i,
{
    if i >= s.len() {
        i
    } else if s[i] != stop {
        scan_until(s, i + 1, stop)
    } else {
        i
    }
}

proof fn lemma_scan_name_bounds(s: Seq<char>, i: int)
    ensures
        scan_name(s, i) >= i,
        i <= s.len() ==> scan_name(s, i) <= s.len(),
    decreases s.len() - i,
{
    if i < s.len() && is_name_char(s[i]) {
        lemma_scan_name_bounds(s, i + 1);
    }
}

proof fn lemma_scan_ws_bounds(s: Seq<char>, i: int)
    ensures
        scan_ws(s, i) >= i,
        i <= s.len() ==> scan_ws(s, i) <= s.len(),
    decreases s.len() - i,
{
    if i < s.len() && is_ws_char(s[i]) {
        lemma_scan_ws_bounds(s, i + 1);
    }
}

proof fn lemma_scan_attr_name_bounds(s: Seq<char>, i: int)
    ensures
        scan_attr_name(s, i) >= i,
        i <= s.len() ==> scan_attr_name(s, i) <= s.len(),
    decreases s.len() - i,
{
    if i < s.len() && !ends_attr_name(s[i]) {
        lemma_scan_attr_name_bounds(s, i + 1);
    }
}

proof fn lemma_scan_unquoted_bounds(s: Seq<char>, i: int)
    ensures
        scan_unquoted(s, i) >= i,
        i <= s.len() ==> scan_unquoted(s, i) <= s.len(),
    decreases s.len() - i,
{
    if i < s.len() && !is_ws_char(s[i]) && s[i] != '>' {
        lemma_scan_unquoted_bounds(s, i + 1);
    }
}

proof fn lemma_scan_text_bounds(s: Seq<char>, i: int)
    ensures
        scan_text(s, i) >= i,
        i <= s.len() ==> scan_text(s, i) <= s.len(),
    decreases s.len() - i,
{
    if i < s.len() && s[i] != '<' {
        lemma_scan_text_bounds(s, i + 1);
    }
}

proof fn lemma_scan_until_bounds(s: Seq<char>, i: int, stop: char)
    ensures
        scan_until(s, i, stop) >= i,
        i <= s.len() ==> scan_until(s, i, stop) <= s.len(),
    decreases s.len() - i,
{
    if i < s.len() && s[i] != stop {
        lemma_scan_until_bounds(s, i + 1, stop);
    }
}

// ── Attribute values and tag bodies ──────────────────────────────────────

/// An attribute value starting at `i`: quoted (single or double, consumed
/// verbatim up to the matching quote, which is consumed too) or unquoted
/// (up to whitespace or `>`). Returns the value and the next position.
pub open spec fn spec_attr_value(s: Seq<char>, i: int) -> (Seq<char>, int) {
    if i < s.len() && (s[i] == '"' || s[i] == '\'') {
        let e = scan_until(s, i + 1, s[i]);
        let j = if e < s.len() { e + 1 } else { e };
        (s.subrange(i + 1, e), j)
    } else {
        let e = scan_unquoted(s, i);
        (s.subrange(i, e), e)
    }
}

proof fn lemma_attr_value_bounds(s: Seq<char>, i: int)
    ensures
        spec_attr_value(s, i).1 >= i,
        i <= s.len() ==> spec_attr_value(s, i).1 <= s.len(),
{
    lemma_scan_until_bounds(s, i + 1, if i < s.len() { s[i] } else { ' ' });
    lemma_scan_unquoted_bounds(s, i);
    if i < s.len() && (s[i] == '"' || s[i] == '\'') {
        lemma_scan_until_bounds(s, i + 1, s[i]);
    }
}

/// The body of an open tag, from just after the tag name: repeatedly skip
/// whitespace, then stop at `>` or `/>`, or read one attribute. Attribute
/// names are lowercased; a later duplicate overrides an earlier one; an
/// attribute without `=` gets the empty value. Returns the final attribute
/// map, the self-closing flag, and the position after the consumed `>`.
pub open spec fn spec_tag_body(s: Seq<char>, i: int, attrs: Map<Seq<char>, Seq<char>>)
    -> (Map<Seq<char>, Seq<char>>, bool, int)
    decreases s.len() - i,
    via spec_tag_body_dec
{
    let w = scan_ws(s, i);
    if w >= s.len() {
        (attrs, false, if s.len() >= i { s.len() as int } else { i })
    } else if s[w] == '>' {
        (attrs, false, w + 1)
    } else if s[w] == '/' {
        if w + 1 < s.len() && s[w + 1] == '>' {
            (attrs, true, w + 2)
        } else {
            (attrs, false, w + 1)
        }
    } else {
        let e = scan_attr_name(s, w);
        if e == w {
            // Unexpected character: skip it.
            spec_tag_body(s, w + 1, attrs)
        } else {
            let name = lower_of(s.subrange(w, e));
            let w2 = scan_ws(s, e);
            if w2 < s.len() && s[w2] == '=' {
                let w3 = scan_ws(s, w2 + 1);
                let v = spec_attr_value(s, w3);
                spec_tag_body(s, v.1, attrs.insert(name, v.0))
            } else {
                spec_tag_body(s, w2, attrs.insert(name, Seq::empty()))
            }
        }
    }
}

#[via_fn]
proof fn spec_tag_body_dec(s: Seq<char>, i: int, attrs: Map<Seq<char>, Seq<char>>) {
    lemma_scan_ws_bounds(s, i);
    let w = scan_ws(s, i);
    lemma_scan_attr_name_bounds(s, w);
    let e = scan_attr_name(s, w);
    lemma_scan_ws_bounds(s, e);
    let w2 = scan_ws(s, e);
    lemma_scan_ws_bounds(s, w2 + 1);
    let w3 = scan_ws(s, w2 + 1);
    lemma_attr_value_bounds(s, w3);
}

proof fn lemma_tag_body_bounds(s: Seq<char>, i: int, attrs: Map<Seq<char>, Seq<char>>)
    ensures
        spec_tag_body(s, i, attrs).2 >= i,
        i <= s.len() ==> spec_tag_body(s, i, attrs).2 <= s.len(),
    decreases s.len() - i,
{
    lemma_scan_ws_bounds(s, i);
    let w = scan_ws(s, i);
    if w >= s.len() {
    } else if s[w] == '>' {
    } else if s[w] == '/' {
    } else {
        lemma_scan_attr_name_bounds(s, w);
        let e = scan_attr_name(s, w);
        if e == w {
            lemma_tag_body_bounds(s, w + 1, attrs);
        } else {
            let name = lower_of(s.subrange(w, e));
            lemma_scan_ws_bounds(s, e);
            let w2 = scan_ws(s, e);
            if w2 < s.len() && s[w2] == '=' {
                lemma_scan_ws_bounds(s, w2 + 1);
                let w3 = scan_ws(s, w2 + 1);
                lemma_attr_value_bounds(s, w3);
                let v = spec_attr_value(s, w3);
                lemma_tag_body_bounds(s, v.1, attrs.insert(name, v.0));
            } else {
                lemma_tag_body_bounds(s, w2, attrs.insert(name, Seq::empty()));
            }
        }
    }
}

// ── Whitespace collapsing ────────────────────────────────────────────────

/// Left fold of the collapsing scan: the collapsed text so far and whether
/// the previous character was whitespace (leading whitespace counts).
pub open spec fn collapse_core(s: Seq<char>) -> (Seq<char>, bool)
    decreases s.len(),
{
    if s.len() == 0 {
        (Seq::empty(), true)
    } else {
        let prev = collapse_core(s.drop_last());
        let c = s.last();
        if is_ws_char(c) {
            if prev.1 {
                prev
            } else {
                (prev.0.push(' '), true)
            }
        } else {
            (prev.0.push(c), false)
        }
    }
}

/// Internal whitespace runs collapsed to a single space, both ends trimmed.
pub open spec fn collapse_ws(s: Seq<char>) -> Seq<char> {
    let core = collapse_core(s).0;
    if core.len() > 0 && core.last() == ' ' {
        core.drop_last()
    } else {
        core
    }
}

/// Index just past the last non-whitespace character before `j`.
pub open spec fn scan_ws_back(s: Seq<char>, j: int) -> int
    decreases j,
{
    if j <= 0 {
        0
    } else if is_ws_char(s[j - 1]) {
        scan_ws_back(s, j - 1)
    } else {
        j
    }
}

/// Leading and trailing whitespace removed.
pub open spec fn trim_ws(s: Seq<char>) -> Seq<char> {
    let a = scan_ws(s, 0);
    let b = scan_ws_back(s, s.len() as int);
    if a <= b {
        s.subrange(a, b)
    } else {
        Seq::empty()
    }
}

/// Trim leading and trailing whitespace from a string.
pub(crate) fn trim_text(s: &str) -> (r: String)
    ensures
        r@ == trim_ws(s@),
{
    let cs = str_to_chars(s);
    let a = skip_whitespace(&cs, 0);
    let mut b = cs.len();
    while b > 0 && char_is_whitespace(cs[b - 1])
        invariant
            b <= cs.len(),
            scan_ws_back(cs@, cs@.len() as int) == scan_ws_back(cs@, b as int),
        decreases b,
    {
        b = b - 1;
    }
    let mut out: Vec<char> = Vec::new();
    let mut j = a;
    while j < b
        invariant
            a <= cs.len(),
            b <= cs.len(),
            a <= j,
            j <= b || j == a,
            out@ == cs@.subrange(a as int, j as int),
        decreases b - j,
    {
        out.push(cs[j]);
        j = j + 1;
        proof {
            assert(out@ =~= cs@.subrange(a as int, j as int));
        }
    }
    proof {
        if a < b {
        } else {
            assert(out@ =~= Seq::<char>::empty());
        }
    }
    string_from_chars(&out)
}

// ── The token stream ─────────────────────────────────────────────────────

/// The tokens produced from position `i` to the end of input.
pub open spec fn spec_tokenize_from(s: Seq<char>, i: int) -> Seq<TokenModel>
    decreases s.len() - i,
    via spec_tokenize_from_dec
{
    if i < 0 || i >= s.len() {
        Seq::empty()
    } else if s[i] == '<' {
        let a = i + 1;
        if a < s.len() && s[a] == '/' {
            // Close tag: name, then resynchronize at the next `>`.
            let e = scan_name(s, a + 1);
            let k = scan_until(s, e, '>');
            let j = if k < s.len() { k + 1 } else { k };
            let rest = spec_tokenize_from(s, j);
            if e > a + 1 {
                seq![TokenModel::CloseTag(lower_of(s.subrange(a + 1, e)))] + rest
            } else {
                rest
            }
        } else if a < s.len() && s[a] == '!' {
            // Doctype or comment: one Doctype token, content discarded.
            let k = scan_until(s, a + 1, '>');
            let j = if k < s.len() { k + 1 } else { k };
            seq![TokenModel::Doctype] + spec_tokenize_from(s, j)
        } else if a < s.len() && s[a] == '?' {
            // Processing instruction: skipped entirely.
            let k = scan_until(s, a, '>');
            let j = if k < s.len() { k + 1 } else { k };
            spec_tokenize_from(s, j)
        } else {
            let e = scan_name(s, a);
            if e == a || !is_alpha_char(s[a]) {
                // An empty tag name, or one that does not begin with a
                // letter (such as a digit): the whole construct is
                // discarded up to the next `>`.
                let k = scan_until(s, a, '>');
                let j = if k < s.len() { k + 1 } else { k };
                spec_tokenize_from(s, j)
            } else {
                let body = spec_tag_body(s, e, Map::empty());
                seq![
                    TokenModel::OpenTag {
                        name: lower_of(s.subrange(a, e)),
                        attrs: body.0,
                        self_closing: body.1,
                    },
                ] + spec_tokenize_from(s, body.2)
            }
        }
    } else {
        let e = scan_text(s, i);
        let t = collapse_ws(s.subrange(i, e));
        let rest = spec_tokenize_from(s, e);
        if t.len() > 0 {
            seq![TokenModel::Text(t)] + rest
        } else {
            rest
        }
    }
}

#[via_fn]
proof fn spec_tokenize_from_dec(s: Seq<char>, i: int) {
    if 0 <= i < s.len() {
        let a = i + 1;
        lemma_scan_name_bounds(s, a + 1);
        lemma_scan_until_bounds(s, scan_name(s, a + 1), '>');
        lemma_scan_until_bounds(s, a + 1, '>');
        lemma_scan_until_bounds(s, a, '>');
        lemma_scan_name_bounds(s, a);
        let e = scan_name(s, a);
        lemma_tag_body_bounds(s, e, Map::empty());
        lemma_scan_text_bounds(s, i + 1);
        if s[i] != '<' {
            assert(scan_text(s, i) == scan_text(s, i + 1));
        }
    }
}

// ── Executable scanners ──────────────────────────────────────────────────

fn skip_whitespace(cs: &Vec<char>, i: usize) -> (j: usize)
    requires
        i <= cs.len(),
    ensures
        j as int == scan_ws(cs@, i as int),
        i <= j <= cs.len(),
{
    let mut j = i;
    while j < cs.len() && char_is_whitespace(cs[j])
        invariant
            i <= j <= cs.len(),
            scan_ws(cs@, i as int) == scan_ws(cs@, j as int),
        decreases cs.len() - j,
    {
        j = j + 1;
    }
    j
}

fn skip_until(cs: &Vec<char>, i: usize, stop: char) -> (j: usize)
    requires
        i <= cs.len(),
    ensures
        j as int == scan_until(cs@, i as int, stop),
        i <= j <= cs.len(),
{
    let mut j = i;
    while j < cs.len() && cs[j] != stop
        invariant
            i <= j <= cs.len(),
            scan_until(cs@, i as int, stop) == scan_until(cs@, j as int, stop),
        decreases cs.len() - j,
    {
        j = j + 1;
    }
    j
}

fn read_name(cs: &Vec<char>, i: usize) -> (r: (String, usize))
    requires
        i <= cs.len(),
    ensures
        r.1 as int == scan_name(cs@, i as int),
        i <= r.1 <= cs.len(),
        r.0@ == cs@.subrange(i as int, r.1 as int),
{
    let mut j = i;
    let mut out: Vec<char> = Vec::new();
    while j < cs.len() && (char_is_alphanumeric(cs[j]) || cs[j] == '-' || cs[j] == '_'
        || cs[j] == ':')
        invariant
            i <= j <= cs.len(),
            scan_name(cs@, i as int) == scan_name(cs@, j as int),
            out@ == cs@.subrange(i as int, j as int),
        decreases cs.len() - j,
    {
        out.push(cs[j]);
        j = j + 1;
        proof {
            assert(out@ =~= cs@.subrange(i as int, j as int));
        }
    }
    (string_from_chars(&out), j)
}

fn read_attr_name(cs: &Vec<char>, i: usize) -> (r: (String, usize))
    requires
        i <= cs.len(),
    ensures
        r.1 as int == scan_attr_name(cs@, i as int),
        i <= r.1 <= cs.len(),
        r.0@ == cs@.subrange(i as int, r.1 as int),
{
    let mut j = i;
    let mut out: Vec<char> = Vec::new();
    while j < cs.len() && !(char_is_whitespace(cs[j]) || cs[j] == '=' || cs[j] == '>'
        || cs[j] == '/')
        invariant
            i <= j <= cs.len(),
            scan_attr_name(cs@, i as int) == scan_attr_name(cs@, j as int),
            out@ == cs@.subrange(i as int, j as int),
        decreases cs.len() - j,
    {
        out.push(cs[j]);
        j = j + 1;
        proof {
            assert(out@ =~= cs@.subrange(i as int, j as int));
        }
    }
    (string_from_chars(&out), j)
}

fn read_attr_value(cs: &Vec<char>, i: usize) -> (r: (String, usize))
    requires
        i <= cs.len(),
    ensures
        r.0@ == spec_attr_value(cs@, i as int).0,
        r.1 as int == spec_attr_value(cs@, i as int).1,
        i <= r.1 <= cs.len(),
{
    let mut out: Vec<char> = Vec::new();
    if i < cs.len() && (cs[i] == '"' || cs[i] == '\'') {
        let q = cs[i];
        let mut j = i + 1;
        while j < cs.len() && cs[j] != q
            invariant
                i + 1 <= j <= cs.len(),
                q == cs@[i as int],
                scan_until(cs@, i as int + 1, q) == scan_until(cs@, j as int, q),
                out@ == cs@.subrange(i as int + 1, j as int),
            decreases cs.len() - j,
        {
            out.push(cs[j]);
            j = j + 1;
            proof {
                assert(out@ =~= cs@.subrange(i as int + 1, j as int));
            }
        }
        let j2 = if j < cs.len() { j + 1 } else { j };
        (string_from_chars(&out), j2)
    } else {
        let mut j = i;
        while j < cs.len() && !(char_is_whitespace(cs[j]) || cs[j] == '>')
            invariant
                i <= j <= cs.len(),
                scan_unquoted(cs@, i as int) == scan_unquoted(cs@, j as int),
                out@ == cs@.subrange(i as int, j as int),
            decreases cs.len() - j,
        {
            out.push(cs[j]);
            j = j + 1;
            proof {
                assert(out@ =~= cs@.subrange(i as int, j as int));
            }
        }
        (string_from_chars(&out), j)
    }
}

fn read_text(cs: &Vec<char>, i: usize) -> (r: (Vec<char>, usize))
    requires
        i <= cs.len(),
    ensures
        r.1 as int == scan_text(cs@, i as int),
        i <= r.1 <= cs.len(),
        r.0@ == cs@.subrange(i as int, r.1 as int),
{
    let mut j = i;
    let mut out: Vec<char> = Vec::new();
    while j < cs.len() && cs[j] != '<'
        invariant
            i <= j <= cs.len(),
            scan_text(cs@, i as int) == scan_text(cs@, j as int),
            out@ == cs@.subrange(i as int, j as int),
        decreases cs.len() - j,
    {
        out.push(cs[j]);
        j = j + 1;
        proof {
            assert(out@ =~= cs@.subrange(i as int, j as int));
        }
    }
    (out, j)
}

/// Collapse internal whitespace runs to a single space and trim both ends.
fn collapse_whitespace(s: &Vec<char>) -> (r: Vec<char>)
    ensures
        r@ == collapse_ws(s@),
{
    let mut out: Vec<char> = Vec::new();
    let mut prev_ws = true;  // trim leading whitespace
    let mut j: usize = 0;
    while j < s.len()
        invariant
            j <= s.len(),
            (out@, prev_ws) == collapse_core(s@.take(j as int)),
        decreases s.len() - j,
    {
        let ghost before = s@.take(j as int);
        let c = s[j];
        if char_is_whitespace(c) {
            if !prev_ws {
                out.push(' ');
                prev_ws = true;
            }
        } else {
            out.push(c);
            prev_ws = false;
        }
        j = j + 1;
        proof {
            assert(s@.take(j as int).drop_last() =~= before);
            assert(s@.take(j as int).last() == s@[j - 1]);
        }
    }
    proof {
        assert(s@.take(s@.len() as int) =~= s@);
    }
    if out.len() > 0 && out[out.len() - 1] == ' ' {
        out.pop();
        proof {
            assert(out@ =~= collapse_core(s@).0.drop_last());
        }
    }
    out
}

/// Parse tag attributes and consume through the closing `>`.
/// Returns the attribute map, whether the tag is self-closing (`/>`), and
/// the next scan position.
fn parse_tag_body(cs: &Vec<char>, i: usize) -> (r: (AttrMap, bool, usize))
    requires
        i <= cs.len(),
    ensures
        r.0@ == spec_tag_body(cs@, i as int, Map::empty()).0,
        r.1 == spec_tag_body(cs@, i as int, Map::empty()).1,
        r.2 as int == spec_tag_body(cs@, i as int, Map::empty()).2,
        i <= r.2 <= cs.len(),
{
    let ghost m = spec_tag_body(cs@, i as int, Map::<Seq<char>, Seq<char>>::empty());
    let mut attrs = AttrMap::new();
    let mut j = i;
    let mut self_closing = false;
    loop
        invariant_except_break
            i <= j <= cs.len(),
            !self_closing,
            m == spec_tag_body(cs@, j as int, attrs@),
        ensures
            attrs@ == m.0,
            self_closing == m.1,
            j as int == m.2,
            i <= j <= cs.len(),
        decreases cs.len() - j,
    {
        let w = skip_whitespace(cs, j);
        if w >= cs.len() {
            j = cs.len();
            break;
        }
        let c = cs[w];
        if c == '>' {
            j = w + 1;
            break;
        } else if c == '/' {
            if w + 1 < cs.len() && cs[w + 1] == '>' {
                self_closing = true;
                j = w + 2;
            } else {
                j = w + 1;
            }
            break;
        } else {
            let (raw, e) = read_attr_name(cs, w);
            if e == w {
                // Skip the unexpected character.
                j = w + 1;
            } else {
                let name = to_lowercase_string(raw.as_str());
                let w2 = skip_whitespace(cs, e);
                if w2 < cs.len() && cs[w2] == '=' {
                    let w3 = skip_whitespace(cs, w2 + 1);
                    let (value, vj) = read_attr_value(cs, w3);
                    attrs.insert(name, value);
                    j = vj;
                } else {
                    attrs.insert(name, String::new());
                    j = w2;
                }
            }
        }
    }
    (attrs, self_closing, j)
}

/// Tokenize a whole document: a single left-to-right scan with one
/// character of lookahead. Total; malformed constructs are skipped or
/// resynchronized at the next `>`, never an error.
pub fn tokenize(input: &str) -> (tokens: Vec<Token>)
    ensures
        token_views(tokens@) == spec_tokenize_from(input@, 0),
{
    let cs = str_to_chars(input);
    let n = cs.len();
    let mut tokens: Vec<Token> = Vec::new();
    let mut i: usize = 0;
    proof {
        assert(token_views(tokens@) =~= Seq::<TokenModel>::empty());
        assert(token_views(tokens@) + spec_tokenize_from(cs@, 0)
            =~= spec_tokenize_from(cs@, 0));
    }
    while i < n
        invariant
            cs@ == input@,
            n == cs.len(),
            i <= n,
            token_views(tokens@) + spec_tokenize_from(cs@, i as int)
                == spec_tokenize_from(cs@, 0),
        decreases n - i,
    {
        let ghost prev = tokens@;
        let ghost i0 = i as int;
        if cs[i] == '<' {
            let a = i + 1;
            if a < n && cs[a] == '/' {
                let (raw, e) = read_name(&cs, a + 1);
                let k = skip_until(&cs, e, '>');
                let j = if k < n { k + 1 } else { k };
                if e > a + 1 {
                    let name = to_lowercase_string(raw.as_str());
                    tokens.push(Token::CloseTag(name));
                    proof {
                        lemma_token_views_push(prev, Token::CloseTag(name));
                        assert((token_views(prev) + seq![TokenModel::CloseTag(name@)])
                            + spec_tokenize_from(cs@, j as int)
                            =~= token_views(prev) + (seq![TokenModel::CloseTag(name@)]
                                + spec_tokenize_from(cs@, j as int)));
                    }
                }
                i = j;
            } else if a < n && cs[a] == '!' {
                let k = skip_until(&cs, a + 1, '>');
                let j = if k < n { k + 1 } else { k };
                tokens.push(Token::Doctype);
                proof {
                    lemma_token_views_push(prev, Token::Doctype);
                    assert((token_views(prev) + seq![TokenModel::Doctype])
                        + spec_tokenize_from(cs@, j as int)
                        =~= token_views(prev) + (seq![TokenModel::Doctype]
                            + spec_tokenize_from(cs@, j as int)));
                }
                i = j;
            } else if a < n && cs[a] == '?' {
                let k = skip_until(&cs, a, '>');
                i = if k < n { k + 1 } else { k };
            } else {
                let (raw, e) = read_name(&cs, a);
                if e == a || !char_is_alphabetic(cs[a]) {
                    let k = skip_until(&cs, a, '>');
                    i = if k < n { k + 1 } else { k };
                } else {
                    let name = to_lowercase_string(raw.as_str());
                    let (attrs, self_closing, j) = parse_tag_body(&cs, e);
                    let ghost tm = TokenModel::OpenTag {
                        name: name@,
                        attrs: attrs@,
                        self_closing,
                    };
                    tokens.push(Token::OpenTag { name, attrs, self_closing });
                    proof {
                        lemma_token_views_push(
                            prev,
                            Token::OpenTag { name, attrs, self_closing },
                        );
                        assert((token_views(prev) + seq![tm])
                            + spec_tokenize_from(cs@, j as int)
                            =~= token_views(prev) + (seq![tm]
                                + spec_tokenize_from(cs@, j as int)));
                    }
                    i = j;
                }
            }
        } else {
            let (raw, e) = read_text(&cs, i);
            let collapsed = collapse_whitespace(&raw);
            proof {
                lemma_scan_text_bounds(cs@, i0 + 1);
                assert(scan_text(cs@, i0) == scan_text(cs@, i0 + 1));
            }
            if collapsed.len() > 0 {
                let content = string_from_chars(&collapsed);
                let ghost tm = TokenModel::Text(content@);
                tokens.push(Token::Text(content));
                proof {
                    lemma_token_views_push(prev, Token::Text(content));
                    assert((token_views(prev) + seq![tm])
                        + spec_tokenize_from(cs@, e as int)
                        =~= token_views(prev) + (seq![tm]
                            + spec_tokenize_from(cs@, e as int)));
                }
            }
            i = e;
        }
    }
    proof {
        assert(token_views(tokens@) + spec_tokenize_from(cs@, i as int)
            =~= token_views(tokens@));
    }
    tokens
}

} // verus!
