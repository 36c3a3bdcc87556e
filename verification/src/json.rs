//! Byte-level JSON primitives: whitespace, literal tokens, strings with
//! escape sequences, escape-free strings, and decimal-number validation.
//!
//! Every construct has a spec-level definition (the accepted grammar) and
//! an executable twin proved to return exactly what the spec function says.
//! Parsers take a byte slice and a start index and return the parsed value
//! together with the index of the first byte after it.

use vstd::prelude::*;

verus! {

pub const QUOTE: u8 = 0x22;
pub const BACKSLASH: u8 = 0x5c;
pub const LBRACE: u8 = 0x7b;
pub const RBRACE: u8 = 0x7d;
pub const LBRACK: u8 = 0x5b;
pub const RBRACK: u8 = 0x5d;
pub const COLON: u8 = 0x3a;
pub const COMMA: u8 = 0x2c;
pub const MINUS: u8 = 0x2d;
pub const PLUS: u8 = 0x2b;
pub const DOT: u8 = 0x2e;

// ---------------------------------------------------------------------------
// Whitespace
// ---------------------------------------------------------------------------

pub open spec fn is_ws(b: u8) -> bool {
    b == 0x20 || b == 0x09 || b == 0x0a || b == 0x0d
}

/// Index of the first non-whitespace byte at or after `i`.
pub open spec fn spec_skip_ws(s: Seq<u8>, i: int) -> int
    decreases s.len() - i,
{
    if 0 <= i < s.len() && is_ws(s[i]) {
        spec_skip_ws(s, i + 1)
    } else {
        i
    }
}

pub proof fn lemma_skip_ws_bounds(s: Seq<u8>, i: int)
    requires
        0 <= i <= s.len(),
    ensures
        i <= spec_skip_ws(s, i) <= s.len(),
    decreases s.len() - i,
{
    if i < s.len() && is_ws(s[i]) {
        lemma_skip_ws_bounds(s, i + 1);
    }
}

pub fn skip_ws(s: &[u8], i: usize) -> (r: usize)
    requires
        i <= s@.len(),
    ensures
        r == spec_skip_ws(s@, i as int),
        i <= r <= s@.len(),
    decreases s@.len() - i,
{
    if i < s.len() && (s[i] == 0x20 || s[i] == 0x09 || s[i] == 0x0a || s[i] == 0x0d) {
        skip_ws(s, i + 1)
    } else {
        i
    }
}

// ---------------------------------------------------------------------------
// Exact tokens, with optional leading whitespace
// ---------------------------------------------------------------------------

/// Expect the exact bytes `tok` after optional whitespace.
pub open spec fn spec_expect(s: Seq<u8>, i: int, tok: Seq<u8>) -> Option<int> {
    let j = spec_skip_ws(s, i);
    if j + tok.len() <= s.len() && s.subrange(j, j + tok.len() as int) == tok {
        Some(j + tok.len() as int)
    } else {
        None
    }
}

pub proof fn lemma_expect_bounds(s: Seq<u8>, i: int, tok: Seq<u8>)
    requires
        0 <= i <= s.len(),
    ensures
        spec_expect(s, i, tok) matches Some(j) ==> i + tok.len() <= j <= s.len(),
{
    lemma_skip_ws_bounds(s, i);
}

pub fn expect(s: &[u8], i: usize, tok: &[u8]) -> (r: Option<usize>)
    requires
        i <= s@.len(),
    ensures
        match r {
            Some(j) => spec_expect(s@, i as int, tok@) == Some(j as int) && i <= j <= s@.len(),
            None => spec_expect(s@, i as int, tok@) is None,
        },
{
    let j = skip_ws(s, i);
    if s.len() - j < tok.len() {
        return None;
    }
    let mut k: usize = 0;
    let mut m: usize = j;
    while k < tok.len()
        invariant
            i <= j <= s@.len(),
            j == spec_skip_ws(s@, i as int),
            j + tok@.len() <= s@.len(),
            k <= tok@.len(),
            m == j + k,
            s@.subrange(j as int, j + k) == tok@.subrange(0, k as int),
        decreases tok@.len() - k,
    {
        if s[m] != tok[k] {
            proof {
                assert(s@.subrange(j as int, j + tok@.len())[k as int] == s@[j + k]);
                assert(s@.subrange(j as int, j + tok@.len()) != tok@);
            }
            return None;
        }
        proof {
            assert(s@.subrange(j as int, j + k + 1) =~= s@.subrange(j as int, j + k).push(
                s@[j + k],
            ));
            assert(tok@.subrange(0, k as int + 1) =~= tok@.subrange(0, k as int).push(
                tok@[k as int],
            ));
        }
        k += 1;
        m += 1;
    }
    proof {
        assert(s@.subrange(j as int, j + tok@.len()) =~= tok@);
    }
    Some(j + tok.len())
}

/// A token made of a whole serialized piece sits right after `pre`: the
/// parser consumes exactly that piece.
pub proof fn lemma_expect_concat(pre: Seq<u8>, tok: Seq<u8>, tail: Seq<u8>)
    requires
        tok.len() > 0,
        !is_ws(tok[0]),
    ensures
        spec_expect(pre + tok + tail, pre.len() as int, tok) == Some(pre.len() + tok.len() as int),
{
    let s = pre + tok + tail;
    assert(s[pre.len() as int] == tok[0]);
    assert(spec_skip_ws(s, pre.len() as int) == pre.len() as int);
    assert(s.subrange(pre.len() as int, pre.len() + tok.len() as int) =~= tok);
}

/// Expect one exact byte after optional whitespace.
pub open spec fn spec_expect_byte(s: Seq<u8>, i: int, b: u8) -> Option<int> {
    let j = spec_skip_ws(s, i);
    if j < s.len() && s[j] == b {
        Some(j + 1)
    } else {
        None
    }
}

pub proof fn lemma_expect_byte_bounds(s: Seq<u8>, i: int, b: u8)
    requires
        0 <= i <= s.len(),
    ensures
        spec_expect_byte(s, i, b) matches Some(j) ==> i < j <= s.len(),
{
    lemma_skip_ws_bounds(s, i);
}

pub fn expect_byte(s: &[u8], i: usize, b: u8) -> (r: Option<usize>)
    requires
        i <= s@.len(),
    ensures
        match r {
            Some(j) => spec_expect_byte(s@, i as int, b) == Some(j as int) && i < j <= s@.len(),
            None => spec_expect_byte(s@, i as int, b) is None,
        },
{
    let j = skip_ws(s, i);
    if j < s.len() && s[j] == b {
        Some(j + 1)
    } else {
        None
    }
}

pub proof fn lemma_expect_byte_concat(pre: Seq<u8>, b: u8, tail: Seq<u8>)
    requires
        !is_ws(b),
    ensures
        spec_expect_byte(pre + seq![b] + tail, pre.len() as int, b) == Some(pre.len() as int + 1),
{
    let s = pre + seq![b] + tail;
    assert(s[pre.len() as int] == b);
    assert(spec_skip_ws(s, pre.len() as int) == pre.len() as int);
}

// ---------------------------------------------------------------------------
// JSON strings with escape sequences
// ---------------------------------------------------------------------------

/// The byte denoted by a single-character escape, if the escape is accepted.
/// Unicode escapes (`\u`) are not part of the accepted grammar.
pub open spec fn spec_unescape(b: u8) -> Option<u8> {
    if b == QUOTE {
        Some(QUOTE)
    } else if b == BACKSLASH {
        Some(BACKSLASH)
    } else if b == 0x2f {
        Some(0x2f)
    } else if b == 0x62 {
        Some(0x08)
    } else if b == 0x66 {
        Some(0x0c)
    } else if b == 0x6e {
        Some(0x0a)
    } else if b == 0x72 {
        Some(0x0d)
    } else if b == 0x74 {
        Some(0x09)
    } else {
        None
    }
}

pub fn unescape(b: u8) -> (r: Option<u8>)
    ensures
        r == spec_unescape(b),
{
    if b == QUOTE {
        Some(QUOTE)
    } else if b == BACKSLASH {
        Some(BACKSLASH)
    } else if b == 0x2f {
        Some(0x2f)
    } else if b == 0x62 {
        Some(0x08)
    } else if b == 0x66 {
        Some(0x0c)
    } else if b == 0x6e {
        Some(0x0a)
    } else if b == 0x72 {
        Some(0x0d)
    } else if b == 0x74 {
        Some(0x09)
    } else {
        None
    }
}

/// Body of a string literal, after the opening quote: bytes until the
/// closing quote, decoding escapes, rejecting unescaped control bytes.
pub open spec fn spec_parse_string_body(s: Seq<u8>, i: int) -> Option<(Seq<u8>, int)>
    decreases s.len() - i,
{
    if i < 0 || i >= s.len() {
        None
    } else if s[i] == QUOTE {
        Some((Seq::empty(), i + 1))
    } else if s[i] == BACKSLASH {
        if i + 1 >= s.len() {
            None
        } else {
            match spec_unescape(s[i + 1]) {
                Some(c) => match spec_parse_string_body(s, i + 2) {
                    Some(p) => Some((seq![c] + p.0, p.1)),
                    None => None,
                },
                None => None,
            }
        }
    } else if s[i] < 0x20 {
        None
    } else {
        match spec_parse_string_body(s, i + 1) {
            Some(p) => Some((seq![s[i]] + p.0, p.1)),
            None => None,
        }
    }
}

pub proof fn lemma_string_body_bounds(s: Seq<u8>, i: int)
    requires
        0 <= i <= s.len(),
    ensures
        spec_parse_string_body(s, i) matches Some(p) ==> i < p.1 <= s.len(),
    decreases s.len() - i,
{
    if i < s.len() && s[i] == BACKSLASH && i + 1 < s.len() {
        lemma_string_body_bounds(s, i + 2);
    } else if i < s.len() {
        lemma_string_body_bounds(s, i + 1);
    }
}

pub fn parse_string_body(s: &[u8], i: usize) -> (r: Option<(Vec<u8>, usize)>)
    requires
        i <= s@.len(),
    ensures
        match r {
            Some(p) => spec_parse_string_body(s@, i as int) == Some((p.0@, p.1 as int)) && i < p.1
                <= s@.len(),
            None => spec_parse_string_body(s@, i as int) is None,
        },
    decreases s@.len() - i,
{
    if i >= s.len() {
        return None;
    }
    let b = s[i];
    if b == QUOTE {
        return Some((Vec::new(), i + 1));
    }
    if b == BACKSLASH {
        if i + 1 >= s.len() {
            return None;
        }
        match unescape(s[i + 1]) {
            None => None,
            Some(c) => match parse_string_body(s, i + 2) {
                None => None,
                Some((rest, j)) => {
                    let mut v = rest;
                    v.insert(0, c);
                    proof {
                        assert(v@ =~= seq![c] + v@.subrange(1, v@.len() as int));
                    }
                    Some((v, j))
                },
            },
        }
    } else if b < 0x20 {
        None
    } else {
        match parse_string_body(s, i + 1) {
            None => None,
            Some((rest, j)) => {
                let mut v = rest;
                v.insert(0, b);
                proof {
                    assert(v@ =~= seq![b] + v@.subrange(1, v@.len() as int));
                }
                Some((v, j))
            },
        }
    }
}

/// A full string literal: optional whitespace, opening quote, body.
pub open spec fn spec_parse_string(s: Seq<u8>, i: int) -> Option<(Seq<u8>, int)> {
    let j = spec_skip_ws(s, i);
    if j < s.len() && s[j] == QUOTE {
        spec_parse_string_body(s, j + 1)
    } else {
        None
    }
}

pub proof fn lemma_parse_string_bounds(s: Seq<u8>, i: int)
    requires
        0 <= i <= s.len(),
    ensures
        spec_parse_string(s, i) matches Some(p) ==> i < p.1 <= s.len(),
{
    lemma_skip_ws_bounds(s, i);
    let j = spec_skip_ws(s, i);
    if j < s.len() && s[j] == QUOTE {
        lemma_string_body_bounds(s, j + 1);
    }
}

pub fn parse_string(s: &[u8], i: usize) -> (r: Option<(Vec<u8>, usize)>)
    requires
        i <= s@.len(),
    ensures
        match r {
            Some(p) => spec_parse_string(s@, i as int) == Some((p.0@, p.1 as int)) && i < p.1
                <= s@.len(),
            None => spec_parse_string(s@, i as int) is None,
        },
{
    let j = skip_ws(s, i);
    if j < s.len() && s[j] == QUOTE {
        parse_string_body(s, j + 1)
    } else {
        None
    }
}

// ---------------------------------------------------------------------------
// Escape-free strings
// ---------------------------------------------------------------------------

/// A byte that may stand unescaped in a string body and is reproduced
/// verbatim when the string is serialized again.
pub open spec fn is_plain(b: u8) -> bool {
    b >= 0x20 && b != QUOTE && b != BACKSLASH
}

/// Body of a string literal in which no escape is accepted: exactly the
/// plain bytes up to the closing quote.
pub open spec fn spec_parse_plain_body(s: Seq<u8>, i: int) -> Option<(Seq<u8>, int)>
    decreases s.len() - i,
{
    if i < 0 || i >= s.len() {
        None
    } else if s[i] == QUOTE {
        Some((Seq::empty(), i + 1))
    } else if is_plain(s[i]) {
        match spec_parse_plain_body(s, i + 1) {
            Some(p) => Some((seq![s[i]] + p.0, p.1)),
            None => None,
        }
    } else {
        None
    }
}

pub proof fn lemma_plain_body_bounds(s: Seq<u8>, i: int)
    requires
        0 <= i <= s.len(),
    ensures
        spec_parse_plain_body(s, i) matches Some(p) ==> i < p.1 <= s.len(),
    decreases s.len() - i,
{
    if i < s.len() && s[i] != QUOTE && is_plain(s[i]) {
        lemma_plain_body_bounds(s, i + 1);
    }
}

/// Whatever an escape-free body parses to consists of plain bytes only.
pub proof fn lemma_plain_body_plain(s: Seq<u8>, i: int)
    requires
        0 <= i <= s.len(),
    ensures
        spec_parse_plain_body(s, i) matches Some(p) ==> forall|k: int|
            0 <= k < p.0.len() ==> is_plain(#[trigger] p.0[k]),
    decreases s.len() - i,
{
    if i < s.len() && s[i] != QUOTE && is_plain(s[i]) {
        lemma_plain_body_plain(s, i + 1);
    }
}

/// Parsing a serialized plain body consumes exactly the content and its
/// closing quote.
pub proof fn lemma_plain_body_concat(pre: Seq<u8>, content: Seq<u8>, tail: Seq<u8>)
    requires
        forall|k: int| 0 <= k < content.len() ==> is_plain(#[trigger] content[k]),
    ensures
        spec_parse_plain_body(pre + content + seq![QUOTE] + tail, pre.len() as int) == Some(
            (content, pre.len() as int + content.len() + 1),
        ),
    decreases content.len(),
{
    let s = pre + content + seq![QUOTE] + tail;
    if content.len() == 0 {
        assert(s[pre.len() as int] == QUOTE);
    } else {
        let pre2 = pre + seq![content[0]];
        assert(pre2 + content.drop_first() + seq![QUOTE] + tail =~= s);
        lemma_plain_body_concat(pre2, content.drop_first(), tail);
        assert(s[pre.len() as int] == content[0]);
        assert(seq![content[0]] + content.drop_first() =~= content);
    }
}

pub fn parse_plain_body(s: &[u8], i: usize) -> (r: Option<(Vec<u8>, usize)>)
    requires
        i <= s@.len(),
    ensures
        match r {
            Some(p) => spec_parse_plain_body(s@, i as int) == Some((p.0@, p.1 as int)) && i < p.1
                <= s@.len(),
            None => spec_parse_plain_body(s@, i as int) is None,
        },
    decreases s@.len() - i,
{
    if i >= s.len() {
        return None;
    }
    let b = s[i];
    if b == QUOTE {
        return Some((Vec::new(), i + 1));
    }
    if b >= 0x20 && b != QUOTE && b != BACKSLASH {
        match parse_plain_body(s, i + 1) {
            None => None,
            Some((rest, j)) => {
                let mut v = rest;
                v.insert(0, b);
                proof {
                    assert(v@ =~= seq![b] + v@.subrange(1, v@.len() as int));
                }
                Some((v, j))
            },
        }
    } else {
        None
    }
}

/// A full escape-free string literal.
pub open spec fn spec_parse_plain_string(s: Seq<u8>, i: int) -> Option<(Seq<u8>, int)> {
    let j = spec_skip_ws(s, i);
    if j < s.len() && s[j] == QUOTE {
        spec_parse_plain_body(s, j + 1)
    } else {
        None
    }
}

pub proof fn lemma_parse_plain_string_bounds(s: Seq<u8>, i: int)
    requires
        0 <= i <= s.len(),
    ensures
        spec_parse_plain_string(s, i) matches Some(p) ==> i < p.1 <= s.len(),
{
    lemma_skip_ws_bounds(s, i);
    let j = spec_skip_ws(s, i);
    if j < s.len() && s[j] == QUOTE {
        lemma_plain_body_bounds(s, j + 1);
    }
}

pub fn parse_plain_string(s: &[u8], i: usize) -> (r: Option<(Vec<u8>, usize)>)
    requires
        i <= s@.len(),
    ensures
        match r {
            Some(p) => spec_parse_plain_string(s@, i as int) == Some((p.0@, p.1 as int)) && i < p.1
                <= s@.len(),
            None => spec_parse_plain_string(s@, i as int) is None,
        },
{
    let j = skip_ws(s, i);
    if j < s.len() && s[j] == QUOTE {
        parse_plain_body(s, j + 1)
    } else {
        None
    }
}

// ---------------------------------------------------------------------------
// Decimal numbers
// ---------------------------------------------------------------------------

pub open spec fn is_digit(b: u8) -> bool {
    0x30 <= b <= 0x39
}

/// Index of the first non-digit byte at or after `i`.
pub open spec fn spec_skip_digits(s: Seq<u8>, i: int) -> int
    decreases s.len() - i,
{
    if 0 <= i < s.len() && is_digit(s[i]) {
        spec_skip_digits(s, i + 1)
    } else {
        i
    }
}

pub proof fn lemma_skip_digits_bounds(s: Seq<u8>, i: int)
    requires
        0 <= i <= s.len(),
    ensures
        i <= spec_skip_digits(s, i) <= s.len(),
        forall|k: int| i <= k < spec_skip_digits(s, i) ==> is_digit(#[trigger] s[k]),
    decreases s.len() - i,
{
    if i < s.len() && is_digit(s[i]) {
        lemma_skip_digits_bounds(s, i + 1);
    }
}

pub fn skip_digits(s: &[u8], i: usize) -> (r: usize)
    requires
        i <= s@.len(),
    ensures
        r == spec_skip_digits(s@, i as int),
        i <= r <= s@.len(),
    decreases s@.len() - i,
{
    if i < s.len() && 0x30 <= s[i] && s[i] <= 0x39 {
        skip_digits(s, i + 1)
    } else {
        i
    }
}

/// An exponent part filling the rest of the input: `e` or `E`, an optional
/// sign, and at least one digit.
pub open spec fn spec_exponent_to_end(s: Seq<u8>, i: int) -> bool {
    if 0 <= i < s.len() && (s[i] == 0x65 || s[i] == 0x45) {
        let j = if i + 1 < s.len() && (s[i + 1] == PLUS || s[i + 1] == MINUS) {
            i + 2
        } else {
            i + 1
        };
        spec_skip_digits(s, j) > j && spec_skip_digits(s, j) == s.len()
    } else {
        false
    }
}

/// What may follow the integer part: nothing, a fraction (with an optional
/// exponent after it), or an exponent.
pub open spec fn spec_after_int(s: Seq<u8>, i: int) -> bool {
    if i == s.len() {
        true
    } else if 0 <= i < s.len() && s[i] == DOT {
        let j = spec_skip_digits(s, i + 1);
        j > i + 1 && (j == s.len() || spec_exponent_to_end(s, j))
    } else {
        spec_exponent_to_end(s, i)
    }
}

/// A decimal number: an optional minus sign, at least one digit, an
/// optional fraction, an optional exponent, and nothing else.
pub open spec fn spec_is_decimal(s: Seq<u8>) -> bool {
    let i0: int = if s.len() > 0 && s[0] == MINUS {
        1
    } else {
        0
    };
    let i1 = spec_skip_digits(s, i0);
    i1 > i0 && spec_after_int(s, i1)
}

fn exponent_to_end(s: &[u8], i: usize) -> (r: bool)
    requires
        i <= s@.len(),
    ensures
        r == spec_exponent_to_end(s@, i as int),
{
    if i < s.len() && (s[i] == 0x65 || s[i] == 0x45) {
        let j = if i + 1 < s.len() && (s[i + 1] == PLUS || s[i + 1] == MINUS) {
            i + 2
        } else {
            i + 1
        };
        let k = skip_digits(s, j);
        k > j && k == s.len()
    } else {
        false
    }
}

fn after_int(s: &[u8], i: usize) -> (r: bool)
    requires
        i <= s@.len(),
    ensures
        r == spec_after_int(s@, i as int),
{
    if i == s.len() {
        true
    } else if s[i] == DOT {
        let j = skip_digits(s, i + 1);
        j > i + 1 && (j == s.len() || exponent_to_end(s, j))
    } else {
        exponent_to_end(s, i)
    }
}

/// Whether `s` is a decimal number in the accepted grammar.
pub fn is_decimal(s: &[u8]) -> (r: bool)
    ensures
        r == spec_is_decimal(s@),
{
    let i0: usize = if s.len() > 0 && s[0] == MINUS {
        1
    } else {
        0
    };
    let i1 = skip_digits(s, i0);
    i1 > i0 && after_int(s, i1)
}

/// Every byte of a decimal number is plain and not whitespace, so a
/// decimal survives a serialize-then-parse round trip unchanged.
pub proof fn lemma_decimal_plain(s: Seq<u8>)
    requires
        spec_is_decimal(s),
    ensures
        forall|k: int| 0 <= k < s.len() ==> is_plain(#[trigger] s[k]) && !is_ws(s[k]),
{
    let i0: int = if s.len() > 0 && s[0] == MINUS {
        1
    } else {
        0
    };
    let i1 = spec_skip_digits(s, i0);
    lemma_skip_digits_bounds(s, i0);
    if i1 == s.len() {
    } else if s[i1] == DOT {
        let j = spec_skip_digits(s, i1 + 1);
        lemma_skip_digits_bounds(s, i1 + 1);
        if j < s.len() {
            lemma_exponent_plain(s, j);
        }
    } else {
        lemma_exponent_plain(s, i1);
    }
}

proof fn lemma_exponent_plain(s: Seq<u8>, i: int)
    requires
        0 <= i < s.len(),
        spec_exponent_to_end(s, i),
    ensures
        forall|k: int| i <= k < s.len() ==> is_plain(#[trigger] s[k]) && !is_ws(s[k]),
{
    let j = if i + 1 < s.len() && (s[i + 1] == PLUS || s[i + 1] == MINUS) {
        i + 2
    } else {
        i + 1
    };
    lemma_skip_digits_bounds(s, j);
}

// ---------------------------------------------------------------------------
// Skipping a value without decoding it
// ---------------------------------------------------------------------------
//
// An object may carry members this pipeline does not read; they are
// skipped, not rejected. Skipping validates the shape of the value but
// keeps nothing of it, so string bodies are only scanned here; unicode
// escapes, which the decoding parser does not accept, are tolerated.

pub open spec fn is_hex_digit(b: u8) -> bool {
    (0x30 <= b <= 0x39) || (0x41 <= b <= 0x46) || (0x61 <= b <= 0x66)
}

/// Body of a string literal, scanned without decoding.
pub open spec fn spec_skip_string_body(s: Seq<u8>, i: int) -> Option<int>
    decreases s.len() - i,
{
    if i < 0 || i >= s.len() {
        None
    } else if s[i] == QUOTE {
        Some(i + 1)
    } else if s[i] == BACKSLASH {
        if i + 1 >= s.len() {
            None
        } else if s[i + 1] == 0x75 {
            if i + 5 < s.len() && is_hex_digit(s[i + 2]) && is_hex_digit(s[i + 3]) && is_hex_digit(
                s[i + 4],
            ) && is_hex_digit(s[i + 5]) {
                spec_skip_string_body(s, i + 6)
            } else {
                None
            }
        } else if spec_unescape(s[i + 1]) is Some {
            spec_skip_string_body(s, i + 2)
        } else {
            None
        }
    } else if s[i] < 0x20 {
        None
    } else {
        spec_skip_string_body(s, i + 1)
    }
}

fn skip_string_body(s: &[u8], i: usize) -> (r: Option<usize>)
    requires
        i <= s@.len(),
    ensures
        match r {
            Some(l) => spec_skip_string_body(s@, i as int) == Some(l as int) && i < l <= s@.len(),
            None => spec_skip_string_body(s@, i as int) is None,
        },
    decreases s@.len() - i,
{
    if i >= s.len() {
        return None;
    }
    let b = s[i];
    if b == QUOTE {
        return Some(i + 1);
    }
    if b == BACKSLASH {
        if i + 1 >= s.len() {
            return None;
        }
        let e = s[i + 1];
        if e == 0x75 {
            if s.len() - i > 5 && hex_digit(s[i + 2]) && hex_digit(s[i + 3]) && hex_digit(
                s[i + 4],
            ) && hex_digit(s[i + 5]) {
                skip_string_body(s, i + 6)
            } else {
                None
            }
        } else if unescape(e).is_some() {
            skip_string_body(s, i + 2)
        } else {
            None
        }
    } else if b < 0x20 {
        None
    } else {
        skip_string_body(s, i + 1)
    }
}

fn hex_digit(b: u8) -> (r: bool)
    ensures
        r == is_hex_digit(b),
{
    (0x30 <= b && b <= 0x39) || (0x41 <= b && b <= 0x46) || (0x61 <= b && b <= 0x66)
}

/// A full string literal, scanned without decoding.
pub open spec fn spec_skip_string(s: Seq<u8>, i: int) -> Option<int> {
    let j = spec_skip_ws(s, i);
    if j < s.len() && s[j] == QUOTE {
        spec_skip_string_body(s, j + 1)
    } else {
        None
    }
}

pub fn skip_string(s: &[u8], i: usize) -> (r: Option<usize>)
    requires
        i <= s@.len(),
    ensures
        match r {
            Some(l) => spec_skip_string(s@, i as int) == Some(l as int) && i < l <= s@.len(),
            None => spec_skip_string(s@, i as int) is None,
        },
{
    let j = skip_ws(s, i);
    if j < s.len() && s[j] == QUOTE {
        skip_string_body(s, j + 1)
    } else {
        None
    }
}

/// A number, scanned without reading its value: an optional minus sign,
/// digits, an optional fraction, an optional exponent.
pub open spec fn spec_skip_number(s: Seq<u8>, i: int) -> Option<int> {
    let i0 = if 0 <= i < s.len() && s[i] == MINUS {
        i + 1
    } else {
        i
    };
    let i1 = spec_skip_digits(s, i0);
    if i1 == i0 {
        None
    } else if i1 < s.len() && s[i1] == DOT {
        let i2 = spec_skip_digits(s, i1 + 1);
        if i2 == i1 + 1 {
            None
        } else {
            spec_skip_exponent(s, i2)
        }
    } else {
        spec_skip_exponent(s, i1)
    }
}

/// An optional exponent after the digits of a number.
pub open spec fn spec_skip_exponent(s: Seq<u8>, i: int) -> Option<int> {
    if 0 <= i < s.len() && (s[i] == 0x65 || s[i] == 0x45) {
        let j = if i + 1 < s.len() && (s[i + 1] == PLUS || s[i + 1] == MINUS) {
            i + 2
        } else {
            i + 1
        };
        let k = spec_skip_digits(s, j);
        if k == j {
            None
        } else {
            Some(k)
        }
    } else {
        Some(i)
    }
}

fn skip_exponent(s: &[u8], i: usize) -> (r: Option<usize>)
    requires
        i <= s@.len(),
    ensures
        match r {
            Some(l) => spec_skip_exponent(s@, i as int) == Some(l as int) && i <= l <= s@.len(),
            None => spec_skip_exponent(s@, i as int) is None,
        },
{
    if i < s.len() && (s[i] == 0x65 || s[i] == 0x45) {
        let j = if i + 1 < s.len() && (s[i + 1] == PLUS || s[i + 1] == MINUS) {
            i + 2
        } else {
            i + 1
        };
        let k = skip_digits(s, j);
        if k == j {
            None
        } else {
            Some(k)
        }
    } else {
        Some(i)
    }
}

fn skip_number(s: &[u8], i: usize) -> (r: Option<usize>)
    requires
        i <= s@.len(),
    ensures
        match r {
            Some(l) => spec_skip_number(s@, i as int) == Some(l as int) && i < l <= s@.len(),
            None => spec_skip_number(s@, i as int) is None,
        },
{
    let i0 = if i < s.len() && s[i] == MINUS {
        i + 1
    } else {
        i
    };
    let i1 = skip_digits(s, i0);
    if i1 == i0 {
        None
    } else if i1 < s.len() && s[i1] == DOT {
        let i2 = skip_digits(s, i1 + 1);
        if i2 == i1 + 1 {
            None
        } else {
            skip_exponent(s, i2)
        }
    } else {
        skip_exponent(s, i1)
    }
}

/// Skip one JSON value of any shape. The guards on every recursive
/// position hold of every parse and only bound the recursion.
pub open spec fn spec_skip_value(s: Seq<u8>, i: int) -> Option<int>
    decreases s.len() - i, 0int,
        when 0 <= i <= s.len()
        via spec_skip_value_decreases
{
    let j = spec_skip_ws(s, i);
    if j >= s.len() {
        None
    } else if s[j] == QUOTE {
        spec_skip_string_body(s, j + 1)
    } else if s[j] == LBRACE {
        spec_skip_object_first(s, j + 1)
    } else if s[j] == LBRACK {
        spec_skip_array_first(s, j + 1)
    } else if s[j] == 0x74 {
        if j + 4 <= s.len() && s[j + 1] == 0x72 && s[j + 2] == 0x75 && s[j + 3] == 0x65 {
            Some(j + 4)
        } else {
            None
        }
    } else if s[j] == 0x66 {
        if j + 5 <= s.len() && s[j + 1] == 0x61 && s[j + 2] == 0x6c && s[j + 3] == 0x73 && s[j + 4]
            == 0x65 {
            Some(j + 5)
        } else {
            None
        }
    } else if s[j] == 0x6e {
        if j + 4 <= s.len() && s[j + 1] == 0x75 && s[j + 2] == 0x6c && s[j + 3] == 0x6c {
            Some(j + 4)
        } else {
            None
        }
    } else {
        spec_skip_number(s, j)
    }
}

#[via_fn]
proof fn spec_skip_value_decreases(s: Seq<u8>, i: int) {
    lemma_skip_ws_bounds(s, i);
}

/// After an array's opening bracket: its end, or its first item.
pub open spec fn spec_skip_array_first(s: Seq<u8>, i: int) -> Option<int>
    decreases s.len() - i, 1int,
        when 0 <= i <= s.len()
        via spec_skip_array_first_decreases
{
    let j = spec_skip_ws(s, i);
    if j < s.len() && s[j] == RBRACK {
        Some(j + 1)
    } else {
        match spec_skip_value(s, i) {
            None => None,
            Some(l) => if i < l <= s.len() {
                spec_skip_array_rest(s, l)
            } else {
                None
            },
        }
    }
}

#[via_fn]
proof fn spec_skip_array_first_decreases(s: Seq<u8>, i: int) {
    lemma_skip_ws_bounds(s, i);
}

/// After an array item: the array's end, or a comma and one more item.
pub open spec fn spec_skip_array_rest(s: Seq<u8>, i: int) -> Option<int>
    decreases s.len() - i, 1int,
        when 0 <= i <= s.len()
        via spec_skip_array_rest_decreases
{
    let j = spec_skip_ws(s, i);
    if j < s.len() && s[j] == RBRACK {
        Some(j + 1)
    } else if j < s.len() && s[j] == COMMA {
        match spec_skip_value(s, j + 1) {
            None => None,
            Some(l) => if j + 1 < l <= s.len() {
                spec_skip_array_rest(s, l)
            } else {
                None
            },
        }
    } else {
        None
    }
}

#[via_fn]
proof fn spec_skip_array_rest_decreases(s: Seq<u8>, i: int) {
    lemma_skip_ws_bounds(s, i);
}

/// After an object's opening brace: its end, or its first member.
pub open spec fn spec_skip_object_first(s: Seq<u8>, i: int) -> Option<int>
    decreases s.len() - i, 1int,
        when 0 <= i <= s.len()
        via spec_skip_object_first_decreases
{
    let j = spec_skip_ws(s, i);
    if j < s.len() && s[j] == RBRACE {
        Some(j + 1)
    } else {
        match spec_skip_string(s, i) {
            None => None,
            Some(k) => match spec_expect_byte(s, k, COLON) {
                None => None,
                Some(c) => if i < c <= s.len() {
                    match spec_skip_value(s, c) {
                        None => None,
                        Some(l) => if c < l <= s.len() {
                            spec_skip_object_rest(s, l)
                        } else {
                            None
                        },
                    }
                } else {
                    None
                },
            },
        }
    }
}

#[via_fn]
proof fn spec_skip_object_first_decreases(s: Seq<u8>, i: int) {
    lemma_skip_ws_bounds(s, i);
}

/// After an object member: the object's end, or a comma and one more.
pub open spec fn spec_skip_object_rest(s: Seq<u8>, i: int) -> Option<int>
    decreases s.len() - i, 1int,
        when 0 <= i <= s.len()
        via spec_skip_object_rest_decreases
{
    let j = spec_skip_ws(s, i);
    if j < s.len() && s[j] == RBRACE {
        Some(j + 1)
    } else if j < s.len() && s[j] == COMMA {
        match spec_skip_string(s, j + 1) {
            None => None,
            Some(k) => match spec_expect_byte(s, k, COLON) {
                None => None,
                Some(c) => if j + 1 < c <= s.len() {
                    match spec_skip_value(s, c) {
                        None => None,
                        Some(l) => if c < l <= s.len() {
                            spec_skip_object_rest(s, l)
                        } else {
                            None
                        },
                    }
                } else {
                    None
                },
            },
        }
    } else {
        None
    }
}

#[via_fn]
proof fn spec_skip_object_rest_decreases(s: Seq<u8>, i: int) {
    lemma_skip_ws_bounds(s, i);
}

pub fn skip_value(s: &[u8], i: usize) -> (r: Option<usize>)
    requires
        i <= s@.len(),
    ensures
        match r {
            Some(l) => spec_skip_value(s@, i as int) == Some(l as int) && i < l <= s@.len(),
            None => spec_skip_value(s@, i as int) is None,
        },
    decreases s@.len() - i, 0int,
{
    let j = skip_ws(s, i);
    if j >= s.len() {
        None
    } else if s[j] == QUOTE {
        skip_string_body(s, j + 1)
    } else if s[j] == LBRACE {
        skip_object_first(s, j + 1)
    } else if s[j] == LBRACK {
        skip_array_first(s, j + 1)
    } else if s[j] == 0x74 {
        if s.len() - j >= 4 && s[j + 1] == 0x72 && s[j + 2] == 0x75 && s[j + 3] == 0x65 {
            Some(j + 4)
        } else {
            None
        }
    } else if s[j] == 0x66 {
        if s.len() - j >= 5 && s[j + 1] == 0x61 && s[j + 2] == 0x6c && s[j + 3] == 0x73 && s[j + 4]
            == 0x65 {
            Some(j + 5)
        } else {
            None
        }
    } else if s[j] == 0x6e {
        if s.len() - j >= 4 && s[j + 1] == 0x75 && s[j + 2] == 0x6c && s[j + 3] == 0x6c {
            Some(j + 4)
        } else {
            None
        }
    } else {
        skip_number(s, j)
    }
}

fn skip_array_first(s: &[u8], i: usize) -> (r: Option<usize>)
    requires
        i <= s@.len(),
    ensures
        match r {
            Some(l) => spec_skip_array_first(s@, i as int) == Some(l as int) && i < l <= s@.len(),
            None => spec_skip_array_first(s@, i as int) is None,
        },
    decreases s@.len() - i, 1int,
{
    let j = skip_ws(s, i);
    if j < s.len() && s[j] == RBRACK {
        return Some(j + 1);
    }
    match skip_value(s, i) {
        None => None,
        Some(l) => skip_array_rest(s, l),
    }
}

fn skip_array_rest(s: &[u8], i: usize) -> (r: Option<usize>)
    requires
        i <= s@.len(),
    ensures
        match r {
            Some(l) => spec_skip_array_rest(s@, i as int) == Some(l as int) && i < l <= s@.len(),
            None => spec_skip_array_rest(s@, i as int) is None,
        },
    decreases s@.len() - i, 1int,
{
    let j = skip_ws(s, i);
    if j < s.len() && s[j] == RBRACK {
        return Some(j + 1);
    }
    if j < s.len() && s[j] == COMMA {
        match skip_value(s, j + 1) {
            None => None,
            Some(l) => skip_array_rest(s, l),
        }
    } else {
        None
    }
}

fn skip_object_first(s: &[u8], i: usize) -> (r: Option<usize>)
    requires
        i <= s@.len(),
    ensures
        match r {
            Some(l) => spec_skip_object_first(s@, i as int) == Some(l as int) && i < l <= s@.len(),
            None => spec_skip_object_first(s@, i as int) is None,
        },
    decreases s@.len() - i, 1int,
{
    let j = skip_ws(s, i);
    if j < s.len() && s[j] == RBRACE {
        return Some(j + 1);
    }
    match skip_string(s, i) {
        None => None,
        Some(k) => match expect_byte(s, k, COLON) {
            None => None,
            Some(c) => match skip_value(s, c) {
                None => None,
                Some(l) => skip_object_rest(s, l),
            },
        },
    }
}

fn skip_object_rest(s: &[u8], i: usize) -> (r: Option<usize>)
    requires
        i <= s@.len(),
    ensures
        match r {
            Some(l) => spec_skip_object_rest(s@, i as int) == Some(l as int) && i < l <= s@.len(),
            None => spec_skip_object_rest(s@, i as int) is None,
        },
    decreases s@.len() - i, 1int,
{
    let j = skip_ws(s, i);
    if j < s.len() && s[j] == RBRACE {
        return Some(j + 1);
    }
    if j < s.len() && s[j] == COMMA {
        match skip_string(s, j + 1) {
            None => None,
            Some(k) => match expect_byte(s, k, COLON) {
                None => None,
                Some(c) => match skip_value(s, c) {
                    None => None,
                    Some(l) => skip_object_rest(s, l),
                },
            },
        }
    } else {
        None
    }
}

/// Whether two byte slices hold the same bytes.
pub fn eq_bytes(a: &[u8], b: &[u8]) -> (r: bool)
    ensures
        r == (a@ == b@),
{
    if a.len() != b.len() {
        proof {
            assert(a@ != b@);
        }
        return false;
    }
    let mut k: usize = 0;
    while k < a.len()
        invariant
            k <= a@.len(),
            a@.len() == b@.len(),
            a@.subrange(0, k as int) == b@.subrange(0, k as int),
        decreases a@.len() - k,
    {
        if a[k] != b[k] {
            proof {
                assert(a@[k as int] != b@[k as int]);
                assert(a@ != b@);
            }
            return false;
        }
        proof {
            assert(a@.subrange(0, k + 1) =~= a@.subrange(0, k as int).push(a@[k as int]));
            assert(b@.subrange(0, k + 1) =~= b@.subrange(0, k as int).push(b@[k as int]));
        }
        k += 1;
    }
    proof {
        assert(a@.subrange(0, a@.len() as int) =~= a@);
        assert(b@.subrange(0, b@.len() as int) =~= b@);
    }
    true
}

} // verus!
