//! Shared scanning primitives for the two recursive-descent parsers:
//! the parse-error type, character classes, and verified cursor scanners
//! that consume a maximal run of characters of one class.

use vstd::prelude::*;

verus! {

/// The ways a parse can fail. Every failure is fatal to the whole parse.
#[derive(Clone, Copy, Debug, PartialEq, Eq, Structural)]
pub enum ParseErrorKind {
    /// The lookahead character does not match a required literal.
    UnexpectedCharacter,
    /// The input ended while a construct was still expected.
    UnexpectedEndOfInput,
    /// A length value's unit is not among the supported units.
    UnrecognizedUnit,
    /// A closing tag's name differs from its opening tag's name.
    MismatchedClosingTag,
}

/// A parse failure: the kind of mismatch and the character position
/// (an index into the input as a sequence of characters) where it was found.
#[derive(Clone, Copy, Debug, PartialEq, Eq, Structural)]
pub struct ParseError {
    pub kind: ParseErrorKind,
    pub pos: usize,
}

/// Outcome of a specification-level parse step: a parsed value together
/// with the cursor position after it, a failure with its kind and
/// position, or exhaustion of the recursion allowance. The executable
/// parsers run with an allowance large enough that `Exhausted` is never
/// their outcome, which each contract shows.
#[verifier::ext_equal]
pub enum POut<T> {
    Parsed { v: T, end: int },
    Failed { kind: ParseErrorKind, pos: int },
    Exhausted,
}

/// Whitespace: the characters with the Unicode white-space property,
/// from the ASCII controls and space through the Unicode space
/// separators.
pub open spec fn is_space_char(c: char) -> bool {
    let u = c as u32;
    (9 <= u && u <= 13) || u == 32 || u == 133 || u == 160 || u == 5760 || (8192 <= u && u
        <= 8202) || u == 8232 || u == 8233 || u == 8239 || u == 8287 || u == 12288
}

/// An ASCII decimal digit.
pub open spec fn is_digit_char(c: char) -> bool {
    48 <= (c as u32) && (c as u32) <= 57
}

/// An ASCII letter or digit.
pub open spec fn is_alnum_char(c: char) -> bool {
    is_digit_char(c) || (97 <= (c as u32) && (c as u32) <= 122) || (65 <= (c as u32) && (c as u32)
        <= 90)
}

/// A style-identifier character: an ASCII letter, digit, or hyphen.
pub open spec fn is_ident_char(c: char) -> bool {
    is_alnum_char(c) || c == '-'
}

/// An ASCII hexadecimal digit, either case.
pub open spec fn is_hex_char(c: char) -> bool {
    is_digit_char(c) || (97 <= (c as u32) && (c as u32) <= 102) || (65 <= (c as u32) && (c as u32)
        <= 70)
}

/// The numeric value of a hexadecimal digit.
pub open spec fn hex_val(c: char) -> nat {
    if is_digit_char(c) {
        ((c as u32) - 48) as nat
    } else if 97 <= (c as u32) && (c as u32) <= 102 {
        ((c as u32) - 87) as nat
    } else {
        ((c as u32) - 55) as nat
    }
}

pub open spec fn space_cls() -> spec_fn(char) -> bool {
    |c: char| is_space_char(c)
}

pub open spec fn alnum_cls() -> spec_fn(char) -> bool {
    |c: char| is_alnum_char(c)
}

pub open spec fn ident_cls() -> spec_fn(char) -> bool {
    |c: char| is_ident_char(c)
}

pub open spec fn digit_cls() -> spec_fn(char) -> bool {
    |c: char| is_digit_char(c)
}

pub open spec fn hex_cls() -> spec_fn(char) -> bool {
    |c: char| is_hex_char(c)
}

pub open spec fn not_lt_cls() -> spec_fn(char) -> bool {
    |c: char| c != '<'
}

pub open spec fn not_quote_cls(q: char) -> spec_fn(char) -> bool {
    |c: char| c != q
}

/// The position of the first character at or after `pos` that ends a
/// maximal run of characters satisfying `f` (the input's length when the
/// run reaches the end of the input).
pub open spec fn seek(s: Seq<char>, pos: int, f: spec_fn(char) -> bool) -> int
    decreases s.len() - pos,
{
    if pos >= s.len() || !f(s[pos]) {
        pos
    } else {
        seek(s, pos + 1, f)
    }
}

/// What `seek` returns: a position within bounds, every character of the
/// run satisfies `f`, and the run is maximal.
pub proof fn lemma_seek(s: Seq<char>, pos: int, f: spec_fn(char) -> bool)
    requires
        0 <= pos <= s.len(),
    ensures
        pos <= seek(s, pos, f) <= s.len(),
        forall|i: int| pos <= i < seek(s, pos, f) ==> f(s[i]),
        seek(s, pos, f) < s.len() ==> !f(s[seek(s, pos, f)]),
    decreases s.len() - pos,
{
    if pos < s.len() && f(s[pos]) {
        lemma_seek(s, pos + 1, f);
    }
}

/// `seek` yields exactly the bound whose run satisfies `f` and whose
/// next character, when there is one, does not.
pub proof fn lemma_seek_exact(s: Seq<char>, pos: int, f: spec_fn(char) -> bool, b: int)
    requires
        0 <= pos <= b <= s.len(),
        forall|i: int| pos <= i < b ==> f(#[trigger] s[i]),
        b < s.len() ==> !f(s[b]),
    ensures
        seek(s, pos, f) == b,
{
    lemma_seek(s, pos, f);
    let e = seek(s, pos, f);
    if e < b {
        assert(f(s[e]));
    }
    if e > b {
        assert(f(s[b]));
    }
}

/// Whether character `c` is whitespace.
pub fn space_char(c: char) -> (r: bool)
    ensures
        r == is_space_char(c),
{
    let u: u32 = c as u32;
    (9 <= u && u <= 13) || u == 32 || u == 133 || u == 160 || u == 5760 || (8192 <= u && u <= 8202)
        || u == 8232 || u == 8233 || u == 8239 || u == 8287 || u == 12288
}

/// Whether character `c` is an ASCII decimal digit.
pub fn digit_char(c: char) -> (r: bool)
    ensures
        r == is_digit_char(c),
{
    let u: u32 = c as u32;
    48 <= u && u <= 57
}

/// Whether character `c` is an ASCII letter or digit.
pub fn alnum_char(c: char) -> (r: bool)
    ensures
        r == is_alnum_char(c),
{
    let u: u32 = c as u32;
    (48 <= u && u <= 57) || (97 <= u && u <= 122) || (65 <= u && u <= 90)
}

/// Whether character `c` is a style-identifier character.
pub fn ident_char(c: char) -> (r: bool)
    ensures
        r == is_ident_char(c),
{
    alnum_char(c) || c == '-'
}

/// Whether character `c` is an ASCII hexadecimal digit.
pub fn hex_char(c: char) -> (r: bool)
    ensures
        r == is_hex_char(c),
{
    let u: u32 = c as u32;
    (48 <= u && u <= 57) || (97 <= u && u <= 102) || (65 <= u && u <= 70)
}

/// The numeric value of hexadecimal digit `c`.
pub fn hex_digit_val(c: char) -> (r: u8)
    requires
        is_hex_char(c),
    ensures
        r as nat == hex_val(c),
{
    let u: u32 = c as u32;
    if 48 <= u && u <= 57 {
        (u - 48) as u8
    } else if 97 <= u && u <= 102 {
        (u - 87) as u8
    } else {
        (u - 55) as u8
    }
}

/// Advances from `start` past a maximal run of whitespace characters.
pub fn seek_space(s: &str, start: usize) -> (r: usize)
    requires
        start as int <= s@.len(),
    ensures
        r as int == seek(s@, start as int, space_cls()),
        start <= r,
        r as int <= s@.len(),
{
    let n: usize = s.unicode_len();
    let mut pos: usize = start;
    while pos < n && space_char(s.get_char(pos))
        invariant
            start <= pos <= n,
            n as int == s@.len(),
            seek(s@, start as int, space_cls()) == seek(s@, pos as int, space_cls()),
        decreases n - pos,
    {
        pos = pos + 1;
    }
    proof {
        lemma_seek(s@, pos as int, space_cls());
    }
    pos
}

/// Advances from `start` past a maximal run of ASCII letters and digits.
pub fn seek_alnum(s: &str, start: usize) -> (r: usize)
    requires
        start as int <= s@.len(),
    ensures
        r as int == seek(s@, start as int, alnum_cls()),
        start <= r,
        r as int <= s@.len(),
{
    let n: usize = s.unicode_len();
    let mut pos: usize = start;
    while pos < n && alnum_char(s.get_char(pos))
        invariant
            start <= pos <= n,
            n as int == s@.len(),
            seek(s@, start as int, alnum_cls()) == seek(s@, pos as int, alnum_cls()),
        decreases n - pos,
    {
        pos = pos + 1;
    }
    proof {
        lemma_seek(s@, pos as int, alnum_cls());
    }
    pos
}

/// Advances from `start` past a maximal run of style-identifier characters.
pub fn seek_ident(s: &str, start: usize) -> (r: usize)
    requires
        start as int <= s@.len(),
    ensures
        r as int == seek(s@, start as int, ident_cls()),
        start <= r,
        r as int <= s@.len(),
{
    let n: usize = s.unicode_len();
    let mut pos: usize = start;
    while pos < n && ident_char(s.get_char(pos))
        invariant
            start <= pos <= n,
            n as int == s@.len(),
            seek(s@, start as int, ident_cls()) == seek(s@, pos as int, ident_cls()),
        decreases n - pos,
    {
        pos = pos + 1;
    }
    proof {
        lemma_seek(s@, pos as int, ident_cls());
    }
    pos
}

/// Advances from `start` past a maximal run of ASCII decimal digits.
pub fn seek_digit(s: &str, start: usize) -> (r: usize)
    requires
        start as int <= s@.len(),
    ensures
        r as int == seek(s@, start as int, digit_cls()),
        start <= r,
        r as int <= s@.len(),
{
    let n: usize = s.unicode_len();
    let mut pos: usize = start;
    while pos < n && digit_char(s.get_char(pos))
        invariant
            start <= pos <= n,
            n as int == s@.len(),
            seek(s@, start as int, digit_cls()) == seek(s@, pos as int, digit_cls()),
        decreases n - pos,
    {
        pos = pos + 1;
    }
    proof {
        lemma_seek(s@, pos as int, digit_cls());
    }
    pos
}

/// Advances from `start` past a maximal run of ASCII hexadecimal digits.
pub fn seek_hex(s: &str, start: usize) -> (r: usize)
    requires
        start as int <= s@.len(),
    ensures
        r as int == seek(s@, start as int, hex_cls()),
        start <= r,
        r as int <= s@.len(),
{
    let n: usize = s.unicode_len();
    let mut pos: usize = start;
    while pos < n && hex_char(s.get_char(pos))
        invariant
            start <= pos <= n,
            n as int == s@.len(),
            seek(s@, start as int, hex_cls()) == seek(s@, pos as int, hex_cls()),
        decreases n - pos,
    {
        pos = pos + 1;
    }
    proof {
        lemma_seek(s@, pos as int, hex_cls());
    }
    pos
}

/// Advances from `start` past a maximal run of characters other than `<`.
pub fn seek_not_lt(s: &str, start: usize) -> (r: usize)
    requires
        start as int <= s@.len(),
    ensures
        r as int == seek(s@, start as int, not_lt_cls()),
        start <= r,
        r as int <= s@.len(),
{
    let n: usize = s.unicode_len();
    let mut pos: usize = start;
    while pos < n && s.get_char(pos) != '<'
        invariant
            start <= pos <= n,
            n as int == s@.len(),
            seek(s@, start as int, not_lt_cls()) == seek(s@, pos as int, not_lt_cls()),
        decreases n - pos,
    {
        pos = pos + 1;
    }
    proof {
        lemma_seek(s@, pos as int, not_lt_cls());
    }
    pos
}

/// Advances from `start` past a maximal run of characters other than the
/// quote character `q`.
pub fn seek_not_quote(s: &str, q: char, start: usize) -> (r: usize)
    requires
        start as int <= s@.len(),
    ensures
        r as int == seek(s@, start as int, not_quote_cls(q)),
        start <= r,
        r as int <= s@.len(),
{
    let n: usize = s.unicode_len();
    let mut pos: usize = start;
    while pos < n && s.get_char(pos) != q
        invariant
            start <= pos <= n,
            n as int == s@.len(),
            seek(s@, start as int, not_quote_cls(q)) == seek(s@, pos as int, not_quote_cls(q)),
        decreases n - pos,
    {
        pos = pos + 1;
    }
    proof {
        lemma_seek(s@, pos as int, not_quote_cls(q));
    }
    pos
}

} // verus!
