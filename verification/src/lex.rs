//! Lexical primitives: character classes, whitespace and token scanning, and
//! the decimal and hexadecimal literal readers, each proved against a
//! positional-value specification.

use vstd::prelude::*;
use crate::ast::Color;

verus! {

/// The literal tokens a grammar rule may require.
#[derive(Debug, PartialEq, Eq, Structural, Clone, Copy)]
pub enum Token {
    KwVal,
    KwFunction,
    Identifier,
    LParen,
    RParen,
    LBrace,
    RBrace,
    Colon,
    Equals,
    Hash,
    Newline,
}

/// The grammar forms a failed parse may have attempted.
#[derive(Debug, PartialEq, Eq, Structural, Clone, Copy)]
pub enum SyntaxForm {
    FunctionDeclaration,
    ValBinding,
    FunctionApplication,
    IntegerLiteral,
    ArgumentReference,
}

/// A structured parse failure: what went wrong, at which character position
/// of the input, and — for a malformed literal — the offending token's text,
/// or — where no grammar form matched — the forms that were attempted.
#[derive(Debug, PartialEq, Eq, Clone)]
pub enum ParseError {
    MalformedNumber { pos: usize, token: String },
    MalformedHex { pos: usize, token: String },
    UnexpectedToken { expected: Token, pos: usize },
    NoMatchingForm { pos: usize, attempted: Vec<SyntaxForm> },
}

/// Spec-level mirror of a parse failure, over `Seq` and `int`.
pub enum SpecParseError {
    MalformedNumber { pos: int, token: Seq<char> },
    MalformedHex { pos: int, token: Seq<char> },
    UnexpectedToken { expected: Token, pos: int },
    NoMatchingForm { pos: int, attempted: Seq<SyntaxForm> },
}

impl ParseError {
    /// The mathematical value of this failure.
    pub open spec fn view(&self) -> SpecParseError {
        match self {
            ParseError::MalformedNumber { pos, token } => SpecParseError::MalformedNumber {
                pos: *pos as int,
                token: token@,
            },
            ParseError::MalformedHex { pos, token } => SpecParseError::MalformedHex {
                pos: *pos as int,
                token: token@,
            },
            ParseError::UnexpectedToken { expected, pos } => SpecParseError::UnexpectedToken {
                expected: *expected,
                pos: *pos as int,
            },
            ParseError::NoMatchingForm { pos, attempted } => SpecParseError::NoMatchingForm {
                pos: *pos as int,
                attempted: attempted@,
            },
        }
    }
}

/// Spec-level outcome of a parser: the position after the consumed prefix
/// and the parsed value, or a structured failure.
pub enum SpecParse<T> {
    Found { next: int, val: T },
    Fail { err: SpecParseError },
}

/// A decimal digit `0` through `9`.
pub open spec fn is_digit_char(c: char) -> bool {
    48 <= c as u32 && c as u32 <= 57
}

/// A hexadecimal digit: `0`-`9`, `a`-`f` or `A`-`F`.
pub open spec fn is_hex_char(c: char) -> bool {
    is_digit_char(c) || (97 <= c as u32 && c as u32 <= 102) || (65 <= c as u32 && c as u32
        <= 70)
}

/// Insignificant whitespace between tokens.
pub open spec fn is_ws_char(c: char) -> bool {
    c == ' ' || c == '\t' || c == '\n' || c == '\r'
}

/// A character that may stand in an identifier.
pub open spec fn is_ident_char(c: char) -> bool {
    is_digit_char(c) || (97 <= c as u32 && c as u32 <= 122) || (65 <= c as u32 && c as u32
        <= 90) || c == '_'
}

/// The value of one decimal digit; zero on any other character.
pub open spec fn dval(c: char) -> nat {
    if is_digit_char(c) {
        (c as u32 - 48) as nat
    } else {
        0
    }
}

/// The value of one hexadecimal digit; zero on any other character.
pub open spec fn hval(c: char) -> nat {
    if is_digit_char(c) {
        (c as u32 - 48) as nat
    } else if 97 <= c as u32 && c as u32 <= 102 {
        (c as u32 - 87) as nat
    } else if 65 <= c as u32 && c as u32 <= 70 {
        (c as u32 - 55) as nat
    } else {
        0
    }
}

/// The value of a sequence of decimal digits, most significant first.
pub open spec fn dec_to_int(s: Seq<char>) -> nat
    decreases s.len(),
{
    if s.len() == 0 {
        0
    } else {
        dec_to_int(s.drop_last()) * 10 + dval(s.last())
    }
}

/// The value of a sequence of hexadecimal digits, most significant first.
pub open spec fn hex_to_int(s: Seq<char>) -> nat
    decreases s.len(),
{
    if s.len() == 0 {
        0
    } else {
        hex_to_int(s.drop_last()) * 16 + hval(s.last())
    }
}

/// The decimal digit character of a value below ten.
pub open spec fn digit_char_of(d: nat) -> char {
    if d == 0 {
        '0'
    } else if d == 1 {
        '1'
    } else if d == 2 {
        '2'
    } else if d == 3 {
        '3'
    } else if d == 4 {
        '4'
    } else if d == 5 {
        '5'
    } else if d == 6 {
        '6'
    } else if d == 7 {
        '7'
    } else if d == 8 {
        '8'
    } else {
        '9'
    }
}

/// The canonical decimal text of a natural number, without leading zeros.
pub open spec fn int_to_dec(n: nat) -> Seq<char>
    decreases n,
{
    if n < 10 {
        seq![digit_char_of(n)]
    } else {
        int_to_dec(n / 10).push(digit_char_of(n % 10))
    }
}

/// Reading back the digit character of a small value gives that value.
pub proof fn lemma_digit_char_of_val(d: nat)
    requires
        d < 10,
    ensures
        is_digit_char(digit_char_of(d)),
        dval(digit_char_of(d)) == d,
{
}

/// The decimal text of a number is a non-empty run of digits.
pub proof fn lemma_int_to_dec_digits(n: nat)
    ensures
        int_to_dec(n).len() >= 1,
        forall|i: int|
            0 <= i < int_to_dec(n).len() ==> #[trigger] is_digit_char(int_to_dec(n)[i]),
    decreases n,
{
    if n < 10 {
        lemma_digit_char_of_val(n);
    } else {
        lemma_int_to_dec_digits(n / 10);
        lemma_digit_char_of_val(n % 10);
    }
}

/// Reading the decimal text of a number gives the number back.
pub proof fn lemma_dec_round_trip(n: nat)
    ensures
        dec_to_int(int_to_dec(n)) == n,
    decreases n,
{
    if n < 10 {
        lemma_digit_char_of_val(n);
        assert(int_to_dec(n).drop_last() =~= Seq::<char>::empty());
        assert(int_to_dec(n).last() == digit_char_of(n));
        assert(dec_to_int(Seq::<char>::empty()) == 0);
    } else {
        lemma_dec_round_trip(n / 10);
        lemma_digit_char_of_val(n % 10);
        assert(int_to_dec(n).drop_last() =~= int_to_dec(n / 10));
        assert(int_to_dec(n).last() == digit_char_of(n % 10));
        assert(n / 10 * 10 + n % 10 == n);
    }
}

/// A prefix of a digit run is worth no more than the whole run.
pub proof fn lemma_dec_prefix_le(s: Seq<char>, k: int)
    requires
        0 <= k <= s.len(),
    ensures
        dec_to_int(s.subrange(0, k)) <= dec_to_int(s),
    decreases s.len(),
{
    if k == s.len() {
        assert(s.subrange(0, k) =~= s);
    } else {
        lemma_dec_prefix_le(s.drop_last(), k);
        assert(s.subrange(0, k) =~= s.drop_last().subrange(0, k));
    }
}

/// A prefix of a hexadecimal run is worth no more than the whole run.
pub proof fn lemma_hex_prefix_le(s: Seq<char>, k: int)
    requires
        0 <= k <= s.len(),
    ensures
        hex_to_int(s.subrange(0, k)) <= hex_to_int(s),
    decreases s.len(),
{
    if k == s.len() {
        assert(s.subrange(0, k) =~= s);
    } else {
        lemma_hex_prefix_le(s.drop_last(), k);
        assert(s.subrange(0, k) =~= s.drop_last().subrange(0, k));
    }
}

/// The first position at or after `p` that does not hold whitespace.
pub open spec fn ws_end(s: Seq<char>, p: int) -> int
    decreases s.len() - p,
{
    if 0 <= p < s.len() && is_ws_char(s[p]) {
        ws_end(s, p + 1)
    } else {
        p
    }
}

/// The end of the maximal run of decimal digits starting at `p`.
pub open spec fn digits_end(s: Seq<char>, p: int) -> int
    decreases s.len() - p,
{
    if 0 <= p < s.len() && is_digit_char(s[p]) {
        digits_end(s, p + 1)
    } else {
        p
    }
}

/// The end of the maximal run of hexadecimal digits starting at `p`.
pub open spec fn hexes_end(s: Seq<char>, p: int) -> int
    decreases s.len() - p,
{
    if 0 <= p < s.len() && is_hex_char(s[p]) {
        hexes_end(s, p + 1)
    } else {
        p
    }
}

/// The end of the maximal run of identifier characters starting at `p`.
pub open spec fn ident_end(s: Seq<char>, p: int) -> int
    decreases s.len() - p,
{
    if 0 <= p < s.len() && is_ident_char(s[p]) {
        ident_end(s, p + 1)
    } else {
        p
    }
}

/// A character that may stand in a whitespace-delimited token.
pub open spec fn is_word_char(c: char) -> bool {
    !is_ws_char(c)
}

/// The end of the maximal run of non-whitespace characters starting at `p`.
pub open spec fn word_end(s: Seq<char>, p: int) -> int
    decreases s.len() - p,
{
    if 0 <= p < s.len() && is_word_char(s[p]) {
        word_end(s, p + 1)
    } else {
        p
    }
}

/// What the word scan reaches: non-whitespace below the end, none at it.
pub proof fn lemma_word_end_props(s: Seq<char>, p: int)
    requires
        0 <= p <= s.len(),
    ensures
        p <= word_end(s, p) <= s.len(),
        forall|j: int| p <= j < word_end(s, p) ==> #[trigger] is_word_char(s[j]),
        word_end(s, p) < s.len() ==> !is_word_char(s[word_end(s, p)]),
    decreases s.len() - p,
{
    if p < s.len() && is_word_char(s[p]) {
        lemma_word_end_props(s, p + 1);
    }
}

/// Scan the maximal run of non-whitespace characters from `pos`, returning
/// its end.
pub fn scan_word(s: &str, pos: usize) -> (r: usize)
    requires
        pos <= s@.len(),
    ensures
        r == word_end(s@, pos as int),
        pos <= r <= s@.len(),
{
    let n = s.unicode_len();
    let mut i = pos;
    loop
        invariant
            pos <= i <= n,
            n == s@.len(),
            word_end(s@, pos as int) == word_end(s@, i as int),
        ensures
            i == word_end(s@, pos as int),
        decreases n - i,
    {
        if i == n {
            break ;
        }
        let c = s.get_char(i);
        if is_whitespace_char(c) {
            break ;
        }
        i = i + 1;
    }
    proof {
        lemma_word_end_props(s@, pos as int);
    }
    i
}

/// Whitespace that does not end a line.
pub open spec fn is_line_ws_char(c: char) -> bool {
    c == ' ' || c == '\t' || c == '\r'
}

/// The first position at or after `p` that holds no whitespace other than a
/// line terminator.
pub open spec fn line_ws_end(s: Seq<char>, p: int) -> int
    decreases s.len() - p,
{
    if 0 <= p < s.len() && is_line_ws_char(s[p]) {
        line_ws_end(s, p + 1)
    } else {
        p
    }
}

/// What the line-whitespace scan reaches.
pub proof fn lemma_line_ws_end_props(s: Seq<char>, p: int)
    requires
        0 <= p <= s.len(),
    ensures
        p <= line_ws_end(s, p) <= s.len(),
    decreases s.len() - p,
{
    if p < s.len() && is_line_ws_char(s[p]) {
        lemma_line_ws_end_props(s, p + 1);
    }
}

/// Skip whitespace other than a line terminator from `pos`.
pub fn skip_line_ws(s: &str, pos: usize) -> (r: usize)
    requires
        pos <= s@.len(),
    ensures
        r == line_ws_end(s@, pos as int),
        pos <= r <= s@.len(),
{
    let n = s.unicode_len();
    let mut i = pos;
    loop
        invariant
            pos <= i <= n,
            n == s@.len(),
            line_ws_end(s@, pos as int) == line_ws_end(s@, i as int),
        ensures
            i == line_ws_end(s@, pos as int),
        decreases n - i,
    {
        if i == n {
            break ;
        }
        let c = s.get_char(i);
        if !(c == ' ' || c == '\t' || c == '\r') {
            break ;
        }
        i = i + 1;
    }
    proof {
        lemma_line_ws_end_props(s@, pos as int);
    }
    i
}

/// What the whitespace scan reaches: a position within bounds, with
/// whitespace below it and none at it.
pub proof fn lemma_ws_end_props(s: Seq<char>, p: int)
    requires
        0 <= p <= s.len(),
    ensures
        p <= ws_end(s, p) <= s.len(),
        forall|j: int| p <= j < ws_end(s, p) ==> #[trigger] is_ws_char(s[j]),
        ws_end(s, p) < s.len() ==> !is_ws_char(s[ws_end(s, p)]),
    decreases s.len() - p,
{
    if p < s.len() && is_ws_char(s[p]) {
        lemma_ws_end_props(s, p + 1);
    }
}

/// Skipping whitespace from an already-skipped position moves nowhere:
/// whitespace skipping is idempotent.
pub proof fn lemma_ws_end_idempotent(s: Seq<char>, p: int)
    requires
        0 <= p <= s.len(),
    ensures
        ws_end(s, ws_end(s, p)) == ws_end(s, p),
{
    lemma_ws_end_props(s, p);
}

/// What the digit scan reaches: digits below the end, none at it.
pub proof fn lemma_digits_end_props(s: Seq<char>, p: int)
    requires
        0 <= p <= s.len(),
    ensures
        p <= digits_end(s, p) <= s.len(),
        forall|j: int| p <= j < digits_end(s, p) ==> #[trigger] is_digit_char(s[j]),
        digits_end(s, p) < s.len() ==> !is_digit_char(s[digits_end(s, p)]),
    decreases s.len() - p,
{
    if p < s.len() && is_digit_char(s[p]) {
        lemma_digits_end_props(s, p + 1);
    }
}

/// What the hexadecimal scan reaches: hex digits below the end, none at it.
pub proof fn lemma_hexes_end_props(s: Seq<char>, p: int)
    requires
        0 <= p <= s.len(),
    ensures
        p <= hexes_end(s, p) <= s.len(),
        forall|j: int| p <= j < hexes_end(s, p) ==> #[trigger] is_hex_char(s[j]),
        hexes_end(s, p) < s.len() ==> !is_hex_char(s[hexes_end(s, p)]),
    decreases s.len() - p,
{
    if p < s.len() && is_hex_char(s[p]) {
        lemma_hexes_end_props(s, p + 1);
    }
}

/// What the identifier scan reaches: identifier characters below the end,
/// none at it.
pub proof fn lemma_ident_end_props(s: Seq<char>, p: int)
    requires
        0 <= p <= s.len(),
    ensures
        p <= ident_end(s, p) <= s.len(),
        forall|j: int| p <= j < ident_end(s, p) ==> #[trigger] is_ident_char(s[j]),
        ident_end(s, p) < s.len() ==> !is_ident_char(s[ident_end(s, p)]),
    decreases s.len() - p,
{
    if p < s.len() && is_ident_char(s[p]) {
        lemma_ident_end_props(s, p + 1);
    }
}

/// Whether `c` is a decimal digit.
pub fn is_dec_digit(c: char) -> (r: bool)
    ensures
        r == is_digit_char(c),
{
    let u = c as u32;
    48 <= u && u <= 57
}

/// Whether `c` is a hexadecimal digit.
pub fn is_hex_digit(c: char) -> (r: bool)
    ensures
        r == is_hex_char(c),
{
    let u = c as u32;
    (48 <= u && u <= 57) || (97 <= u && u <= 102) || (65 <= u && u <= 70)
}

/// Whether `c` may stand in an identifier.
pub fn is_identifier_char(c: char) -> (r: bool)
    ensures
        r == is_ident_char(c),
{
    let u = c as u32;
    (48 <= u && u <= 57) || (97 <= u && u <= 122) || (65 <= u && u <= 90) || u == 95
}

/// Whether `c` is insignificant whitespace.
pub fn is_whitespace_char(c: char) -> (r: bool)
    ensures
        r == is_ws_char(c),
{
    c == ' ' || c == '\t' || c == '\n' || c == '\r'
}

/// Skip whitespace from `pos`, returning the first position holding none.
pub fn skip_ws(s: &str, pos: usize) -> (r: usize)
    requires
        pos <= s@.len(),
    ensures
        r == ws_end(s@, pos as int),
        pos <= r <= s@.len(),
{
    let n = s.unicode_len();
    let mut i = pos;
    loop
        invariant
            pos <= i <= n,
            n == s@.len(),
            ws_end(s@, pos as int) == ws_end(s@, i as int),
        ensures
            i == ws_end(s@, pos as int),
        decreases n - i,
    {
        if i == n {
            break ;
        }
        let c = s.get_char(i);
        if !is_whitespace_char(c) {
            break ;
        }
        i = i + 1;
    }
    proof {
        lemma_ws_end_props(s@, pos as int);
    }
    i
}

/// Scan the maximal run of decimal digits from `pos`, returning its end.
pub fn scan_digits(s: &str, pos: usize) -> (r: usize)
    requires
        pos <= s@.len(),
    ensures
        r == digits_end(s@, pos as int),
        pos <= r <= s@.len(),
{
    let n = s.unicode_len();
    let mut i = pos;
    loop
        invariant
            pos <= i <= n,
            n == s@.len(),
            digits_end(s@, pos as int) == digits_end(s@, i as int),
        ensures
            i == digits_end(s@, pos as int),
        decreases n - i,
    {
        if i == n {
            break ;
        }
        let c = s.get_char(i);
        if !is_dec_digit(c) {
            break ;
        }
        i = i + 1;
    }
    proof {
        lemma_digits_end_props(s@, pos as int);
    }
    i
}

/// Scan the maximal run of hexadecimal digits from `pos`, returning its end.
pub fn scan_hexes(s: &str, pos: usize) -> (r: usize)
    requires
        pos <= s@.len(),
    ensures
        r == hexes_end(s@, pos as int),
        pos <= r <= s@.len(),
{
    let n = s.unicode_len();
    let mut i = pos;
    loop
        invariant
            pos <= i <= n,
            n == s@.len(),
            hexes_end(s@, pos as int) == hexes_end(s@, i as int),
        ensures
            i == hexes_end(s@, pos as int),
        decreases n - i,
    {
        if i == n {
            break ;
        }
        let c = s.get_char(i);
        if !is_hex_digit(c) {
            break ;
        }
        i = i + 1;
    }
    proof {
        lemma_hexes_end_props(s@, pos as int);
    }
    i
}

/// Scan the maximal run of identifier characters from `pos`, returning its
/// end.
pub fn scan_ident(s: &str, pos: usize) -> (r: usize)
    requires
        pos <= s@.len(),
    ensures
        r == ident_end(s@, pos as int),
        pos <= r <= s@.len(),
{
    let n = s.unicode_len();
    let mut i = pos;
    loop
        invariant
            pos <= i <= n,
            n == s@.len(),
            ident_end(s@, pos as int) == ident_end(s@, i as int),
        ensures
            i == ident_end(s@, pos as int),
        decreases n - i,
    {
        if i == n {
            break ;
        }
        let c = s.get_char(i);
        if !is_identifier_char(c) {
            break ;
        }
        i = i + 1;
    }
    proof {
        lemma_ident_end_props(s@, pos as int);
    }
    i
}

/// The decimal-literal rule: the maximal digit run starting at `p`, failing
/// when the run is empty or its value does not fit the literal type.
pub open spec fn spec_parse_int(s: Seq<char>, p: int) -> SpecParse<int> {
    let e = digits_end(s, p);
    if e == p {
        SpecParse::Fail {
            err: SpecParseError::MalformedNumber { pos: p, token: s.subrange(p, e) },
        }
    } else if dec_to_int(s.subrange(p, e)) > i128::MAX {
        SpecParse::Fail {
            err: SpecParseError::MalformedNumber { pos: p, token: s.subrange(p, e) },
        }
    } else {
        SpecParse::Found { next: e, val: dec_to_int(s.subrange(p, e)) as int }
    }
}

/// Read the maximal decimal digit run starting at `pos` as an integer
/// literal.
pub fn parse_int_at(s: &str, pos: usize) -> (r: Result<(usize, i128), ParseError>)
    requires
        pos <= s@.len(),
    ensures
        match r {
            Ok((next, v)) => spec_parse_int(s@, pos as int) == (SpecParse::Found {
                next: next as int,
                val: v as int,
            }) && pos < next <= s@.len() && v >= 0,
            Err(e) => spec_parse_int(s@, pos as int) == (SpecParse::<int>::Fail {
                err: e.view(),
            }),
        },
{
    proof {
        lemma_digits_end_props(s@, pos as int);
    }
    let e = scan_digits(s, pos);
    if e == pos {
        proof {
            assert(s@.subrange(pos as int, pos as int) =~= Seq::<char>::empty());
        }
        return Err(ParseError::MalformedNumber { pos, token: String::new() });
    }
    let ghost run = s@.subrange(pos as int, e as int);
    let mut acc: u128 = 0;
    let mut i = pos;
    while i < e
        invariant
            pos <= i <= e <= s@.len(),
            e == digits_end(s@, pos as int),
            forall|j: int| pos <= j < e ==> #[trigger] is_digit_char(s@[j]),
            run == s@.subrange(pos as int, e as int),
            acc == dec_to_int(s@.subrange(pos as int, i as int)),
            acc <= i128::MAX as u128,
        decreases e - i,
    {
        let c = s.get_char(i);
        proof {
            assert(is_digit_char(s@[i as int]));
        }
        let u = c as u32;
        let d: u128 = (u - 48) as u128;
        proof {
            assert(s@.subrange(pos as int, i as int + 1).drop_last() =~= s@.subrange(
                pos as int,
                i as int,
            ));
            assert(s@.subrange(pos as int, i as int + 1).last() == s@[i as int]);
            assert(dec_to_int(s@.subrange(pos as int, i as int + 1)) == acc * 10 + d);
        }
        if acc > i128::MAX as u128 / 10 {
            proof {
                assert(run.subrange(0, i as int + 1 - pos) =~= s@.subrange(
                    pos as int,
                    i as int + 1,
                ));
                lemma_dec_prefix_le(run, i as int + 1 - pos);
            }
            return Err(ParseError::MalformedNumber {
                pos,
                token: s.substring_char(pos, e).to_owned(),
            });
        }
        let t = acc * 10;
        if t > i128::MAX as u128 - d {
            proof {
                assert(run.subrange(0, i as int + 1 - pos) =~= s@.subrange(
                    pos as int,
                    i as int + 1,
                ));
                lemma_dec_prefix_le(run, i as int + 1 - pos);
            }
            return Err(ParseError::MalformedNumber {
                pos,
                token: s.substring_char(pos, e).to_owned(),
            });
        }
        acc = t + d;
        i = i + 1;
    }
    proof {
        assert(run =~= s@.subrange(pos as int, e as int));
    }
    Ok((e, acc as i128))
}

/// The whole-text decimal reader: every character must be a digit and the
/// value must fit the literal type.
pub open spec fn spec_from_dec(s: Seq<char>) -> Result<int, SpecParseError> {
    let e = digits_end(s, 0);
    if s.len() == 0 {
        Err(SpecParseError::MalformedNumber { pos: 0, token: s })
    } else if e != s.len() {
        Err(SpecParseError::MalformedNumber { pos: e, token: s })
    } else {
        match spec_parse_int(s, 0) {
            SpecParse::Found { next, val } => Ok(val),
            SpecParse::Fail { err } => Err(err),
        }
    }
}

/// Read an entire text as a decimal integer literal.
pub fn from_dec(input: &str) -> (r: Result<i128, ParseError>)
    ensures
        match r {
            Ok(v) => spec_from_dec(input@) == Ok::<int, SpecParseError>(v as int),
            Err(e) => spec_from_dec(input@) == Err::<int, SpecParseError>(e.view()),
        },
{
    let n = input.unicode_len();
    if n == 0 {
        return Err(ParseError::MalformedNumber { pos: 0, token: input.to_owned() });
    }
    let e = scan_digits(input, 0);
    if e != n {
        return Err(ParseError::MalformedNumber { pos: e, token: input.to_owned() });
    }
    match parse_int_at(input, 0) {
        Ok((_, v)) => Ok(v),
        Err(err) => Err(err),
    }
}

/// Consume the maximal leading decimal digit run of `input` as an integer
/// literal, returning the unconsumed suffix beside the value.
pub fn parse_dec(input: &str) -> (r: Result<(&str, i128), ParseError>)
    ensures
        match r {
            Ok((rem, v)) => spec_parse_int(input@, 0) == (SpecParse::Found {
                next: input@.len() - rem@.len(),
                val: v as int,
            }) && rem@ == input@.subrange(input@.len() - rem@.len(), input@.len() as int),
            Err(e) => spec_parse_int(input@, 0) == (SpecParse::<int>::Fail { err: e.view() }),
        },
{
    let n = input.unicode_len();
    match parse_int_at(input, 0) {
        Ok((next, v)) => {
            let rem = input.substring_char(next, n);
            Ok((rem, v))
        },
        Err(e) => Err(e),
    }
}

/// The value of one hexadecimal digit character.
pub fn hex_digit_val(c: char) -> (r: u8)
    requires
        is_hex_char(c),
    ensures
        r == hval(c),
{
    let u = c as u32;
    if u <= 57 {
        (u - 48) as u8
    } else if u >= 97 {
        (u - 87) as u8
    } else {
        (u - 55) as u8
    }
}

/// The fixed-width byte rule: exactly two hexadecimal digits at `p`.
pub open spec fn spec_parse_hex_byte(s: Seq<char>, p: int) -> SpecParse<int> {
    if p + 2 <= s.len() && is_hex_char(s[p]) && is_hex_char(s[p + 1]) {
        SpecParse::Found { next: p + 2, val: (16 * hval(s[p]) + hval(s[p + 1])) as int }
    } else {
        let e = if p + 2 <= s.len() {
            p + 2
        } else {
            s.len() as int
        };
        SpecParse::Fail {
            err: SpecParseError::MalformedHex { pos: p, token: s.subrange(p, e) },
        }
    }
}

/// Read exactly two hexadecimal digits at `pos` as one byte.
pub fn parse_hex_byte_at(s: &str, pos: usize) -> (r: Result<(usize, u8), ParseError>)
    requires
        pos <= s@.len(),
    ensures
        match r {
            Ok((next, v)) => spec_parse_hex_byte(s@, pos as int) == (SpecParse::Found {
                next: next as int,
                val: v as int,
            }) && next == pos + 2 && next <= s@.len(),
            Err(e) => spec_parse_hex_byte(s@, pos as int) == (SpecParse::<int>::Fail {
                err: e.view(),
            }),
        },
{
    let n = s.unicode_len();
    let e = if n - pos >= 2 {
        pos + 2
    } else {
        n
    };
    if pos >= n || pos + 1 >= n {
        return Err(ParseError::MalformedHex {
            pos,
            token: s.substring_char(pos, e).to_owned(),
        });
    }
    let c1 = s.get_char(pos);
    let c2 = s.get_char(pos + 1);
    if !is_hex_digit(c1) || !is_hex_digit(c2) {
        return Err(ParseError::MalformedHex {
            pos,
            token: s.substring_char(pos, e).to_owned(),
        });
    }
    let v1 = hex_digit_val(c1);
    let v2 = hex_digit_val(c2);
    Ok((pos + 2, 16 * v1 + v2))
}

/// The whole-text hexadecimal reader: every character must be a hex digit
/// and the value must fit one byte.
pub open spec fn spec_from_hex(s: Seq<char>) -> Result<int, SpecParseError> {
    let e = hexes_end(s, 0);
    if s.len() == 0 {
        Err(SpecParseError::MalformedHex { pos: 0, token: s })
    } else if e != s.len() {
        Err(SpecParseError::MalformedHex { pos: e, token: s })
    } else if hex_to_int(s) > 255 {
        Err(SpecParseError::MalformedHex { pos: 0, token: s })
    } else {
        Ok(hex_to_int(s) as int)
    }
}

/// Read an entire text as a hexadecimal byte value.
pub fn from_hex(input: &str) -> (r: Result<u8, ParseError>)
    ensures
        match r {
            Ok(v) => spec_from_hex(input@) == Ok::<int, SpecParseError>(v as int),
            Err(e) => spec_from_hex(input@) == Err::<int, SpecParseError>(e.view()),
        },
{
    let n = input.unicode_len();
    if n == 0 {
        return Err(ParseError::MalformedHex { pos: 0, token: input.to_owned() });
    }
    let e = scan_hexes(input, 0);
    if e != n {
        return Err(ParseError::MalformedHex { pos: e, token: input.to_owned() });
    }
    proof {
        lemma_hexes_end_props(input@, 0);
    }
    let mut acc: u32 = 0;
    let mut i: usize = 0;
    while i < n
        invariant
            0 <= i <= n,
            n == input@.len(),
            hexes_end(input@, 0) == n,
            forall|j: int| 0 <= j < n ==> #[trigger] is_hex_char(input@[j]),
            acc == hex_to_int(input@.subrange(0, i as int)),
            acc <= 255,
        decreases n - i,
    {
        let c = input.get_char(i);
        let d = hex_digit_val(c);
        proof {
            assert(input@.subrange(0, i as int + 1).drop_last() =~= input@.subrange(0, i as int));
            assert(input@.subrange(0, i as int + 1).last() == input@[i as int]);
            assert(hex_to_int(input@.subrange(0, i as int + 1)) == acc * 16 + d);
        }
        if acc > 15 {
            proof {
                lemma_hex_prefix_le(input@, i as int + 1);
                assert(input@.subrange(0, input@.len() as int) =~= input@);
            }
            return Err(ParseError::MalformedHex { pos: 0, token: input.to_owned() });
        }
        acc = acc * 16 + (d as u32);
        i = i + 1;
    }
    proof {
        assert(input@.subrange(0, n as int) =~= input@);
    }
    Ok(acc as u8)
}

/// Consume exactly two leading hexadecimal digits of `input` as one byte,
/// returning the unconsumed suffix beside the value.
pub fn hex_primary(input: &str) -> (r: Result<(&str, u8), ParseError>)
    ensures
        match r {
            Ok((rem, v)) => spec_parse_hex_byte(input@, 0) == (SpecParse::Found {
                next: 2,
                val: v as int,
            }) && rem@ == input@.subrange(2, input@.len() as int),
            Err(e) => spec_parse_hex_byte(input@, 0) == (SpecParse::<int>::Fail {
                err: e.view(),
            }),
        },
{
    let n = input.unicode_len();
    match parse_hex_byte_at(input, 0) {
        Ok((next, v)) => {
            let rem = input.substring_char(next, n);
            Ok((rem, v))
        },
        Err(e) => Err(e),
    }
}

/// The color rule: a literal `#` followed by three consecutive
/// two-digit hexadecimal bytes.
pub open spec fn spec_hex_color(s: Seq<char>) -> SpecParse<Color> {
    if !(s.len() >= 1 && s[0] == '#') {
        SpecParse::Fail {
            err: SpecParseError::UnexpectedToken { expected: Token::Hash, pos: 0 },
        }
    } else {
        match spec_parse_hex_byte(s, 1) {
            SpecParse::Fail { err } => SpecParse::Fail { err },
            SpecParse::Found { next: n1, val: red } => match spec_parse_hex_byte(s, n1) {
                SpecParse::Fail { err } => SpecParse::Fail { err },
                SpecParse::Found { next: n2, val: green } => match spec_parse_hex_byte(s, n2) {
                    SpecParse::Fail { err } => SpecParse::Fail { err },
                    SpecParse::Found { next: n3, val: blue } => SpecParse::Found {
                        next: n3,
                        val: Color {
                            red: red as u8,
                            green: green as u8,
                            blue: blue as u8,
                        },
                    },
                },
            },
        }
    }
}

/// Consume a leading `#RRGGBB` color triple of `input`, returning the
/// unconsumed suffix beside the decoded color.
pub fn hex_color(input: &str) -> (r: Result<(&str, Color), ParseError>)
    ensures
        match r {
            Ok((rem, c)) => spec_hex_color(input@) == (SpecParse::Found {
                next: input@.len() - rem@.len(),
                val: c,
            }) && rem@ == input@.subrange(input@.len() - rem@.len(), input@.len() as int),
            Err(e) => spec_hex_color(input@) == (SpecParse::<Color>::Fail { err: e.view() }),
        },
{
    let n = input.unicode_len();
    if n == 0 {
        return Err(ParseError::UnexpectedToken { expected: Token::Hash, pos: 0 });
    }
    let c0 = input.get_char(0);
    if c0 != '#' {
        return Err(ParseError::UnexpectedToken { expected: Token::Hash, pos: 0 });
    }
    let (p1, red) = match parse_hex_byte_at(input, 1) {
        Ok(x) => x,
        Err(e) => {
            return Err(e);
        },
    };
    let (p2, green) = match parse_hex_byte_at(input, p1) {
        Ok(x) => x,
        Err(e) => {
            return Err(e);
        },
    };
    let (p3, blue) = match parse_hex_byte_at(input, p2) {
        Ok(x) => x,
        Err(e) => {
            return Err(e);
        },
    };
    let rem = input.substring_char(p3, n);
    Ok((rem, Color { red, green, blue }))
}

} // verus!
