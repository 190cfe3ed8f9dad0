use vstd::prelude::*;
use vstd::slice::slice_subrange;
use super::token::{Keyword, Token, TokenKind, TokenKindView, TokenSpan, keyword_from_bytes, keyword_of};

verus! {

/// The bytes that the lexer looks for.
pub const SPACE: u8 = 32;
pub const TAB: u8 = 9;
pub const CARRIAGE_RETURN: u8 = 13;
pub const NEWLINE: u8 = 10;
pub const SEMICOLON: u8 = 59;
pub const COLON: u8 = 58;
pub const DOT: u8 = 46;
pub const MINUS: u8 = 45;
pub const PERCENT: u8 = 37;
pub const BACKTICK: u8 = 96;
pub const QUOTE: u8 = 39;
pub const UNDERSCORE: u8 = 95;

// ===== Character classes

pub open spec fn spec_is_integer(ch: u8) -> bool {
    48 <= ch <= 57
}

pub open spec fn spec_is_identifier_begin(ch: u8) -> bool {
    (97 <= ch <= 122) || (65 <= ch <= 90) || ch == UNDERSCORE
}

pub open spec fn spec_is_identifier_char(ch: u8) -> bool {
    spec_is_identifier_begin(ch) || spec_is_integer(ch)
}

/// A decimal digit.
pub fn is_integer(ch: u8) -> (r: bool)
    ensures
        r == spec_is_integer(ch),
{
    ch >= 48 && ch <= 57
}

/// A letter or an underscore.
pub fn is_identifier_begin(ch: u8) -> (r: bool)
    ensures
        r == spec_is_identifier_begin(ch),
{
    (ch >= 97 && ch <= 122) || (ch >= 65 && ch <= 90) || (ch == UNDERSCORE)
}

/// A letter, an underscore or a digit.
pub fn is_identifier_char(ch: u8) -> (r: bool)
    ensures
        r == spec_is_identifier_char(ch),
{
    is_identifier_begin(ch) || is_integer(ch)
}

// ===== Runs of bytes

/// The end of the run of identifier characters that starts at `i`.
pub open spec fn ident_run_end(s: Seq<u8>, i: int) -> int
    decreases s.len() - i,
{
    if 0 <= i < s.len() && spec_is_identifier_char(s[i]) {
        ident_run_end(s, i + 1)
    } else {
        i
    }
}

/// The end of the run of digits that starts at `i`.
pub open spec fn digit_run_end(s: Seq<u8>, i: int) -> int
    decreases s.len() - i,
{
    if 0 <= i < s.len() && spec_is_integer(s[i]) {
        digit_run_end(s, i + 1)
    } else {
        i
    }
}

/// The end of a line comment's text that starts at `i`: the next newline or
/// the end of the input.
pub open spec fn comment_run_end(s: Seq<u8>, i: int) -> int
    decreases s.len() - i,
{
    if 0 <= i < s.len() && s[i] != NEWLINE {
        comment_run_end(s, i + 1)
    } else {
        i
    }
}

pub proof fn lemma_ident_run_end(s: Seq<u8>, i: int)
    requires
        0 <= i <= s.len(),
    ensures
        i <= ident_run_end(s, i) <= s.len(),
        forall|j: int| i <= j < ident_run_end(s, i) ==> spec_is_identifier_char(#[trigger] s[j]),
        ident_run_end(s, i) < s.len() ==> !spec_is_identifier_char(s[ident_run_end(s, i)]),
    decreases s.len() - i,
{
    if i < s.len() && spec_is_identifier_char(s[i]) {
        lemma_ident_run_end(s, i + 1);
    }
}

pub proof fn lemma_digit_run_end(s: Seq<u8>, i: int)
    requires
        0 <= i <= s.len(),
    ensures
        i <= digit_run_end(s, i) <= s.len(),
        forall|j: int| i <= j < digit_run_end(s, i) ==> spec_is_integer(#[trigger] s[j]),
        digit_run_end(s, i) < s.len() ==> !spec_is_integer(s[digit_run_end(s, i)]),
    decreases s.len() - i,
{
    if i < s.len() && spec_is_integer(s[i]) {
        lemma_digit_run_end(s, i + 1);
    }
}

pub proof fn lemma_comment_run_end(s: Seq<u8>, i: int)
    requires
        0 <= i <= s.len(),
    ensures
        i <= comment_run_end(s, i) <= s.len(),
    decreases s.len() - i,
{
    if i < s.len() && s[i] != NEWLINE {
        lemma_comment_run_end(s, i + 1);
    }
}

fn ident_run(s: &[u8], i: usize) -> (r: usize)
    requires
        i <= s@.len(),
    ensures
        r == ident_run_end(s@, i as int),
{
    let mut j = i;
    while j < s.len() && is_identifier_char(s[j])
        invariant
            i <= j <= s@.len(),
            ident_run_end(s@, j as int) == ident_run_end(s@, i as int),
        decreases s@.len() - j,
    {
        j = j + 1;
    }
    j
}

fn digit_run(s: &[u8], i: usize) -> (r: usize)
    requires
        i <= s@.len(),
    ensures
        r == digit_run_end(s@, i as int),
{
    let mut j = i;
    while j < s.len() && is_integer(s[j])
        invariant
            i <= j <= s@.len(),
            digit_run_end(s@, j as int) == digit_run_end(s@, i as int),
        decreases s@.len() - j,
    {
        j = j + 1;
    }
    j
}

fn comment_run(s: &[u8], i: usize) -> (r: usize)
    requires
        i <= s@.len(),
    ensures
        r == comment_run_end(s@, i as int),
{
    let mut j = i;
    while j < s.len() && s[j] != NEWLINE
        invariant
            i <= j <= s@.len(),
            comment_run_end(s@, j as int) == comment_run_end(s@, i as int),
        decreases s@.len() - j,
    {
        j = j + 1;
    }
    j
}

// ===== Whitespace

/// Whether a line comment starts at `i`: a `#` that is followed by the end
/// of the input or by anything but a newline.
pub open spec fn comment_starts(s: Seq<u8>, i: int) -> bool {
    0 <= i < s.len() && s[i] == 35 && (i + 1 == s.len() || s[i + 1] != NEWLINE)
}

/// Skips whitespace and line comments from `i`, counting the newlines passed
/// and the columns taken since the last of them (a space takes one column,
/// a tab two, a carriage return and a comment none). Returns the position
/// after the whitespace and the two counts.
pub open spec fn ws_scan(s: Seq<u8>, i: int, lines: nat, cols: nat) -> (int, nat, nat)
    decreases s.len() - i,
{
    if 0 <= i < s.len() {
        let c = s[i];
        if c == SPACE {
            ws_scan(s, i + 1, lines, cols + 1)
        } else if c == TAB {
            ws_scan(s, i + 1, lines, cols + 2)
        } else if c == CARRIAGE_RETURN {
            ws_scan(s, i + 1, lines, cols)
        } else if c == NEWLINE {
            ws_scan(s, i + 1, lines + 1, 0)
        } else if comment_starts(s, i) {
            proof {
                lemma_comment_run_end(s, i + 1);
            }
            ws_scan(s, comment_run_end(s, i + 1), lines, cols)
        } else {
            (i, lines, cols)
        }
    } else {
        (i, lines, cols)
    }
}

pub proof fn lemma_ws_scan_bounds(s: Seq<u8>, i: int, lines: nat, cols: nat)
    requires
        0 <= i <= s.len(),
    ensures
        i <= ws_scan(s, i, lines, cols).0 <= s.len(),
        ws_scan(s, i, lines, cols).1 <= lines + (ws_scan(s, i, lines, cols).0 - i),
        ws_scan(s, i, lines, cols).2 <= cols + 2 * (ws_scan(s, i, lines, cols).0 - i),
    decreases s.len() - i,
{
    if 0 <= i < s.len() {
        let c = s[i];
        if c == SPACE {
            lemma_ws_scan_bounds(s, i + 1, lines, cols + 1);
        } else if c == TAB {
            lemma_ws_scan_bounds(s, i + 1, lines, cols + 2);
        } else if c == CARRIAGE_RETURN {
            lemma_ws_scan_bounds(s, i + 1, lines, cols);
        } else if c == NEWLINE {
            lemma_ws_scan_bounds(s, i + 1, lines + 1, 0);
        } else if comment_starts(s, i) {
            lemma_comment_run_end(s, i + 1);
            lemma_ws_scan_bounds(s, comment_run_end(s, i + 1), lines, cols);
        }
    }
}

/// Skips the whitespace at the start of `s`. Returns the position after it,
/// the number of newlines passed and the columns taken on the last line.
fn whitespace(s: &[u8]) -> (r: (usize, usize, usize))
    requires
        s@.len() <= usize::MAX / 4,
    ensures
        r.0 as int == ws_scan(s@, 0, 0, 0).0,
        r.1 as nat == ws_scan(s@, 0, 0, 0).1,
        r.2 as nat == ws_scan(s@, 0, 0, 0).2,
        r.1 <= r.0,
        r.2 <= 2 * r.0,
        r.0 <= s@.len(),
{
    let mut i: usize = 0;
    let mut lines: usize = 0;
    let mut cols: usize = 0;
    proof {
        lemma_ws_scan_bounds(s@, 0, 0, 0);
    }
    loop
        invariant
            i <= s@.len() <= usize::MAX / 4,
            lines <= i,
            cols <= 2 * i,
            ws_scan(s@, i as int, lines as nat, cols as nat) == ws_scan(s@, 0, 0, 0),
        ensures
            i <= s@.len(),
            lines <= i,
            cols <= 2 * i,
            ws_scan(s@, 0, 0, 0) == (i as int, lines as nat, cols as nat),
        decreases s@.len() - i,
    {
        if i >= s.len() {
            assert(ws_scan(s@, i as int, lines as nat, cols as nat) == (i as int, lines as nat, cols as nat));
            break;
        }
        let c = s[i];
        if c == SPACE {
            cols = cols + 1;
            i = i + 1;
        } else if c == TAB {
            cols = cols + 2;
            i = i + 1;
        } else if c == CARRIAGE_RETURN {
            i = i + 1;
        } else if c == NEWLINE {
            lines = lines + 1;
            cols = 0;
            i = i + 1;
        } else if c == 35 && (i + 1 == s.len() || s[i + 1] != NEWLINE) {
            proof {
                lemma_comment_run_end(s@, i + 1);
            }
            i = comment_run(s, i + 1);
        } else {
            assert(ws_scan(s@, i as int, lines as nat, cols as nat) == (i as int, lines as nat, cols as nat));
            break;
        }
    }
    proof {
        lemma_ws_scan_bounds(s@, 0, 0, 0);
    }
    (i, lines, cols)
}

// ===== Tokens

/// An operator at `p`, with its kind and the position after it. A two-byte
/// operator (`!=`, `<=`, `>=`) is read whole before its first byte alone.
pub open spec fn spec_operator(s: Seq<u8>, p: int) -> Option<(TokenKindView, int)> {
    if !(0 <= p < s.len()) {
        None
    } else {
        let c = s[p];
        if c == SEMICOLON {
            Some((TokenKindView::Semicolon, p + 1))
        }
        else if c == COLON {
            Some((TokenKindView::Colon, p + 1))
        }
        else if c == DOT {
            Some((TokenKindView::Dot, p + 1))
        }
        else if c == 44 {
            Some((TokenKindView::Comma, p + 1))
        }
        else if c == 40 {
            Some((TokenKindView::LParen, p + 1))
        }
        else if c == 41 {
            Some((TokenKindView::RParen, p + 1))
        }
        else if c == 91 {
            Some((TokenKindView::LSquareBracket, p + 1))
        }
        else if c == 93 {
            Some((TokenKindView::RSquareBracket, p + 1))
        }
        else if c == MINUS {
            Some((TokenKindView::Minus, p + 1))
        }
        else if c == 43 {
            Some((TokenKindView::Plus, p + 1))
        }
        else if c == 42 {
            Some((TokenKindView::Multiply, p + 1))
        }
        else if c == 47 {
            Some((TokenKindView::Divide, p + 1))
        }
        else if c == 94 {
            Some((TokenKindView::Caret, p + 1))
        }
        else if c == 61 {
            Some((TokenKindView::Equal, p + 1))
        }
        else if c == 33 && p + 1 < s.len() && s[p + 1] == 61 {
            Some((TokenKindView::NotEqual, p + 2))
        }
        else if c == 60 && p + 1 < s.len() && s[p + 1] == 61 {
            Some((TokenKindView::LessEqual, p + 2))
        }
        else if c == 62 && p + 1 < s.len() && s[p + 1] == 61 {
            Some((TokenKindView::GreaterEqual, p + 2))
        }
        else if c == 60 {
            Some((TokenKindView::Less, p + 1))
        }
        else if c == 62 {
            Some((TokenKindView::Greater, p + 1))
        }
        else if c == PERCENT {
            Some((TokenKindView::PercentSign, p + 1))
        }
        else if c == 33 {
            Some((TokenKindView::Exclamation, p + 1))
        } else {
            None
        }
    }
}

/// A regular identifier at `p` (a letter or underscore, then letters,
/// underscores and digits) or an escaped one (a backquote, then at least one identifier character).
/// A regular identifier that spells a keyword is that keyword.
pub open spec fn spec_identifier(s: Seq<u8>, p: int) -> Option<(TokenKindView, int)> {
    if !(0 <= p < s.len()) {
        None
    } else if spec_is_identifier_begin(s[p]) {
        let e = ident_run_end(s, p + 1);
        let id = s.subrange(p, e);
        let kind = match keyword_of(id) {
            Some(k) => TokenKindView::Keyword(k),
            None => TokenKindView::Identifier(id),
        };
        Some((kind, e))
    } else if s[p] == BACKTICK && p + 1 < s.len() && spec_is_identifier_char(s[p + 1]) {
        let e = ident_run_end(s, p + 1);
        Some((TokenKindView::Identifier(s.subrange(p + 1, e)), e))
    } else {
        None
    }
}

/// The value of a sequence of decimal digits.
pub open spec fn digits_value(s: Seq<u8>) -> nat
    decreases s.len(),
{
    if s.len() == 0 {
        0
    } else {
        digits_value(s.drop_last()) * 10 + (s.last() - 48) as nat
    }
}

/// The end of the fraction part of a number whose digits end at `d`: a point
/// followed by at least one digit, else nothing.
pub open spec fn fraction_end(s: Seq<u8>, d: int) -> int {
    if 0 <= d && d + 1 < s.len() && s[d] == DOT && spec_is_integer(s[d + 1]) {
        digit_run_end(s, d + 1)
    } else {
        d
    }
}

/// A number at `p`: digits, an optional fraction and an optional `%`.
/// With a `%` it is a percentage, else with a fraction a decimal, else an
/// integer.
pub open spec fn spec_number(s: Seq<u8>, p: int) -> Option<(TokenKindView, int)> {
    if !(0 <= p < s.len()) || !spec_is_integer(s[p]) {
        None
    } else {
        let d = digit_run_end(s, p);
        let e = fraction_end(s, d);
        if e < s.len() && s[e] == PERCENT {
            Some((TokenKindView::Percentage(s.subrange(p, e)), e + 1))
        } else if e > d {
            Some((TokenKindView::Decimal(s.subrange(p, e)), e))
        } else {
            Some((TokenKindView::Integer(digits_value(s.subrange(p, d)) as int), e))
        }
    }
}

/// The end of the body of a string whose opening quote is just before `i`:
/// a doubled quote stands for a quote; a single quote, a newline or the end
/// of the input ends the body.
pub open spec fn string_body_end(s: Seq<u8>, i: int) -> int
    decreases s.len() - i,
{
    if 0 <= i < s.len() {
        if s[i] == QUOTE {
            if i + 1 < s.len() && s[i + 1] == QUOTE {
                string_body_end(s, i + 2)
            } else {
                i
            }
        } else if s[i] == NEWLINE {
            i
        } else {
            string_body_end(s, i + 1)
        }
    } else {
        i
    }
}

/// A string at `p`: a quote, the body, and a closing quote. Without the
/// closing quote there is no string.
pub open spec fn spec_string(s: Seq<u8>, p: int) -> Option<(TokenKindView, int)> {
    if 0 <= p < s.len() && s[p] == QUOTE {
        let q = string_body_end(s, p + 1);
        if q < s.len() && s[q] == QUOTE {
            Some((TokenKindView::String(s.subrange(p + 1, q)), q + 1))
        } else {
            None
        }
    } else {
        None
    }
}

/// The token at `p` and the position after it: an operator, an identifier
/// or keyword, a number or a string, tried in that order; the end of input;
/// else the single byte at `p` as an invalid character.
pub open spec fn lex_token(s: Seq<u8>, p: int) -> (TokenKindView, int) {
    if let Some(r) = spec_operator(s, p) {
        r
    } else if let Some(r) = spec_identifier(s, p) {
        r
    } else if let Some(r) = spec_number(s, p) {
        r
    } else if let Some(r) = spec_string(s, p) {
        r
    } else if p >= s.len() {
        (TokenKindView::Eof, p)
    } else {
        (TokenKindView::Invalid(s[p] as char), p + 1)
    }
}

/// Whether the integer that the next token of `s` would be, if it is one,
/// fits in an `i64`.
pub open spec fn lex_fits(s: Seq<u8>) -> bool {
    match lex_token(s, ws_scan(s, 0, 0, 0).0).0 {
        TokenKindView::Integer(v) => v <= i64::MAX,
        _ => true,
    }
}

/// A lexed token kind and the position after it, taken as plain values.
pub open spec fn lexed_view<'a>(r: Option<(TokenKind<'a>, usize)>) -> Option<(TokenKindView, int)> {
    match r {
        Some((k, e)) => Some((k@, e as int)),
        None => None,
    }
}

fn operator<'a>(s: &'a [u8], p: usize) -> (r: Option<(TokenKind<'a>, usize)>)
    requires
        p <= s@.len(),
    ensures
        lexed_view(r) == spec_operator(s@, p as int),
{
    if p >= s.len() {
        return None;
    }
    let c = s[p];
    if c == SEMICOLON {
        Some((TokenKind::Semicolon, p + 1))
    }
    else if c == COLON {
        Some((TokenKind::Colon, p + 1))
    }
    else if c == DOT {
        Some((TokenKind::Dot, p + 1))
    }
    else if c == 44 {
        Some((TokenKind::Comma, p + 1))
    }
    else if c == 40 {
        Some((TokenKind::LParen, p + 1))
    }
    else if c == 41 {
        Some((TokenKind::RParen, p + 1))
    }
    else if c == 91 {
        Some((TokenKind::LSquareBracket, p + 1))
    }
    else if c == 93 {
        Some((TokenKind::RSquareBracket, p + 1))
    }
    else if c == MINUS {
        Some((TokenKind::Minus, p + 1))
    }
    else if c == 43 {
        Some((TokenKind::Plus, p + 1))
    }
    else if c == 42 {
        Some((TokenKind::Multiply, p + 1))
    }
    else if c == 47 {
        Some((TokenKind::Divide, p + 1))
    }
    else if c == 94 {
        Some((TokenKind::Caret, p + 1))
    }
    else if c == 61 {
        Some((TokenKind::Equal, p + 1))
    }
    else if c == 33 && p + 1 < s.len() && s[p + 1] == 61 {
        Some((TokenKind::NotEqual, p + 2))
    }
    else if c == 60 && p + 1 < s.len() && s[p + 1] == 61 {
        Some((TokenKind::LessEqual, p + 2))
    }
    else if c == 62 && p + 1 < s.len() && s[p + 1] == 61 {
        Some((TokenKind::GreaterEqual, p + 2))
    }
    else if c == 60 {
        Some((TokenKind::Less, p + 1))
    }
    else if c == 62 {
        Some((TokenKind::Greater, p + 1))
    }
    else if c == PERCENT {
        Some((TokenKind::PercentSign, p + 1))
    }
    else if c == 33 {
        Some((TokenKind::Exclamation, p + 1))
    } else {
        None
    }
}

/// The identifier or keyword that `chars` spells.
pub fn get_id_or_keyword<'a>(chars: &'a [u8]) -> (r: TokenKind<'a>)
    ensures
        r@ == match keyword_of(chars@) {
            Some(k) => TokenKindView::Keyword(k),
            None => TokenKindView::Identifier(chars@),
        },
{
    match keyword_from_bytes(chars) {
        Some(k) => TokenKind::Keyword(k),
        None => TokenKind::Identifier(chars),
    }
}

fn identifier<'a>(s: &'a [u8], p: usize) -> (r: Option<(TokenKind<'a>, usize)>)
    requires
        p <= s@.len(),
    ensures
        lexed_view(r) == spec_identifier(s@, p as int),
{
    if p >= s.len() {
        return None;
    }
    if is_identifier_begin(s[p]) {
        proof {
            lemma_ident_run_end(s@, p + 1);
        }
        let e = ident_run(s, p + 1);
        let kind = get_id_or_keyword(slice_subrange(s, p, e));
        Some((kind, e))
    } else if s[p] == BACKTICK && p + 1 < s.len() && is_identifier_char(s[p + 1]) {
        proof {
            lemma_ident_run_end(s@, p + 1);
        }
        let e = ident_run(s, p + 1);
        Some((TokenKind::Identifier(slice_subrange(s, p + 1, e)), e))
    } else {
        None
    }
}

/// Reading more digits never makes a number smaller.
pub proof fn lemma_digits_value_prefix(s: Seq<u8>, i: int, j: int)
    requires
        0 <= i <= j <= s.len(),
        forall|k: int| 0 <= k < s.len() ==> spec_is_integer(#[trigger] s[k]),
    ensures
        digits_value(s.take(i)) <= digits_value(s.take(j)),
    decreases j - i,
{
    if i < j {
        lemma_digits_value_prefix(s, i, j - 1);
        assert(s.take(j).drop_last() =~= s.take(j - 1));
    }
}

/// The value of the digits `s[from..to]`.
fn parse_integer(s: &[u8], from: usize, to: usize) -> (r: i64)
    requires
        from <= to <= s@.len(),
        forall|k: int| from <= k < to ==> spec_is_integer(#[trigger] s@[k]),
        digits_value(s@.subrange(from as int, to as int)) <= i64::MAX,
    ensures
        r as int == digits_value(s@.subrange(from as int, to as int)),
{
    let ghost d = s@.subrange(from as int, to as int);
    let mut v: i64 = 0;
    let mut i = from;
    assert(d.take(0) =~= Seq::<u8>::empty());
    while i < to
        invariant
            from <= i <= to <= s@.len(),
            d == s@.subrange(from as int, to as int),
            forall|k: int| from <= k < to ==> spec_is_integer(#[trigger] s@[k]),
            digits_value(d) <= i64::MAX,
            v as int == digits_value(d.take(i - from)),
        decreases to - i,
    {
        proof {
            assert forall|k: int| 0 <= k < d.len() implies spec_is_integer(#[trigger] d[k]) by {
                assert(d[k] == s@[from + k]);
            }
            lemma_digits_value_prefix(d, i - from + 1, d.len() as int);
            assert(d.take(d.len() as int) =~= d);
            assert(d.take(i - from + 1).drop_last() =~= d.take(i - from));
            assert(d.take(i - from + 1).last() == s@[i as int]);
        }
        let digit = (s[i] - 48) as i64;
        v = v * 10 + digit;
        i = i + 1;
    }
    assert(d.take(to - from) =~= d);
    v
}

fn number<'a>(s: &'a [u8], p: usize) -> (r: Option<(TokenKind<'a>, usize)>)
    requires
        p <= s@.len(),
        spec_number(s@, p as int) matches Some((TokenKindView::Integer(v), _)) ==> v <= i64::MAX,
    ensures
        lexed_view(r) == spec_number(s@, p as int),
{
    if p >= s.len() || !is_integer(s[p]) {
        return None;
    }
    proof {
        lemma_digit_run_end(s@, p as int);
    }
    let d = digit_run(s, p);
    let e = if d < s.len() && d + 1 < s.len() && s[d] == DOT && is_integer(s[d + 1]) {
        proof {
            lemma_digit_run_end(s@, d + 1);
        }
        digit_run(s, d + 1)
    } else {
        d
    };
    if e < s.len() && s[e] == PERCENT {
        Some((TokenKind::Percentage(slice_subrange(s, p, e)), e + 1))
    } else if e > d {
        Some((TokenKind::Decimal(slice_subrange(s, p, e)), e))
    } else {
        Some((TokenKind::Integer(parse_integer(s, p, d)), e))
    }
}

pub proof fn lemma_string_body_end(s: Seq<u8>, i: int)
    requires
        0 <= i <= s.len(),
    ensures
        i <= string_body_end(s, i) <= s.len(),
    decreases s.len() - i,
{
    if 0 <= i < s.len() {
        if s[i] == QUOTE {
            if i + 1 < s.len() && s[i + 1] == QUOTE {
                lemma_string_body_end(s, i + 2);
            }
        } else if s[i] != NEWLINE {
            lemma_string_body_end(s, i + 1);
        }
    }
}

/// One step of a string's body at `inp[i]`: a doubled quote or any byte but
/// a quote or a newline is taken; the step says how many bytes, or none when
/// the body ends here.
fn string_mid(inp: &[u8], i: usize) -> (r: Option<usize>)
    requires
        i < inp@.len(),
    ensures
        match r {
            Some(n) => (n == 2 && inp@[i as int] == QUOTE && i + 1 < inp@.len() && inp@[i + 1] == QUOTE)
                || (n == 1 && inp@[i as int] != QUOTE && inp@[i as int] != NEWLINE),
            None => (inp@[i as int] == QUOTE && !(i + 1 < inp@.len() && inp@[i + 1] == QUOTE))
                || inp@[i as int] == NEWLINE,
        },
{
    let len = inp.len();
    let quote = inp[i] == QUOTE;
    let dbl_quote = i + 1 < len && inp[i + 1] == QUOTE;
    if quote {
        if dbl_quote {
            Some(2)
        } else {
            None
        }
    } else if inp[i] == NEWLINE {
        None
    } else {
        Some(1)
    }
}

fn string<'a>(s: &'a [u8], p: usize) -> (r: Option<(TokenKind<'a>, usize)>)
    requires
        p <= s@.len(),
    ensures
        lexed_view(r) == spec_string(s@, p as int),
{
    if p >= s.len() || s[p] != QUOTE {
        return None;
    }
    let mut q = p + 1;
    loop
        invariant
            p < q <= s@.len(),
            s@[p as int] == QUOTE,
            string_body_end(s@, q as int) == string_body_end(s@, p + 1),
        ensures
            p < q <= s@.len(),
            q as int == string_body_end(s@, p + 1),
        decreases s@.len() - q,
    {
        if q >= s.len() {
            break;
        }
        match string_mid(s, q) {
            Some(n) => {
                q = q + n;
            },
            None => {
                break;
            },
        }
    }
    if q < s.len() && s[q] == QUOTE {
        Some((TokenKind::String(slice_subrange(s, p + 1, q)), q + 1))
    } else {
        None
    }
}

/// Lexes one token of `s`: skips the whitespace, then reads the token.
/// Returns the input after the token, and the newlines and columns of the
/// whitespace, the token's length and its kind.
fn lex_one_token<'a>(s: &'a [u8]) -> (r: (&'a [u8], (usize, usize, usize, TokenKind<'a>)))
    requires
        s@.len() <= usize::MAX / 4,
        lex_fits(s@),
    ensures
        ({
            let (p, wl, wc) = ws_scan(s@, 0, 0, 0);
            let (k, e) = lex_token(s@, p);
            &&& r.0@ == s@.skip(e)
            &&& r.1.0 as nat == wl
            &&& r.1.1 as nat == wc
            &&& r.1.2 as int == e - p
            &&& r.1.3@ == k
            &&& p <= e <= s@.len()
            &&& wl <= p
            &&& wc <= 2 * p
        }),
{
    let (p, ws_lines, ws_cols) = whitespace(s);
    let (kind, end) = if let Some(t) = operator(s, p) {
        t
    } else if let Some(t) = identifier(s, p) {
        t
    } else if let Some(t) = number(s, p) {
        t
    } else if let Some(t) = string(s, p) {
        t
    } else if p >= s.len() {
        (TokenKind::Eof, p)
    } else {
        (TokenKind::Invalid(s[p] as char), p + 1)
    };
    proof {
        if p < s@.len() {
            lemma_ident_run_end(s@, p + 1);
            lemma_string_body_end(s@, p + 1);
        }
        lemma_digit_run_end(s@, p as int);
        let d = digit_run_end(s@, p as int);
        if 0 <= d && d + 1 < s@.len() && s@[d] == DOT && spec_is_integer(s@[d + 1]) {
            lemma_digit_run_end(s@, d + 1);
        }
    }
    let len = s.len();
    (slice_subrange(s, end, len), (ws_lines, ws_cols, end - p, kind))
}

/// Lexes the next token of `inp`, placing it after the token whose span is
/// `last_token_span`: the lines of the whitespace before it are added to the
/// last line, and its first column follows the last token's end, or, after a
/// newline, the columns of the whitespace on the new line.
pub fn next_token<'a>(inp: &'a [u8], last_token_span: &TokenSpan) -> (r: (&'a [u8], Token<'a>))
    requires
        inp@.len() <= usize::MAX / 4,
        last_token_span.line + inp@.len() <= usize::MAX,
        last_token_span.end + 2 * inp@.len() + 1 <= usize::MAX,
        lex_fits(inp@),
    ensures
        ({
            let (p, wl, wc) = ws_scan(inp@, 0, 0, 0);
            let (k, e) = lex_token(inp@, p);
            let start = wc + if wl > 0 { 1 } else { last_token_span.end as int };
            &&& r.0@ == inp@.skip(e)
            &&& r.1.kind@ == k
            &&& r.1.span.filename == last_token_span.filename
            &&& r.1.span.line == last_token_span.line + wl
            &&& r.1.span.end_line == r.1.span.line
            &&& r.1.span.start == start
            &&& r.1.span.end == start + (e - p)
        }),
{
    let (next_inp, outp) = lex_one_token(inp);
    let (ws_lines, ws_cols, tok_len, tok_kind) = outp;
    let start_col = ws_cols + if ws_lines > 0 {
        1
    } else {
        last_token_span.end
    };
    let end_col = start_col + tok_len;
    let line = last_token_span.line + ws_lines;
    let span = TokenSpan::with_position(last_token_span.filename.clone(), line, start_col, end_col);
    (next_inp, Token::new(tok_kind, span))
}

/// Lexing always makes progress: after the whitespace, the end of input is
/// read as `Eof` and takes no bytes; anything else is read as a token of at
/// least one byte that lies within the input.
pub proof fn lemma_lex_progress(s: Seq<u8>)
    ensures
        ({
            let p = ws_scan(s, 0, 0, 0).0;
            let (k, e) = lex_token(s, p);
            &&& 0 <= p <= e <= s.len()
            &&& (k is Eof <==> p == s.len())
            &&& (k is Eof <==> e == p)
        }),
{
    lemma_ws_scan_bounds(s, 0, 0, 0);
    let p = ws_scan(s, 0, 0, 0).0;
    if p < s.len() {
        lemma_ident_run_end(s, p + 1);
        lemma_string_body_end(s, p + 1);
        lemma_digit_run_end(s, p);
        let d = digit_run_end(s, p);
        if 0 <= d && d + 1 < s.len() && s[d] == DOT && spec_is_integer(s[d + 1]) {
            lemma_digit_run_end(s, d + 1);
        }
    }
}

/// Operators lex by their spelling. After the blanks and comments, a `;`,
/// `:`, `.`, `,`, `(`, `)`, `[`, `]`, `-`, `+`, `*`, `/`, `^`, `%` or `=` is
/// that one-byte operator; a `<`, `>` or `!` followed by `=` is the
/// two-byte operator `<=`, `>=` or `!=`, and otherwise the one-byte `<`, `>`
/// or `!`. The rest of the input starts right after the operator.
pub proof fn lemma_operator_tokens(s: Seq<u8>)
    ensures
        ({
            let p = ws_scan(s, 0, 0, 0).0;
            let followed_by_eq = p + 1 < s.len() && s[p + 1] == 61;
            p < s.len() ==> {
            &&& s[p] == 59 ==> next_kind(s) == TokenKindView::Semicolon && next_rest(s) == s.skip(p + 1)
            &&& s[p] == 58 ==> next_kind(s) == TokenKindView::Colon && next_rest(s) == s.skip(p + 1)
            &&& s[p] == 46 ==> next_kind(s) == TokenKindView::Dot && next_rest(s) == s.skip(p + 1)
            &&& s[p] == 44 ==> next_kind(s) == TokenKindView::Comma && next_rest(s) == s.skip(p + 1)
            &&& s[p] == 40 ==> next_kind(s) == TokenKindView::LParen && next_rest(s) == s.skip(p + 1)
            &&& s[p] == 41 ==> next_kind(s) == TokenKindView::RParen && next_rest(s) == s.skip(p + 1)
            &&& s[p] == 91 ==> next_kind(s) == TokenKindView::LSquareBracket && next_rest(s) == s.skip(p + 1)
            &&& s[p] == 93 ==> next_kind(s) == TokenKindView::RSquareBracket && next_rest(s) == s.skip(p + 1)
            &&& s[p] == 45 ==> next_kind(s) == TokenKindView::Minus && next_rest(s) == s.skip(p + 1)
            &&& s[p] == 43 ==> next_kind(s) == TokenKindView::Plus && next_rest(s) == s.skip(p + 1)
            &&& s[p] == 42 ==> next_kind(s) == TokenKindView::Multiply && next_rest(s) == s.skip(p + 1)
            &&& s[p] == 47 ==> next_kind(s) == TokenKindView::Divide && next_rest(s) == s.skip(p + 1)
            &&& s[p] == 94 ==> next_kind(s) == TokenKindView::Caret && next_rest(s) == s.skip(p + 1)
            &&& s[p] == 37 ==> next_kind(s) == TokenKindView::PercentSign && next_rest(s) == s.skip(p + 1)
            &&& s[p] == 61 ==> next_kind(s) == TokenKindView::Equal && next_rest(s) == s.skip(p + 1)
            &&& (s[p] == 60 && !followed_by_eq) ==> next_kind(s) == TokenKindView::Less && next_rest(s) == s.skip(p + 1)
            &&& (s[p] == 60 && followed_by_eq) ==> next_kind(s) == TokenKindView::LessEqual && next_rest(s) == s.skip(p + 2)
            &&& (s[p] == 62 && !followed_by_eq) ==> next_kind(s) == TokenKindView::Greater && next_rest(s) == s.skip(p + 1)
            &&& (s[p] == 62 && followed_by_eq) ==> next_kind(s) == TokenKindView::GreaterEqual && next_rest(s) == s.skip(p + 2)
            &&& (s[p] == 33 && !followed_by_eq) ==> next_kind(s) == TokenKindView::Exclamation && next_rest(s) == s.skip(p + 1)
            &&& (s[p] == 33 && followed_by_eq) ==> next_kind(s) == TokenKindView::NotEqual && next_rest(s) == s.skip(p + 2)
            }
        }),
{
    lemma_ws_scan_bounds(s, 0, 0, 0);
}

/// Whether every integer of the input fits in an `i64`: the next token's,
/// and then every later token's.
pub open spec fn all_fit(s: Seq<u8>) -> bool
    decreases s.len(),
{
    lex_fits(s) && {
        let e = lex_token(s, ws_scan(s, 0, 0, 0).0).1;
        if 0 < e <= s.len() {
            all_fit(s.skip(e))
        } else {
            true
        }
    }
}

/// The kind of the next token of the input.
pub open spec fn next_kind(s: Seq<u8>) -> TokenKindView {
    lex_token(s, ws_scan(s, 0, 0, 0).0).0
}

/// The input after the next token.
pub open spec fn next_rest(s: Seq<u8>) -> Seq<u8> {
    s.skip(lex_token(s, ws_scan(s, 0, 0, 0).0).1)
}

/// The span of the next token, placed after the token whose span is `last`.
pub open spec fn next_span(s: Seq<u8>, last: TokenSpan) -> TokenSpan {
    let (p, wl, wc) = ws_scan(s, 0, 0, 0);
    let e = lex_token(s, p).1;
    let start = wc + if wl > 0 { 1 } else { last.end as int };
    TokenSpan {
        filename: last.filename,
        line: (last.line + wl) as usize,
        end_line: (last.line + wl) as usize,
        start: start as usize,
        end: (start + (e - p)) as usize,
    }
}

/// Whether the next integer of the input, if the next token is one, fits in
/// an `i64`.
pub fn next_token_fits(s: &[u8]) -> (r: bool)
    requires
        s@.len() <= usize::MAX / 4,
    ensures
        r == lex_fits(s@),
{
    let (p, _, _) = whitespace(s);
    proof {
        if p < s@.len() {
            lemma_ident_run_end(s@, p + 1);
            lemma_string_body_end(s@, p + 1);
        }
        lemma_digit_run_end(s@, p as int);
    }
    if operator(s, p).is_some() || identifier(s, p).is_some() {
        return true;
    }
    if p >= s.len() || !is_integer(s[p]) {
        proof {
            if p < s@.len() {
                assert(spec_number(s@, p as int) is None);
            }
        }
        return true;
    }
    let d = digit_run(s, p);
    if d < s.len() && d + 1 < s.len() && s[d] == DOT && is_integer(s[d + 1]) {
        proof {
            lemma_digit_run_end(s@, d + 1);
        }
        return true;
    }
    if d < s.len() && s[d] == PERCENT {
        return true;
    }
    digits_fit(s, p, d)
}

/// Whether the value of the digits `s[from..to]` is at most `i64::MAX`.
fn digits_fit(s: &[u8], from: usize, to: usize) -> (r: bool)
    requires
        from <= to <= s@.len(),
        forall|k: int| from <= k < to ==> spec_is_integer(#[trigger] s@[k]),
    ensures
        r == (digits_value(s@.subrange(from as int, to as int)) <= i64::MAX),
{
    let ghost d = s@.subrange(from as int, to as int);
    let mut v: u64 = 0;
    let mut i = from;
    assert(d.take(0) =~= Seq::<u8>::empty());
    while i < to
        invariant
            from <= i <= to <= s@.len(),
            d == s@.subrange(from as int, to as int),
            forall|k: int| from <= k < to ==> spec_is_integer(#[trigger] s@[k]),
            v as int == digits_value(d.take(i - from)),
            v <= i64::MAX,
        decreases to - i,
    {
        proof {
            assert forall|k: int| 0 <= k < d.len() implies spec_is_integer(#[trigger] d[k]) by {
                assert(d[k] == s@[from + k]);
            }
            assert(d.take(i - from + 1).drop_last() =~= d.take(i - from));
            assert(d.take(i - from + 1).last() == s@[i as int]);
        }
        let digit = (s[i] - 48) as u64;
        if v > (9223372036854775807u64 - digit) / 10 {
            proof {
                lemma_digits_value_prefix(d, i - from + 1, d.len() as int);
                assert(d.take(d.len() as int) =~= d);
                assert(v * 10 + digit > 9223372036854775807) by (nonlinear_arith)
                    requires
                        v > (9223372036854775807u64 - digit) / 10,
                        digit <= 9,
                ;
            }
            return false;
        }
        v = v * 10 + digit;
        i = i + 1;
    }
    assert(d.take(to - from) =~= d);
    true
}

/// Whether every integer of the input fits in an `i64`, checked token by
/// token.
pub fn all_integers_fit(s: &[u8]) -> (r: bool)
    requires
        s@.len() <= usize::MAX / 4,
    ensures
        r == all_fit(s@),
{
    let mut rest = s;
    loop
        invariant
            rest@.len() <= s@.len() <= usize::MAX / 4,
            all_fit(s@) == all_fit(rest@),
        decreases rest@.len(),
    {
        if !next_token_fits(rest) {
            return false;
        }
        let (next, _) = lex_one_token(rest);
        proof {
            lemma_lex_progress(rest@);
        }
        if next.len() == rest.len() {
            proof {
                let e = lex_token(rest@, ws_scan(rest@, 0, 0, 0).0).1;
                assert(e == 0);
            }
            return true;
        }
        rest = next;
    }
}

} // verus!
