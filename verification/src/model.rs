//! The mathematical model of the tokenizer.
//!
//! `token_scan` says, for a scalar sequence and a starting position, where the
//! token that begins there ends and which kind it gets; it is the dispatch on
//! the first scalar, written over the class names of [`crate::classes`].
//! Span offsets are byte offsets: `byte_offset` measures a prefix of the
//! scalar sequence by the length of its UTF-8 encoding.

use crate::classes::{letter, number, punctuation, symbol, whitespace};
use crate::spanner::{TokenError, TokenKind, TokenSpan};
use vstd::prelude::*;
use vstd::utf8::{encode_scalar, encode_utf8};

verus! {

/// The scalar at position `j`, or the NUL sentinel once the input is
/// exhausted.
pub open spec fn peek_at(v: Seq<char>, j: int) -> char {
    if 0 <= j < v.len() {
        v[j]
    } else {
        '\0'
    }
}

/// A predicate over scalars that a run consumption is allowed to extend over.
pub enum CharRule {
    /// Anything but a closing double quote.
    NonQuote,
    /// Anything but a dash.
    NonDash,
    /// Anything but a line feed.
    NonNewline,
    /// A scalar that may continue an identifier.
    IdentTail,
    /// A whitespace scalar.
    White,
    /// A scalar in the number categories.
    Digit,
    /// A symbol or punctuation scalar.
    Operator,
    /// A symbol or punctuation scalar, or one fixed scalar.
    OperatorOr(char),
}

/// Whether one scalar satisfies a run rule.
pub open spec fn rule_holds(r: CharRule, c: char) -> bool {
    match r {
        CharRule::NonQuote => c != '"',
        CharRule::NonDash => c != '-',
        CharRule::NonNewline => c != '\n',
        CharRule::IdentTail => letter(c) || number(c) || c == '\'' || c == '_',
        CharRule::White => whitespace(c),
        CharRule::Digit => number(c),
        CharRule::Operator => symbol(c) || punctuation(c),
        CharRule::OperatorOr(init) => symbol(c) || punctuation(c) || c == init,
    }
}

/// The first position at or after `j` whose scalar fails the rule, or the
/// length of the input when every remaining scalar satisfies it.
pub open spec fn run_end(v: Seq<char>, j: int, r: CharRule) -> int
    decreases v.len() - j
        when 0 <= j <= v.len()
{
    if j < v.len() && rule_holds(r, v[j]) {
        run_end(v, j + 1, r)
    } else {
        j
    }
}

/// The position of the `-` of the first `-}` at or after `j`, if there is one.
pub open spec fn find_block_close(v: Seq<char>, j: int) -> Option<int>
    decreases v.len() - j
        when 0 <= j <= v.len()
{
    if j < v.len() {
        if v[j] == '-' && j + 1 < v.len() && v[j + 1] == '}' {
            Some(j)
        } else {
            find_block_close(v, j + 1)
        }
    } else {
        None
    }
}

/// The reserved single-scalar syntax set.
pub open spec fn reserved_char(c: char) -> bool {
    c == ';' || c == '(' || c == ')' || c == '[' || c == ']' || c == '{' || c == '}'
}

/// The reserved scalars that turn into a symbol run when repeated.
pub open spec fn flexible_char(c: char) -> bool {
    c == ':' || c == '=' || c == '.'
}

/// Where the token that begins at scalar position `i` ends, and its kind:
/// the dispatch on the first scalar, with the cases in the order the
/// tokenizer tries them.
pub open spec fn token_scan(v: Seq<char>, i: int) -> (int, TokenKind)
    recommends
        0 <= i < v.len(),
{
    let c = v[i];
    if c == '{' && peek_at(v, i + 1) == '-' {
        match find_block_close(v, i + 2) {
            Some(k) => (k + 2, TokenKind::CommentBlock),
            None => (v.len() as int, TokenKind::Unknown(TokenError::UnfinishedBlockComment)),
        }
    } else if c == '"' {
        let e = run_end(v, i + 1, CharRule::NonQuote);
        if e < v.len() {
            (e + 1, TokenKind::String)
        } else {
            (v.len() as int, TokenKind::Unknown(TokenError::UnfinishedString))
        }
    } else if c == '\'' {
        let p = if i + 1 < v.len() {
            i + 2
        } else {
            i + 1
        };
        if peek_at(v, p) == '\'' {
            (p + 1, TokenKind::Character)
        } else {
            (p, TokenKind::Unknown(TokenError::UnfinishedCharacter))
        }
    } else if reserved_char(c) {
        (i + 1, TokenKind::Syntax)
    } else if flexible_char(c) {
        if peek_at(v, i + 1) == c {
            (run_end(v, i + 1, CharRule::OperatorOr(c)), TokenKind::Symbol)
        } else {
            (i + 1, TokenKind::Syntax)
        }
    } else if c == '-' && peek_at(v, i + 1) == '-' {
        (run_end(v, i + 1, CharRule::NonNewline), TokenKind::CommentLine)
    } else if letter(c) || c == '_' {
        (run_end(v, i + 1, CharRule::IdentTail), TokenKind::Identifier)
    } else if whitespace(c) {
        (run_end(v, i + 1, CharRule::White), TokenKind::Whitespace)
    } else if number(c) {
        let d = run_end(v, i + 1, CharRule::Digit);
        if peek_at(v, d) == '.' {
            if number(peek_at(v, d + 1)) {
                (run_end(v, d + 1, CharRule::Digit), TokenKind::Number)
            } else {
                (d + 1, TokenKind::Unknown(TokenError::UnfinishedNumber))
            }
        } else {
            (d, TokenKind::Integer)
        }
    } else if symbol(c) || punctuation(c) {
        (run_end(v, i + 1, CharRule::Operator), TokenKind::Symbol)
    } else {
        (i + 1, TokenKind::Unknown(TokenError::UnknownToken))
    }
}

/// The scalar position one past the token that begins at `i`.
pub open spec fn token_end(v: Seq<char>, i: int) -> int {
    token_scan(v, i).0
}

/// The kind of the token that begins at `i`.
pub open spec fn token_kind(v: Seq<char>, i: int) -> TokenKind {
    token_scan(v, i).1
}

/// The width in bytes of the UTF-8 encoding of one scalar.
pub open spec fn scalar_width(c: char) -> int {
    encode_scalar(c as u32).len() as int
}

/// The byte offset of scalar position `i`: the byte length of the UTF-8
/// encoding of the first `i` scalars.
pub open spec fn byte_offset(v: Seq<char>, i: int) -> int {
    encode_utf8(v.take(i)).len() as int
}

/// The byte length of the UTF-8 encoding of the whole input.
pub open spec fn byte_len(v: Seq<char>) -> int {
    encode_utf8(v).len() as int
}

/// The span the tokenizer produces for the token that begins at scalar
/// position `i`.
pub open spec fn span_at(v: Seq<char>, i: int) -> TokenSpan {
    TokenSpan {
        begin: byte_offset(v, i) as usize,
        end: byte_offset(v, token_end(v, i)) as usize,
        kind: token_kind(v, i),
    }
}

/// Every span of a full lex of `v`, from scalar position `i` on.
pub open spec fn token_spans_from(v: Seq<char>, i: int) -> Seq<TokenSpan>
    decreases v.len() - i
        when 0 <= i <= v.len()
        via token_spans_from_decreases
{
    if i >= v.len() {
        Seq::empty()
    } else {
        seq![span_at(v, i)] + token_spans_from(v, token_end(v, i))
    }
}

#[via_fn]
proof fn token_spans_from_decreases(v: Seq<char>, i: int) {
    if 0 <= i < v.len() {
        lemma_token_end_bounds(v, i);
    }
}

/// The full span sequence of one lex of `v`.
pub open spec fn token_spans(v: Seq<char>) -> Seq<TokenSpan> {
    token_spans_from(v, 0)
}

/// A run ends within the input, every scalar it covers satisfies its rule,
/// and the scalar it stops at (if any) fails it.
pub proof fn lemma_run_end_props(v: Seq<char>, j: int, r: CharRule)
    requires
        0 <= j <= v.len(),
    ensures
        j <= run_end(v, j, r) <= v.len(),
        forall|k: int| j <= k < run_end(v, j, r) ==> rule_holds(r, #[trigger] v[k]),
        run_end(v, j, r) < v.len() ==> !rule_holds(r, v[run_end(v, j, r)]),
    decreases v.len() - j,
{
    if j < v.len() && rule_holds(r, v[j]) {
        lemma_run_end_props(v, j + 1, r);
    }
}

/// A position with the stopping behaviour of a run is that run's end.
pub proof fn lemma_run_end_unique(v: Seq<char>, j: int, r: CharRule, m: int)
    requires
        0 <= j <= m <= v.len(),
        forall|k: int| j <= k < m ==> rule_holds(r, #[trigger] v[k]),
        m < v.len() ==> !rule_holds(r, v[m]),
    ensures
        run_end(v, j, r) == m,
    decreases m - j,
{
    if j < m {
        lemma_run_end_unique(v, j + 1, r, m);
    }
}

/// What a found block-comment close looks like.
pub proof fn lemma_find_block_close_props(v: Seq<char>, j: int)
    requires
        0 <= j <= v.len(),
    ensures
        find_block_close(v, j) is Some ==> {
            let k = find_block_close(v, j)->0;
            j <= k && k + 1 < v.len() && v[k] == '-' && v[k + 1] == '}'
        },
    decreases v.len() - j,
{
    if j < v.len() {
        if !(v[j] == '-' && j + 1 < v.len() && v[j + 1] == '}') {
            lemma_find_block_close_props(v, j + 1);
        }
    }
}

/// Scanning past scalars that are not dashes does not pass a close.
pub proof fn lemma_find_block_close_skip(v: Seq<char>, j: int, m: int)
    requires
        0 <= j <= m <= v.len(),
        forall|k: int| j <= k < m ==> #[trigger] v[k] != '-',
    ensures
        find_block_close(v, j) == find_block_close(v, m),
    decreases m - j,
{
    if j < m {
        lemma_find_block_close_skip(v, j + 1, m);
    }
}

/// Appending one scalar appends its encoding.
pub proof fn lemma_encode_utf8_push(s: Seq<char>, c: char)
    ensures
        encode_utf8(s.push(c)) == encode_utf8(s) + encode_scalar(c as u32),
    decreases s.len(),
{
    if s.len() == 0 {
        assert(s.push(c).drop_first() =~= Seq::<char>::empty());
        assert(encode_utf8(Seq::<char>::empty()) =~= Seq::<u8>::empty());
        assert(s.push(c)[0] == c);
        assert(encode_utf8(s.push(c)) =~= encode_scalar(c as u32));
        assert(encode_utf8(s) =~= Seq::<u8>::empty());
        assert(encode_utf8(s) + encode_scalar(c as u32) =~= encode_scalar(c as u32));
    } else {
        assert(s.push(c).drop_first() =~= s.drop_first().push(c));
        assert(s.push(c)[0] == s[0]);
        lemma_encode_utf8_push(s.drop_first(), c);
        assert(encode_utf8(s.push(c)) == encode_scalar(s[0] as u32) + (encode_utf8(s.drop_first())
            + encode_scalar(c as u32)));
        assert(encode_utf8(s) == encode_scalar(s[0] as u32) + encode_utf8(s.drop_first()));
        assert(encode_utf8(s.push(c)) =~= encode_utf8(s) + encode_scalar(c as u32));
    }
}

/// Every scalar encodes to between one and four bytes.
pub proof fn lemma_scalar_width_range(c: char)
    ensures
        1 <= scalar_width(c) <= 4,
{
}

/// Moving one scalar forward adds that scalar's width to the byte offset.
pub proof fn lemma_byte_offset_step(v: Seq<char>, i: int)
    requires
        0 <= i < v.len(),
    ensures
        byte_offset(v, i + 1) == byte_offset(v, i) + scalar_width(v[i]),
{
    assert(v.take(i + 1) =~= v.take(i).push(v[i]));
    lemma_encode_utf8_push(v.take(i), v[i]);
}

/// Byte offsets grow strictly with the scalar position.
pub proof fn lemma_byte_offset_mono(v: Seq<char>, i: int, j: int)
    requires
        0 <= i <= j <= v.len(),
    ensures
        byte_offset(v, i) <= byte_offset(v, j),
        i < j ==> byte_offset(v, i) < byte_offset(v, j),
    decreases j - i,
{
    if i < j {
        lemma_byte_offset_step(v, j - 1);
        lemma_scalar_width_range(v[j - 1]);
        lemma_byte_offset_mono(v, i, j - 1);
    }
}

/// The offset of the start is zero; the offset of the end is the byte length.
pub proof fn lemma_byte_offset_ends(v: Seq<char>)
    ensures
        byte_offset(v, 0) == 0,
        byte_offset(v, v.len() as int) == byte_len(v),
{
    assert(v.take(0) =~= Seq::<char>::empty());
    assert(v.take(v.len() as int) =~= v);
}

/// Every token consumes at least one scalar and stays within the input.
pub proof fn lemma_token_end_bounds(v: Seq<char>, i: int)
    requires
        0 <= i < v.len(),
    ensures
        i < token_end(v, i) <= v.len(),
{
    let c = v[i];
    if c == '{' && peek_at(v, i + 1) == '-' {
        lemma_find_block_close_props(v, i + 2);
    } else if c == '"' {
        lemma_run_end_props(v, i + 1, CharRule::NonQuote);
    } else if c == '\'' {
    } else if reserved_char(c) {
    } else if flexible_char(c) {
        if peek_at(v, i + 1) == c {
            lemma_run_end_props(v, i + 1, CharRule::OperatorOr(c));
        }
    } else if c == '-' && peek_at(v, i + 1) == '-' {
        lemma_run_end_props(v, i + 1, CharRule::NonNewline);
    } else if letter(c) || c == '_' {
        lemma_run_end_props(v, i + 1, CharRule::IdentTail);
    } else if whitespace(c) {
        lemma_run_end_props(v, i + 1, CharRule::White);
    } else if number(c) {
        lemma_run_end_props(v, i + 1, CharRule::Digit);
        let d = run_end(v, i + 1, CharRule::Digit);
        if peek_at(v, d) == '.' && number(peek_at(v, d + 1)) {
            lemma_run_end_props(v, d + 1, CharRule::Digit);
        }
    } else if symbol(c) || punctuation(c) {
        lemma_run_end_props(v, i + 1, CharRule::Operator);
    } else {
    }
}

} // verus!
