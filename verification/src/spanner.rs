//! A tokenizer that classifies a token by its first scalar.
//!
//! The `TokenSpan` type encodes the `begin` and `end` byte offsets of a token
//! in the source buffer, as opposed to directly storing string slices, and
//! `TokenKind` keeps its categories general: lowercase and uppercase names
//! both fall under `Identifier`. Escape sequences, Unicode normalization, and
//! nested block comments are unsupported.

use crate::classes::{
    is_letter_char, is_number_char, is_punctuation_char, is_symbol_char, is_whitespace_char,
};
use crate::model::{
    byte_len, byte_offset, find_block_close, lemma_byte_offset_ends, lemma_byte_offset_mono,
    lemma_byte_offset_step, lemma_find_block_close_props, lemma_find_block_close_skip,
    lemma_run_end_unique, lemma_token_end_bounds, peek_at, rule_holds, run_end, scalar_width,
    span_at, token_end, token_kind, token_spans, token_spans_from, CharRule,
};
use vstd::prelude::*;

verus! {

broadcast use vstd::string::axiom_spec_iter, vstd::string::next_postcondition;

/// An error for an unknown token.
#[derive(Debug, PartialEq, Eq, PartialOrd, Ord)]
pub enum TokenError {
    UnfinishedBlockComment,
    UnfinishedCharacter,
    UnfinishedNumber,
    UnfinishedString,
    UnknownToken,
}

/// The kind of the spanned token.
#[derive(Debug, PartialEq, Eq, PartialOrd, Ord)]
pub enum TokenKind {
    /// A character: `'a'`
    Character,
    /// A comment block: `{- hey! -}`
    CommentBlock,
    /// A comment line: `-- listen!`
    CommentLine,
    /// The end of the file.
    Eof,
    /// A "word": `_erin'`, `Erin'`
    Identifier,
    /// An integer: `0`, `1`, `2`
    Integer,
    /// A number with a fractional run: `1.0`, `42.0`
    Number,
    /// A string: `"let's all love lain"`
    String,
    /// An operator: `$`, `+`, `..`
    Symbol,
    /// Reserved symbols: `.`, `=`, `(`, `[`, `{`, `}`, `]`, `)`
    Syntax,
    /// An unknown token.
    Unknown(TokenError),
    /// Whitespace characters.
    Whitespace,
}

/// A token in a source file.
#[derive(Debug, PartialEq, Eq, PartialOrd, Ord)]
pub struct TokenSpan {
    /// The beginning byte offset (inclusive).
    pub begin: usize,
    /// The ending byte offset (exclusive).
    pub end: usize,
    /// The kind of the token.
    pub kind: TokenKind,
}

/// The current state of the tokenizer: the scalars of the source buffer, the
/// position of the next scalar to read, and the byte length of what has been
/// consumed so far.
pub struct Cursor {
    /// The scalars in the source file.
    text: Vec<char>,
    /// The position of the next scalar.
    pos: usize,
    /// The byte length of the consumed prefix.
    consumed: usize,
}

impl Cursor {
    /// The scalars this cursor scans.
    pub closed spec fn chars(&self) -> Seq<char> {
        self.text@
    }

    /// The position of the next scalar to read.
    pub closed spec fn position(&self) -> int {
        self.pos as int
    }

    /// The cursor's invariant: the position stays within the input and the
    /// consumed byte count measures exactly the consumed prefix.
    pub closed spec fn wf(&self) -> bool {
        &&& self.pos <= self.text@.len()
        &&& self.consumed == byte_offset(self.text@, self.pos as int)
        &&& byte_len(self.text@) <= usize::MAX
    }

    pub fn new(source: &str) -> (cursor: Cursor)
        ensures
            cursor.wf(),
            cursor.chars() == source@,
            cursor.position() == 0,
    {
        let text = chars_of(source);
        let total = str_byte_len(source);
        proof {
            lemma_byte_offset_ends(text@);
            assert(total == byte_len(text@));
        }
        Cursor { text, pos: 0, consumed: 0 }
    }

    /// Determines if the cursor is at the end.
    pub fn is_eof(&self) -> (eof: bool)
        ensures
            eof == (self.position() == self.chars().len()),
    {
        self.pos == self.text.len()
    }

    /// The byte length of what has already been consumed.
    pub fn consumed_len(&self) -> (n: usize)
        requires
            self.wf(),
        ensures
            n == byte_offset(self.chars(), self.position()),
    {
        self.consumed
    }

    /// Peeks a single scalar into the future, returning `'\0'` if there are
    /// no more scalars.
    pub fn peek_1(&mut self) -> (c: char)
        ensures
            *final (self) == *old(self),
            c == peek_at(old(self).chars(), old(self).position()),
    {
        if self.pos < self.text.len() {
            self.text[self.pos]
        } else {
            '\0'
        }
    }

    /// Peeks two scalars into the future, returning `'\0'` if there are no
    /// more scalars.
    pub fn peek_2(&mut self) -> (c: char)
        ensures
            *final (self) == *old(self),
            c == peek_at(old(self).chars(), old(self).position() + 1),
    {
        if self.pos < self.text.len() {
            let next = self.pos + 1;
            if next < self.text.len() {
                self.text[next]
            } else {
                '\0'
            }
        } else {
            '\0'
        }
    }

    /// Takes a single scalar.
    pub fn take(&mut self) -> (taken: Option<char>)
        requires
            old(self).wf(),
        ensures
            final (self).wf(),
            final (self).chars() == old(self).chars(),
            old(self).position() < old(self).chars().len() ==> (taken == Some(
                old(self).chars()[old(self).position()],
            ) && final (self).position() == old(self).position() + 1),
            old(self).position() == old(self).chars().len() ==> (taken is None
                && final (self).position() == old(self).position()),
    {
        if self.pos < self.text.len() {
            let c = self.text[self.pos];
            proof {
                lemma_byte_offset_step(self.text@, self.pos as int);
                lemma_byte_offset_mono(self.text@, self.pos + 1, self.text@.len() as int);
                lemma_byte_offset_ends(self.text@);
            }
            let width = scalar_width_exec(c);
            self.consumed = self.consumed + width;
            self.pos = self.pos + 1;
            Some(c)
        } else {
            None
        }
    }

    /// Takes scalars while a predicate matches and the cursor is not at the
    /// end of the file: it stops exactly at the first scalar that fails the
    /// predicate, or at the end of the input.
    pub fn take_while<F: Fn(char) -> bool>(&mut self, predicate: F)
        requires
            old(self).wf(),
            forall|c: char| #[trigger] call_requires(predicate, (c,)),
        ensures
            final (self).wf(),
            final (self).chars() == old(self).chars(),
            old(self).position() <= final (self).position() <= old(self).chars().len(),
            forall|k: int|
                old(self).position() <= k < final (self).position() ==> call_ensures(
                    predicate,
                    (old(self).chars()[k],),
                    true,
                ),
            final (self).position() < old(self).chars().len() ==> call_ensures(
                predicate,
                (old(self).chars()[final (self).position()],),
                false,
            ),
    {
        loop
            invariant
                self.wf(),
                self.chars() == old(self).chars(),
                old(self).position() <= self.position() <= self.chars().len(),
                forall|c: char| #[trigger] call_requires(predicate, (c,)),
                forall|k: int|
                    old(self).position() <= k < self.position() ==> call_ensures(
                        predicate,
                        (self.chars()[k],),
                        true,
                    ),
            ensures
                self.wf(),
                self.chars() == old(self).chars(),
                old(self).position() <= self.position() <= self.chars().len(),
                forall|k: int|
                    old(self).position() <= k < self.position() ==> call_ensures(
                        predicate,
                        (self.chars()[k],),
                        true,
                    ),
                self.position() == self.chars().len() || call_ensures(
                    predicate,
                    (self.chars()[self.position()],),
                    false,
                ),
            decreases self.chars().len() - self.position(),
        {
            if self.is_eof() {
                break ;
            }
            let c = self.peek_1();
            if !predicate(c) {
                break ;
            }
            self.take();
        }
    }
}

impl Cursor {
    /// Consumes the inside of a block comment, whose opening `{-` has already
    /// been consumed: everything up to and including the first `-}` when
    /// there is one, and the rest of the input otherwise.
    fn finish_block_comment(&mut self) -> (closed: bool)
        requires
            old(self).wf(),
        ensures
            final (self).wf(),
            final (self).chars() == old(self).chars(),
            (match find_block_close(old(self).chars(), old(self).position()) {
                Some(k) => closed && final (self).position() == k + 2,
                None => !closed && final (self).position() == old(self).chars().len(),
            }),
    {
        let ghost v = old(self).chars();
        let ghost start = old(self).position();
        loop
            invariant
                self.wf(),
                self.chars() == v,
                v == old(self).chars(),
                start == old(self).position(),
                start <= self.position() <= v.len(),
                0 <= start,
                find_block_close(v, start) == find_block_close(v, self.position()),
            decreases v.len() - self.position(),
        {
            let ghost p0 = self.position();
            let pred = |x: char| -> (keep: bool)
                ensures
                    keep == (x != '-'),
                {
                    x != '-'
                };
            self.take_while(pred);
            let ghost p1 = self.position();
            proof {
                assert forall|k: int| p0 <= k < p1 implies #[trigger] v[k] != '-' by {
                    assert(call_ensures(pred, (v[k],), true));
                }
                lemma_find_block_close_skip(v, p0, p1);
            }
            let c1 = self.peek_1();
            let c2 = self.peek_2();
            if c1 == '-' && c2 == '}' {
                proof {
                    assert(p1 < v.len() && v[p1] == '-');
                    assert(p1 + 1 < v.len() && v[p1 + 1] == '}');
                    assert(find_block_close(v, p1) == Some(p1));
                }
                self.take();
                self.take();
                return true;
            }
            match self.take() {
                Option::None => {
                    proof {
                        assert(self.position() == v.len());
                        assert(find_block_close(v, v.len() as int) is None);
                    }
                    return false;
                },
                Option::Some(_) => {
                    proof {
                        assert(v[p1] == '-') by {
                            assert(call_ensures(pred, (v[p1],), false));
                        }
                        assert(peek_at(v, p1 + 1) != '}');
                        assert(find_block_close(v, p1) == find_block_close(v, p1 + 1));
                    }
                },
            }
        }
    }

    /// Consumes one token and returns its span: the byte offsets it covers
    /// and the kind the dispatch on its first scalar assigns.
    pub fn take_token(&mut self) -> (token: TokenSpan)
        requires
            old(self).wf(),
            old(self).position() < old(self).chars().len(),
        ensures
            final (self).wf(),
            final (self).chars() == old(self).chars(),
            final (self).position() == token_end(old(self).chars(), old(self).position()),
            token == span_at(old(self).chars(), old(self).position()),
    {
        let ghost v = old(self).chars();
        let ghost i0 = old(self).position();
        let begin = self.consumed_len();
        let first = self.peek_1();
        self.take();
        let kind: TokenKind;
        if first == '{' && self.peek_1() == '-' {
            self.take();
            let closed = self.finish_block_comment();
            kind = if closed {
                TokenKind::CommentBlock
            } else {
                TokenKind::Unknown(TokenError::UnfinishedBlockComment)
            };
            proof {
                lemma_find_block_close_props(v, i0 + 2);
                assert(self.position() == token_end(v, i0) && kind == token_kind(v, i0));
            }
        } else if first == '"' {
            let pred = |x: char| -> (keep: bool)
                ensures
                    keep == rule_holds(CharRule::NonQuote, x),
                {
                    x != '"'
                };
            self.take_while(pred);
            proof {
                close_run(v, i0 + 1, CharRule::NonQuote, self.position(), pred);
            }
            match self.take() {
                Option::Some(_) => {
                    kind = TokenKind::String;
                },
                Option::None => {
                    kind = TokenKind::Unknown(TokenError::UnfinishedString);
                },
            }
            proof {
                assert(self.position() == token_end(v, i0) && kind == token_kind(v, i0));
            }
        } else if first == '\'' {
            self.take();
            let c2 = self.peek_1();
            if c2 == '\'' {
                self.take();
                kind = TokenKind::Character;
            } else {
                kind = TokenKind::Unknown(TokenError::UnfinishedCharacter);
            }
            proof {
                assert(self.position() == token_end(v, i0) && kind == token_kind(v, i0));
            }
        } else if first == ';' || first == '(' || first == ')' || first == '[' || first == ']'
            || first == '{' || first == '}' {
            kind = TokenKind::Syntax;
            proof {
                assert(self.position() == token_end(v, i0) && kind == token_kind(v, i0));
            }
        } else if first == ':' || first == '=' || first == '.' {
            let c2 = self.peek_1();
            if c2 == first {
                let pred = |x: char| -> (keep: bool)
                    ensures
                        keep == rule_holds(CharRule::OperatorOr(first), x),
                    {
                        is_symbol_char(x) || is_punctuation_char(x) || x == first
                    };
                self.take_while(pred);
                proof {
                    close_run(v, i0 + 1, CharRule::OperatorOr(first), self.position(), pred);
                }
                kind = TokenKind::Symbol;
            } else {
                kind = TokenKind::Syntax;
            }
            proof {
                assert(self.position() == token_end(v, i0) && kind == token_kind(v, i0));
            }
        } else if first == '-' && self.peek_1() == '-' {
            let pred = |x: char| -> (keep: bool)
                ensures
                    keep == rule_holds(CharRule::NonNewline, x),
                {
                    x != '\n'
                };
            self.take_while(pred);
            kind = TokenKind::CommentLine;
            proof {
                close_run(v, i0 + 1, CharRule::NonNewline, self.position(), pred);
                assert(self.position() == token_end(v, i0) && kind == token_kind(v, i0));
            }
        } else if is_letter_char(first) || first == '_' {
            let pred = |x: char| -> (keep: bool)
                ensures
                    keep == rule_holds(CharRule::IdentTail, x),
                {
                    is_letter_char(x) || is_number_char(x) || x == '\'' || x == '_'
                };
            self.take_while(pred);
            kind = TokenKind::Identifier;
            proof {
                close_run(v, i0 + 1, CharRule::IdentTail, self.position(), pred);
                assert(self.position() == token_end(v, i0) && kind == token_kind(v, i0));
            }
        } else if is_whitespace_char(first) {
            let pred = |x: char| -> (keep: bool)
                ensures
                    keep == rule_holds(CharRule::White, x),
                {
                    is_whitespace_char(x)
                };
            self.take_while(pred);
            kind = TokenKind::Whitespace;
            proof {
                close_run(v, i0 + 1, CharRule::White, self.position(), pred);
                assert(self.position() == token_end(v, i0) && kind == token_kind(v, i0));
            }
        } else if is_number_char(first) {
            let pred = |x: char| -> (keep: bool)
                ensures
                    keep == rule_holds(CharRule::Digit, x),
                {
                    is_number_char(x)
                };
            self.take_while(pred);
            proof {
                close_run(v, i0 + 1, CharRule::Digit, self.position(), pred);
            }
            let ghost d = self.position();
            if self.peek_1() == '.' {
                self.take();
                let after = self.peek_1();
                if is_number_char(after) {
                    let pred2 = |x: char| -> (keep: bool)
                        ensures
                            keep == rule_holds(CharRule::Digit, x),
                        {
                            is_number_char(x)
                        };
                    self.take_while(pred2);
                    proof {
                        close_run(v, d + 1, CharRule::Digit, self.position(), pred2);
                    }
                    kind = TokenKind::Number;
                } else {
                    kind = TokenKind::Unknown(TokenError::UnfinishedNumber);
                }
            } else {
                kind = TokenKind::Integer;
            }
            proof {
                assert(self.position() == token_end(v, i0) && kind == token_kind(v, i0));
            }
        } else if is_symbol_char(first) || is_punctuation_char(first) {
            let pred = |x: char| -> (keep: bool)
                ensures
                    keep == rule_holds(CharRule::Operator, x),
                {
                    is_symbol_char(x) || is_punctuation_char(x)
                };
            self.take_while(pred);
            kind = TokenKind::Symbol;
            proof {
                close_run(v, i0 + 1, CharRule::Operator, self.position(), pred);
                assert(self.position() == token_end(v, i0) && kind == token_kind(v, i0));
            }
        } else {
            kind = TokenKind::Unknown(TokenError::UnknownToken);
            proof {
                assert(self.position() == token_end(v, i0) && kind == token_kind(v, i0));
            }
        }
        let end = self.consumed_len();
        TokenSpan { begin, end, kind }
    }
}

/// From the stopping behaviour of one `take_while` call, the position it
/// reached is the run's end under the matching rule.
proof fn close_run<F: Fn(char) -> bool>(v: Seq<char>, j: int, r: CharRule, m: int, pred: F)
    requires
        0 <= j <= m <= v.len(),
        forall|k: int| j <= k < m ==> call_ensures(pred, (v[k],), true),
        m < v.len() ==> call_ensures(pred, (v[m],), false),
        forall|c: char, keep: bool|
            #[trigger] call_ensures(pred, (c,), keep) ==> keep == rule_holds(r, c),
    ensures
        run_end(v, j, r) == m,
{
    assert forall|k: int| j <= k < m implies rule_holds(r, #[trigger] v[k]) by {
        assert(call_ensures(pred, (v[k],), true));
    }
    lemma_run_end_unique(v, j, r, m);
}

/// The number of bytes the UTF-8 encoding of one scalar occupies.
fn scalar_width_exec(c: char) -> (width: usize)
    ensures
        width == scalar_width(c),
{
    proof {
        vstd::utf8::char_is_scalar(c);
    }
    let u = c as u32;
    if u < 0x80 {
        1
    } else if u < 0x800 {
        2
    } else if u < 0x10000 {
        3
    } else {
        4
    }
}

/// Relies on `str::len`: the length of a string slice in bytes, which is the
/// byte length of the UTF-8 encoding of its scalars.
#[verifier::external_body]
fn str_byte_len(source: &str) -> (n: usize)
    ensures
        n == byte_len(source@),
{
    source.len()
}

/// The scalars of a string slice, in order.
fn chars_of(source: &str) -> (out: Vec<char>)
    ensures
        out@ == source@,
{
    let mut out: Vec<char> = Vec::new();
    for c in it: source.chars()
        invariant
            it.seq() == source@,
            out@ == it.seq().take(it.index() as int),
    {
        out.push(c);
        proof {
            assert(out@ =~= it.seq().take(it.index() as int + 1));
        }
    }
    proof {
        assert(out@ =~= source@);
    }
    out
}

/// Creates the token spans of a source buffer, in order.
///
/// The resulting sequence is a function of the buffer's scalars alone, so
/// lexing the same buffer twice produces an identical span sequence.
pub fn lex(source: &str) -> (tokens: Vec<TokenSpan>)
    ensures
        tokens@ == token_spans(source@),
{
    let mut cursor = Cursor::new(source);
    let mut tokens: Vec<TokenSpan> = Vec::new();
    let ghost v = source@;
    proof {
        assert(tokens@ + token_spans_from(v, 0) =~= token_spans(v));
    }
    while !cursor.is_eof()
        invariant
            cursor.wf(),
            cursor.chars() == v,
            v == source@,
            tokens@ + token_spans_from(v, cursor.position()) == token_spans(v),
        decreases v.len() - cursor.position(),
    {
        let ghost p = cursor.position();
        let token = cursor.take_token();
        tokens.push(token);
        proof {
            lemma_token_end_bounds(v, p);
            assert(token_spans_from(v, p) == seq![span_at(v, p)] + token_spans_from(
                v,
                token_end(v, p),
            ));
            assert(tokens@ + token_spans_from(v, cursor.position()) =~= token_spans(v));
        }
    }
    proof {
        assert(token_spans_from(v, v.len() as int) =~= Seq::<TokenSpan>::empty());
        assert(tokens@ =~= token_spans(v));
    }
    tokens
}

} // verus!
