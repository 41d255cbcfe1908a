use lily_cst::spanner::{lex, Cursor, TokenError, TokenKind, TokenSpan};

#[test]
fn it_tokenizes_without_spaces() {
    let source = "main=logShow\"a\"";
    let tokens = vec![
        TokenSpan {
            begin: 0,
            end: 4,
            kind: TokenKind::Identifier,
        },
        TokenSpan {
            begin: 4,
            end: 5,
            kind: TokenKind::Syntax,
        },
        TokenSpan {
            begin: 5,
            end: 12,
            kind: TokenKind::Identifier,
        },
        TokenSpan {
            begin: 12,
            end: 15,
            kind: TokenKind::String,
        },
    ];
    assert_eq!(lex(source), tokens);
}

#[test]
fn lex_of_empty_input_yields_no_spans() {
    assert_eq!(lex(""), Vec::<TokenSpan>::new());
}

#[test]
fn lexing_twice_produces_identical_spans() {
    let source = "main :: Effect Unit\nmain = do\n  pure unit";
    assert_eq!(lex(source), lex(source));
}

#[test]
fn spans_tile_the_whole_input() {
    let sources = [
        "main=logShow\"a\"",
        "x -> \u{3bb}y.z {- c -} 12.5 'q' -- t\n::",
        "{- open",
        "\u{e9}t\u{e9} + \u{1f600} 007",
        "\"unclosed",
    ];
    for source in sources {
        let spans = lex(source);
        let mut expected_begin = 0;
        for span in &spans {
            assert_eq!(span.begin, expected_begin);
            assert!(span.begin < span.end);
            expected_begin = span.end;
        }
        assert_eq!(expected_begin, source.len());
    }
}

#[test]
fn leading_zeroes_stay_an_integer() {
    let spans = lex("007");
    assert_eq!(spans.len(), 1);
    assert_eq!(
        spans[0],
        TokenSpan {
            begin: 0,
            end: 3,
            kind: TokenKind::Integer,
        }
    );
}

#[test]
fn digits_then_bare_dot_are_an_unfinished_number() {
    let spans = lex("3.");
    assert_eq!(spans.len(), 1);
    assert_eq!(
        spans[0],
        TokenSpan {
            begin: 0,
            end: 2,
            kind: TokenKind::Unknown(TokenError::UnfinishedNumber),
        }
    );
}

#[test]
fn fractional_number_is_one_token() {
    let spans = lex("42.05");
    assert_eq!(spans.len(), 1);
    assert_eq!(
        spans[0],
        TokenSpan {
            begin: 0,
            end: 5,
            kind: TokenKind::Number,
        }
    );
}

#[test]
fn block_comment_spans_the_whole_input() {
    let spans = lex("{- abc -}");
    assert_eq!(spans.len(), 1);
    assert_eq!(
        spans[0],
        TokenSpan {
            begin: 0,
            end: 9,
            kind: TokenKind::CommentBlock,
        }
    );
}

#[test]
fn unclosed_block_comment_spans_to_the_end() {
    let spans = lex("{- abc");
    assert_eq!(spans.len(), 1);
    assert_eq!(
        spans[0],
        TokenSpan {
            begin: 0,
            end: 6,
            kind: TokenKind::Unknown(TokenError::UnfinishedBlockComment),
        }
    );
}

#[test]
fn doubled_colon_is_a_symbol() {
    let spans = lex("::");
    assert_eq!(spans.len(), 1);
    assert_eq!(
        spans[0],
        TokenSpan {
            begin: 0,
            end: 2,
            kind: TokenKind::Symbol,
        }
    );
}

#[test]
fn single_colon_is_syntax() {
    let spans = lex(":");
    assert_eq!(spans.len(), 1);
    assert_eq!(
        spans[0],
        TokenSpan {
            begin: 0,
            end: 1,
            kind: TokenKind::Syntax,
        }
    );
}

#[test]
fn comment_line_excludes_the_newline() {
    let spans = lex("-- hi\n");
    assert_eq!(
        spans,
        vec![
            TokenSpan {
                begin: 0,
                end: 5,
                kind: TokenKind::CommentLine,
            },
            TokenSpan {
                begin: 5,
                end: 6,
                kind: TokenKind::Whitespace,
            },
        ]
    );
}

#[test]
fn unclosed_string_is_an_unfinished_string() {
    let spans = lex("\"abc");
    assert_eq!(spans.len(), 1);
    assert_eq!(
        spans[0],
        TokenSpan {
            begin: 0,
            end: 4,
            kind: TokenKind::Unknown(TokenError::UnfinishedString),
        }
    );
}

#[test]
fn character_token_needs_its_closing_quote() {
    let spans = lex("'a'");
    assert_eq!(spans.len(), 1);
    assert_eq!(
        spans[0],
        TokenSpan {
            begin: 0,
            end: 3,
            kind: TokenKind::Character,
        }
    );
    let unfinished = lex("'a");
    assert_eq!(unfinished.len(), 1);
    assert_eq!(
        unfinished[0],
        TokenSpan {
            begin: 0,
            end: 2,
            kind: TokenKind::Unknown(TokenError::UnfinishedCharacter),
        }
    );
}

#[test]
fn control_scalar_is_an_unknown_token() {
    let spans = lex("\u{1}");
    assert_eq!(spans.len(), 1);
    assert_eq!(
        spans[0],
        TokenSpan {
            begin: 0,
            end: 1,
            kind: TokenKind::Unknown(TokenError::UnknownToken),
        }
    );
}

#[test]
fn identifier_run_takes_digits_primes_and_underscores() {
    let spans = lex("_erin'1 Erin'");
    assert_eq!(
        spans,
        vec![
            TokenSpan {
                begin: 0,
                end: 7,
                kind: TokenKind::Identifier,
            },
            TokenSpan {
                begin: 7,
                end: 8,
                kind: TokenKind::Whitespace,
            },
            TokenSpan {
                begin: 8,
                end: 13,
                kind: TokenKind::Identifier,
            },
        ]
    );
}

#[test]
fn greek_identifier_spans_its_byte_width() {
    let spans = lex("\u{3bb}x");
    assert_eq!(spans.len(), 1);
    assert_eq!(
        spans[0],
        TokenSpan {
            begin: 0,
            end: 3,
            kind: TokenKind::Identifier,
        }
    );
}

#[test]
fn operator_run_is_one_symbol() {
    let spans = lex("+$");
    assert_eq!(spans.len(), 1);
    assert_eq!(
        spans[0],
        TokenSpan {
            begin: 0,
            end: 2,
            kind: TokenKind::Symbol,
        }
    );
}

#[test]
fn cursor_peeks_and_takes_scalars() {
    let mut cursor = Cursor::new("\u{e9}t");
    assert!(!cursor.is_eof());
    assert_eq!(cursor.consumed_len(), 0);
    assert_eq!(cursor.peek_1(), '\u{e9}');
    assert_eq!(cursor.peek_2(), 't');
    assert_eq!(cursor.take(), Some('\u{e9}'));
    assert_eq!(cursor.consumed_len(), 2);
    assert_eq!(cursor.peek_1(), 't');
    assert_eq!(cursor.peek_2(), '\0');
    assert_eq!(cursor.take(), Some('t'));
    assert_eq!(cursor.consumed_len(), 3);
    assert!(cursor.is_eof());
    assert_eq!(cursor.peek_1(), '\0');
    assert_eq!(cursor.take(), None);
}

#[test]
fn take_while_stops_at_the_first_failing_scalar() {
    let mut cursor = Cursor::new("aaab");
    cursor.take_while(|c| c == 'a');
    assert_eq!(cursor.consumed_len(), 3);
    assert_eq!(cursor.peek_1(), 'b');
    cursor.take_while(|c| c == 'z');
    assert_eq!(cursor.consumed_len(), 3);
    cursor.take_while(|_| true);
    assert!(cursor.is_eof());
    assert_eq!(cursor.consumed_len(), 4);
}

#[test]
fn take_token_walks_span_by_span() {
    let mut cursor = Cursor::new("ab cd");
    let first = cursor.take_token();
    assert_eq!(
        first,
        TokenSpan {
            begin: 0,
            end: 2,
            kind: TokenKind::Identifier,
        }
    );
    let second = cursor.take_token();
    assert_eq!(
        second,
        TokenSpan {
            begin: 2,
            end: 3,
            kind: TokenKind::Whitespace,
        }
    );
    let third = cursor.take_token();
    assert_eq!(
        third,
        TokenSpan {
            begin: 3,
            end: 5,
            kind: TokenKind::Identifier,
        }
    );
    assert!(cursor.is_eof());
}

#[test]
fn punctuation_scalar_starts_a_symbol_run() {
    let spans = lex(",");
    assert_eq!(spans.len(), 1);
    assert_eq!(
        spans[0],
        TokenSpan {
            begin: 0,
            end: 1,
            kind: TokenKind::Symbol,
        }
    );
}

#[test]
fn doubled_dot_is_a_symbol() {
    let spans = lex("..");
    assert_eq!(spans.len(), 1);
    assert_eq!(
        spans[0],
        TokenSpan {
            begin: 0,
            end: 2,
            kind: TokenKind::Symbol,
        }
    );
}
