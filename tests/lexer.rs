use regex_lexer::{pick_rule, BuildError, Lexer, LexerBuilder, NoMatch, Token, Tokens};

#[derive(Debug, PartialEq, Eq, Clone, Copy)]
enum Tok {
    Num,
    Add,
    Sub,
    Mul,
    Div,
    Open,
    Close,
    Ident,
    Let,
    Word,
    Pair,
    A,
    B,
    C,
}

fn drain<'l, 't>(mut tokens: Tokens<'l, 't, Tok>) -> (Vec<Token<'t, Tok>>, Option<NoMatch>) {
    let mut out = Vec::new();
    loop {
        match tokens.next() {
            None => return (out, None),
            Some(Ok(tok)) => out.push(tok),
            Some(Err(e)) => {
                assert!(tokens.next().is_none());
                return (out, Some(e));
            }
        }
    }
}

fn scan<'t>(lexer: &Lexer<Tok>, source: &'t str) -> Vec<Token<'t, Tok>> {
    let (toks, err) = drain(lexer.tokens(source));
    assert_eq!(err, None);
    toks
}

fn arithmetic() -> Lexer<Tok> {
    LexerBuilder::new()
        .token(r"[0-9]+", Tok::Num)
        .token(r"\+", Tok::Add)
        .token(r"-", Tok::Sub)
        .token(r"\*", Tok::Mul)
        .token(r"/", Tok::Div)
        .token(r"\(", Tok::Open)
        .token(r"\)", Tok::Close)
        .ignore(r"\s+")
        .build()
        .unwrap()
}

#[test]
fn parenthesised_expression() {
    let lexer = arithmetic();
    assert_eq!(
        scan(&lexer, "(1 + 2) * 3"),
        vec![
            Token { kind: Tok::Open, span: 0..1, text: "(" },
            Token { kind: Tok::Num, span: 1..2, text: "1" },
            Token { kind: Tok::Add, span: 3..4, text: "+" },
            Token { kind: Tok::Num, span: 5..6, text: "2" },
            Token { kind: Tok::Close, span: 6..7, text: ")" },
            Token { kind: Tok::Mul, span: 8..9, text: "*" },
            Token { kind: Tok::Num, span: 10..11, text: "3" },
        ],
    );
}

#[test]
fn numbers_and_plus() {
    let lexer = LexerBuilder::new()
        .token(r"[0-9]+", Tok::Num)
        .token(r"\+", Tok::Add)
        .ignore(r"\s+")
        .build()
        .unwrap();
    assert_eq!(
        scan(&lexer, "12 + 3"),
        vec![
            Token { kind: Tok::Num, span: 0..2, text: "12" },
            Token { kind: Tok::Add, span: 3..4, text: "+" },
            Token { kind: Tok::Num, span: 5..6, text: "3" },
        ],
    );
}

#[test]
fn keyword_declared_last_beats_identifier() {
    let lexer = LexerBuilder::new()
        .token(r"[A-Za-z]+", Tok::Ident)
        .token(r"let", Tok::Let)
        .ignore(r"\s+")
        .build()
        .unwrap();
    assert_eq!(
        scan(&lexer, "let lettuce"),
        vec![
            Token { kind: Tok::Let, span: 0..3, text: "let" },
            Token { kind: Tok::Ident, span: 4..11, text: "lettuce" },
        ],
    );
}

#[test]
fn keyword_with_word_boundary() {
    let lexer = LexerBuilder::new()
        .token(r"[a-zA-Z_][a-zA-Z0-9_]*", Tok::Ident)
        .token(r"let\b", Tok::Let)
        .ignore(r"\s+")
        .build()
        .unwrap();
    assert_eq!(
        scan(&lexer, "let lettuce"),
        vec![
            Token { kind: Tok::Let, span: 0..3, text: "let" },
            Token { kind: Tok::Ident, span: 4..11, text: "lettuce" },
        ],
    );
}

#[test]
fn empty_source_gives_nothing() {
    let lexer = arithmetic();
    let (toks, err) = drain(lexer.tokens(""));
    assert!(toks.is_empty());
    assert_eq!(err, None);
}

#[test]
fn unrecognised_character_stops_the_scan() {
    let lexer = LexerBuilder::new()
        .token(r"[0-9]+", Tok::Num)
        .ignore(r"\s+")
        .build()
        .unwrap();
    let (toks, err) = drain(lexer.tokens("12 # 3"));
    assert_eq!(toks, vec![Token { kind: Tok::Num, span: 0..2, text: "12" }]);
    assert_eq!(err, Some(NoMatch { position: 3 }));
}

#[test]
fn empty_matches_never_stall_the_scan() {
    let lexer = LexerBuilder::new()
        .token(r"[0-9]*", Tok::Num)
        .ignore(r"\s+")
        .build()
        .unwrap();
    assert_eq!(
        scan(&lexer, "1 2 3"),
        vec![
            Token { kind: Tok::Num, span: 0..1, text: "1" },
            Token { kind: Tok::Num, span: 2..3, text: "2" },
            Token { kind: Tok::Num, span: 4..5, text: "3" },
        ],
    );
    let (toks, err) = drain(lexer.tokens("1 x"));
    assert_eq!(toks, vec![Token { kind: Tok::Num, span: 0..1, text: "1" }]);
    assert_eq!(err, Some(NoMatch { position: 2 }));
}

#[test]
fn unicode_identifiers_use_byte_spans() {
    let lexer = LexerBuilder::new()
        .token(r"\p{XID_Start}\p{XID_Continue}*", Tok::Ident)
        .ignore(r"\s+")
        .build()
        .unwrap();
    assert_eq!(
        scan(&lexer, "these are some identifiers"),
        vec![
            Token { kind: Tok::Ident, span: 0..5, text: "these" },
            Token { kind: Tok::Ident, span: 6..9, text: "are" },
            Token { kind: Tok::Ident, span: 10..14, text: "some" },
            Token { kind: Tok::Ident, span: 15..26, text: "identifiers" },
        ],
    );
    assert_eq!(
        scan(&lexer, "héllo wörld"),
        vec![
            Token { kind: Tok::Ident, span: 0..6, text: "héllo" },
            Token { kind: Tok::Ident, span: 7..13, text: "wörld" },
        ],
    );
}

#[test]
fn longer_match_wins_over_later_rule() {
    let lexer = LexerBuilder::new()
        .token(r"[a-z]+", Tok::Word)
        .token(r"ab", Tok::Pair)
        .build()
        .unwrap();
    assert_eq!(scan(&lexer, "abcde"), vec![Token { kind: Tok::Word, span: 0..5, text: "abcde" }]);
    let lexer = LexerBuilder::new()
        .token(r"ab", Tok::Pair)
        .token(r"[a-z]+", Tok::Word)
        .build()
        .unwrap();
    assert_eq!(scan(&lexer, "abcde"), vec![Token { kind: Tok::Word, span: 0..5, text: "abcde" }]);
}

#[test]
fn equal_length_tie_goes_to_last_declared() {
    let orders = [
        [(r"a", Tok::A), (r"[a-z]", Tok::B), (r".", Tok::C)],
        [(r"[a-z]", Tok::B), (r"a", Tok::A), (r".", Tok::C)],
    ];
    for rules in orders.iter() {
        let mut builder = LexerBuilder::new();
        for (re, kind) in rules.iter() {
            builder = builder.token(re, *kind);
        }
        let lexer = builder.build().unwrap();
        assert_eq!(scan(&lexer, "a"), vec![Token { kind: Tok::C, span: 0..1, text: "a" }]);
    }
}

#[test]
fn skipped_text_yields_no_tokens() {
    let lexer = LexerBuilder::new()
        .token(r"[0-9]+", Tok::Num)
        .ignore(r"\s+")
        .ignore(r"#[^\n]*")
        .build()
        .unwrap();
    let toks = scan(&lexer, "  1 # note\n 22   # more\n333  ");
    assert_eq!(toks.len(), 3);
    assert!(toks.iter().all(|t| t.kind == Tok::Num));
    assert_eq!(toks[2], Token { kind: Tok::Num, span: 24..27, text: "333" });
}

#[test]
fn spans_partition_the_source() {
    let lexer = arithmetic();
    let source = " (10 -2)/  7 ";
    let toks = scan(&lexer, source);
    let mut rebuilt = String::new();
    let mut at = 0;
    for tok in toks.iter() {
        assert!(tok.span.start >= at);
        assert!(source[at..tok.span.start].trim().is_empty());
        rebuilt.push_str(&source[at..tok.span.start]);
        assert_eq!(&source[tok.span.clone()], tok.text);
        rebuilt.push_str(tok.text);
        at = tok.span.end;
    }
    rebuilt.push_str(&source[at..]);
    assert_eq!(rebuilt, source);
    assert_eq!(toks.len(), 7);
}

#[test]
fn scanning_twice_gives_the_same_tokens() {
    let lexer = arithmetic();
    let source = "(4 * 5) - 6 / 7";
    let first = scan(&lexer, source);
    let second = scan(&lexer, source);
    assert_eq!(first, second);
    assert_eq!(first.len(), 9);
}

#[test]
fn invalid_pattern_names_its_rule() {
    let err = LexerBuilder::new()
        .token(r"[0-9]+", Tok::Num)
        .token(r"(", Tok::Open)
        .token(r"[", Tok::Close)
        .build()
        .unwrap_err();
    assert!(matches!(err, BuildError::Pattern { index: 1, .. }));
}

#[test]
fn default_and_builder_start_empty() {
    let lexer: Lexer<Tok> = LexerBuilder::default().build().unwrap();
    let (toks, err) = drain(lexer.tokens("x"));
    assert!(toks.is_empty());
    assert_eq!(err, Some(NoMatch { position: 0 }));
    let lexer = Lexer::builder().token(r"x", Tok::A).build().unwrap();
    assert_eq!(scan(&lexer, "xx").len(), 2);
}

#[test]
fn pick_rule_prefers_longest_then_last() {
    assert_eq!(pick_rule(&vec![Some(3), Some(3), None, Some(0), Some(2)]), Some(1));
    assert_eq!(pick_rule(&vec![Some(5), Some(2)]), Some(0));
    assert_eq!(pick_rule(&vec![Some(2), Some(5)]), Some(1));
    assert_eq!(pick_rule(&vec![Some(0), None]), None);
    assert_eq!(pick_rule(&vec![]), None);
}

#[test]
fn rules_match_only_at_the_scan_offset() {
    let lexer = LexerBuilder::new()
        .token(r"b", Tok::B)
        .token(r"a|c", Tok::A)
        .build()
        .unwrap();
    let (toks, err) = drain(lexer.tokens("ab"));
    assert_eq!(
        toks,
        vec![
            Token { kind: Tok::A, span: 0..1, text: "a" },
            Token { kind: Tok::B, span: 1..2, text: "b" },
        ]
    );
    assert_eq!(err, None);
    let (toks, err) = drain(lexer.tokens("xb"));
    assert!(toks.is_empty());
    assert_eq!(err, Some(NoMatch { position: 0 }));
}

#[test]
fn invalid_pattern_keeps_the_regex_error() {
    let err = LexerBuilder::new().ignore(r"\s+").token(r"[0-9", Tok::Num).build().unwrap_err();
    match err {
        BuildError::Pattern { index, cause } => {
            assert_eq!(index, 1);
            assert!(matches!(cause, regex_lexer::Error::Syntax(_)));
        }
        other => panic!("unexpected error {:?}", other),
    }
}
