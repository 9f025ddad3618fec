use lexer::{longest_match, tokenize, Tok, TokKind};

#[test]
fn simple_lexer_test() -> Result<(), String> {
    let src = "char c = 3;";
    let actual = tokenize(src)?;
    let expected = vec![
        Tok { pos: 0, str: "char".to_string(), kind: TokKind::Key },
        Tok { pos: 4, str: " ".to_string(), kind: TokKind::Spc },
        Tok { pos: 5, str: "c".to_string(), kind: TokKind::Var },
        Tok { pos: 6, str: " ".to_string(), kind: TokKind::Spc },
        Tok { pos: 7, str: "=".to_string(), kind: TokKind::As },
        Tok { pos: 8, str: " ".to_string(), kind: TokKind::Spc },
        Tok { pos: 9, str: "3".to_string(), kind: TokKind::Lit },
        Tok { pos: 10, str: ";".to_string(), kind: TokKind::SCol },
    ];
    assert_eq!(actual, expected);
    Ok(())
}

#[test]
fn increment_is_one_token() {
    let toks = tokenize("++").unwrap();
    assert_eq!(
        toks,
        vec![Tok { pos: 0, str: "++".to_string(), kind: TokKind::Inc }]
    );
}

#[test]
fn decrement_is_one_token() {
    let toks = tokenize("--").unwrap();
    assert_eq!(
        toks,
        vec![Tok { pos: 0, str: "--".to_string(), kind: TokKind::Dec }]
    );
}

#[test]
fn triple_plus_is_increment_then_plus() {
    let toks = tokenize("+++").unwrap();
    assert_eq!(
        toks,
        vec![
            Tok { pos: 0, str: "++".to_string(), kind: TokKind::Inc },
            Tok { pos: 2, str: "+".to_string(), kind: TokKind::Add },
        ]
    );
}

#[test]
fn keyword_beats_identifier() {
    let toks = tokenize("int").unwrap();
    assert_eq!(
        toks,
        vec![Tok { pos: 0, str: "int".to_string(), kind: TokKind::Key }]
    );
}

#[test]
fn longer_identifier_beats_keyword() {
    let toks = tokenize("charlie").unwrap();
    assert_eq!(
        toks,
        vec![Tok { pos: 0, str: "charlie".to_string(), kind: TokKind::Var }]
    );
}

#[test]
fn unknown_character_fails() {
    assert!(tokenize("@").is_err());
    assert!(tokenize("a @ b").is_err());
    assert!(tokenize("#").is_err());
}

#[test]
fn lone_slash_fails() {
    assert!(tokenize("/").is_err());
    assert!(tokenize("/*x").is_err());
}

#[test]
fn unclosed_string_fails() {
    assert!(tokenize("\"abc").is_err());
}

#[test]
fn block_comment_spans_lines() {
    let toks = tokenize("/* a\nb */x").unwrap();
    assert_eq!(
        toks,
        vec![
            Tok { pos: 0, str: "/* a\nb */".to_string(), kind: TokKind::Cmt },
            Tok { pos: 9, str: "x".to_string(), kind: TokKind::Var },
        ]
    );
}

#[test]
fn line_comment_stops_at_newline() {
    let toks = tokenize("//x\ny").unwrap();
    assert_eq!(
        toks,
        vec![
            Tok { pos: 0, str: "//x".to_string(), kind: TokKind::Cmt },
            Tok { pos: 3, str: "\n".to_string(), kind: TokKind::Nl },
            Tok { pos: 4, str: "y".to_string(), kind: TokKind::Var },
        ]
    );
}

#[test]
fn line_comment_keeps_carriage_return() {
    let toks = tokenize("//a\r\nb").unwrap();
    assert_eq!(
        toks,
        vec![
            Tok { pos: 0, str: "//a\r".to_string(), kind: TokKind::Cmt },
            Tok { pos: 4, str: "\n".to_string(), kind: TokKind::Nl },
            Tok { pos: 5, str: "b".to_string(), kind: TokKind::Var },
        ]
    );
}

#[test]
fn string_literal_with_escaped_quote() {
    let toks = tokenize("\"a\\\"b\"").unwrap();
    assert_eq!(
        toks,
        vec![Tok { pos: 0, str: "\"a\\\"b\"".to_string(), kind: TokKind::Lit }]
    );
}

#[test]
fn empty_string_literal() {
    let toks = tokenize("\"\"").unwrap();
    assert_eq!(
        toks,
        vec![Tok { pos: 0, str: "\"\"".to_string(), kind: TokKind::Lit }]
    );
}

#[test]
fn char_literals() {
    let toks = tokenize("''").unwrap();
    assert_eq!(toks, vec![Tok { pos: 0, str: "''".to_string(), kind: TokKind::Lit }]);
    let toks = tokenize("'x'").unwrap();
    assert_eq!(toks, vec![Tok { pos: 0, str: "'x'".to_string(), kind: TokKind::Lit }]);
    let toks = tokenize("'\\n'").unwrap();
    assert_eq!(toks, vec![Tok { pos: 0, str: "'\\n'".to_string(), kind: TokKind::Lit }]);
}

#[test]
fn digit_run_is_one_literal() {
    let toks = tokenize("123").unwrap();
    assert_eq!(
        toks,
        vec![Tok { pos: 0, str: "123".to_string(), kind: TokKind::Lit }]
    );
}

#[test]
fn punctuation_tokens() {
    let toks = tokenize("(){};=").unwrap();
    let kinds: Vec<TokKind> = toks.iter().map(|t| t.kind).collect();
    assert_eq!(
        kinds,
        vec![
            TokKind::LPar,
            TokKind::RPar,
            TokKind::LBrc,
            TokKind::RBrc,
            TokKind::SCol,
            TokKind::As,
        ]
    );
}

#[test]
fn whitespace_tokens() {
    let toks = tokenize("  \t\r\n").unwrap();
    assert_eq!(
        toks,
        vec![
            Tok { pos: 0, str: "  ".to_string(), kind: TokKind::Spc },
            Tok { pos: 2, str: "\t".to_string(), kind: TokKind::Tab },
            Tok { pos: 3, str: "\r".to_string(), kind: TokKind::CR },
            Tok { pos: 4, str: "\n".to_string(), kind: TokKind::Nl },
        ]
    );
}

#[test]
fn empty_input_gives_no_tokens() {
    let toks = tokenize("").unwrap();
    assert!(toks.is_empty());
}

#[test]
fn reconstruction_of_successful_input() {
    let src = "int a = 1; // note\nchar b;\t{ a++; }";
    let toks = tokenize(src).unwrap();
    let rebuilt: String = toks.iter().map(|t| t.str.as_str()).collect::<Vec<&str>>().concat();
    assert_eq!(rebuilt, src);
    let mut pos = 0;
    for t in &toks {
        assert_eq!(t.pos, pos);
        pos += t.str.chars().count();
    }
}

#[test]
fn repeated_calls_agree() {
    let src = "char c = 3; c++; // done";
    let first = tokenize(src).unwrap();
    let second = tokenize(src).unwrap();
    assert_eq!(first, second);
}

#[test]
fn longest_match_picks_winner_at_offset() {
    let (tok, len) = longest_match("x=1", 1).unwrap();
    assert_eq!(len, 1);
    assert_eq!(tok, Tok { pos: 1, str: "=".to_string(), kind: TokKind::As });
    assert!(longest_match("a@", 1).is_none());
}
