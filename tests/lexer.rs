use pickle_risc::lexer::{parse_num, tokenize, Token};

fn toks(s: &str) -> Vec<Token> {
    tokenize(s).into_iter().map(|t| t.token).collect()
}

fn chars(s: &str) -> Vec<char> {
    s.chars().collect()
}

#[test]
fn identifiers() {
    assert_eq!(toks("abcd"), vec![Token::Identifier("abcd".into())]);
    assert_eq!(toks(".abcd1"), vec![Token::Identifier(".abcd1".into())]);
    assert_eq!(toks("_123"), vec![Token::Identifier("_123".into())]);
}

#[test]
fn numbers() {
    assert_eq!(toks("0x1_23"), vec![Token::Number(0x123)]);
    assert_eq!(toks("0x"), vec![Token::Error]);
    assert_eq!(toks("0xefg123"), vec![Token::Number(0xef), Token::Identifier("g123".into())]);
    assert_eq!(toks("0b0123"), vec![Token::Number(0b01), Token::Number(23)]);
    assert_eq!(toks("0o17"), vec![Token::Number(0o17)]);
    assert_eq!(toks("2_147_483_647"), vec![Token::Number(2_147_483_647)]);
    assert_eq!(toks("2_147_483_648"), vec![Token::Error]);
}

#[test]
fn parse_num_values() {
    let s = chars("1_0ff");
    assert_eq!(parse_num(&s, 0, 5, 16), Some(0x10ff));
    let s = chars("2147483648");
    assert_eq!(parse_num(&s, 0, 10, 10), None);
    assert_eq!(parse_num(&s, 0, 9, 10), Some(214748364));
}

#[test]
fn strings() {
    assert_eq!(toks(r#""abc""#), vec![Token::Str(chars("abc"))]);
    assert_eq!(toks(r#""\u{1f44d}""#), vec![Token::Str(chars("👍"))]);
    assert_eq!(
        toks(r#""\\a\"b\nc\rd\te\0f\u{20}""#),
        vec![Token::Str(chars("\\a\"b\nc\rd\te\0f "))]
    );
    assert_eq!(toks(r#""\q""#), vec![Token::Error]);
    assert_eq!(toks(r#""\u{aX}""#), vec![Token::Error]);
    assert_eq!(toks(r#""\u20""#), vec![Token::Error]);
    assert_eq!(toks(r#""\u{110000}""#), vec![Token::Error]);
    assert_eq!(
        toks("\"abc\ndef\""),
        vec![Token::Error, Token::Eol, Token::Identifier("def".into()), Token::Error]
    );
}

#[test]
fn operators_and_comments() {
    assert_eq!(
        toks("a <= b << 2 # comment\n;"),
        vec![
            Token::Identifier("a".into()),
            Token::Le,
            Token::Identifier("b".into()),
            Token::Shl,
            Token::Number(2),
            Token::Eol,
            Token::Semicolon
        ]
    );
    assert_eq!(toks("&& || & | ^ ~ ! != = =="), vec![
        Token::LogicalAnd, Token::LogicalOr, Token::BitAnd, Token::BitOr, Token::BitXor,
        Token::BitNot, Token::Not, Token::Neq, Token::Assign, Token::Eq
    ]);
    assert_eq!(toks("$"), vec![Token::Error]);
}

#[test]
fn spans_are_character_ranges() {
    let t = tokenize("ab  12");
    assert_eq!((t[0].start, t[0].end), (0, 2));
    assert_eq!((t[1].start, t[1].end), (4, 6));
}
