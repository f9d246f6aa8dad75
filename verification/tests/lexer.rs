use graphql::language::lexer::{Lexer, Source, Token, TokenKind};

fn lex_one(body: &str) -> Token {
    Lexer::lex(Source::new(body)).next(None).unwrap()
}

fn test_punct(punc: &str, kind: TokenKind) {
    assert_eq!(lex_one(punc), Token { kind: kind, start: 0, end: 1, value: None });
}

#[test]
fn lexer_it_skips_whitespace() {
    assert_eq!(
        lex_one(
            "

        foo

        "
        ),
        Token { kind: TokenKind::Name, start: 10, end: 13, value: Some("foo".to_string()) }
    );

    assert_eq!(
        lex_one(
            "
        #comment
        foo#comment
        "
        ),
        Token { kind: TokenKind::Name, start: 26, end: 29, value: Some("foo".to_string()) }
    );

    assert_eq!(
        lex_one(",,,foo,,,,"),
        Token { kind: TokenKind::Name, start: 3, end: 6, value: Some("foo".to_string()) }
    );
}

#[test]
fn language_it_skips_whitespace() {
    let mut lexer = Lexer::lex(Source::new(
        "

    foo

    ",
    ));
    let mut token =
        Token { kind: TokenKind::Name, start: 6, end: 9, value: Some("foo".to_string()) };
    assert_eq!(lexer.next(None).unwrap(), token);

    lexer = Lexer::lex(Source::new(
        "
    #comment
    foo#comment
    ",
    ));
    token = Token { kind: TokenKind::Name, start: 18, end: 21, value: Some("foo".to_string()) };
    assert_eq!(lexer.next(None).unwrap(), token);

    lexer = Lexer::lex(Source::new(",,,foo,,,"));
    token = Token { kind: TokenKind::Name, start: 3, end: 6, value: Some("foo".to_string()) };
    assert_eq!(lexer.next(None).unwrap(), token);
}

#[test]
fn it_lexes_numbers() {
    assert_eq!(
        lex_one("4"),
        Token { kind: TokenKind::Int, start: 0, end: 1, value: Some("4".to_string()) }
    );
    assert_eq!(
        lex_one("4.123"),
        Token { kind: TokenKind::Float, start: 0, end: 5, value: Some("4.123".to_string()) }
    );
    assert_eq!(
        lex_one("-4"),
        Token { kind: TokenKind::Int, start: 0, end: 2, value: Some("-4".to_string()) }
    );
    assert_eq!(
        lex_one("9"),
        Token { kind: TokenKind::Int, start: 0, end: 1, value: Some("9".to_string()) }
    );
    assert_eq!(
        lex_one("0"),
        Token { kind: TokenKind::Int, start: 0, end: 1, value: Some("0".to_string()) }
    );
    // A digit right behind a leading zero is a malformed number, not a token
    // `0` followed by another number.
    let doubled = Lexer::lex(Source::new("00")).next(None);
    assert_eq!(doubled.err().unwrap().description, "Invalid number at location 1");
    assert_eq!(
        lex_one("-4.123"),
        Token { kind: TokenKind::Float, start: 0, end: 6, value: Some("-4.123".to_string()) }
    );
    assert_eq!(
        lex_one("0.123"),
        Token { kind: TokenKind::Float, start: 0, end: 5, value: Some("0.123".to_string()) }
    );
    assert_eq!(
        lex_one("123e4"),
        Token { kind: TokenKind::Float, start: 0, end: 5, value: Some("123e4".to_string()) }
    );
    assert_eq!(
        lex_one("123E4"),
        Token { kind: TokenKind::Float, start: 0, end: 5, value: Some("123E4".to_string()) }
    );
    assert_eq!(
        lex_one("123e-4"),
        Token { kind: TokenKind::Float, start: 0, end: 6, value: Some("123e-4".to_string()) }
    );
    assert_eq!(
        lex_one("123e+4"),
        Token { kind: TokenKind::Float, start: 0, end: 6, value: Some("123e+4".to_string()) }
    );
    assert_eq!(
        lex_one("-1.123e4"),
        Token { kind: TokenKind::Float, start: 0, end: 8, value: Some("-1.123e4".to_string()) }
    );
    assert_eq!(
        lex_one("-1.123E4"),
        Token { kind: TokenKind::Float, start: 0, end: 8, value: Some("-1.123E4".to_string()) }
    );
    assert_eq!(
        lex_one("-1.123e-4"),
        Token { kind: TokenKind::Float, start: 0, end: 9, value: Some("-1.123e-4".to_string()) }
    );
    assert_eq!(
        lex_one("-1.123e+4"),
        Token { kind: TokenKind::Float, start: 0, end: 9, value: Some("-1.123e+4".to_string()) }
    );
    assert_eq!(
        lex_one("-1.123e4567"),
        Token {
            kind: TokenKind::Float,
            start: 0,
            end: 11,
            value: Some("-1.123e4567".to_string())
        }
    );
}

#[test]
fn it_lexes_punctuation() {
    test_punct("!", TokenKind::Bang);
    test_punct("$", TokenKind::Dollar);
    test_punct("(", TokenKind::ParenL);
    test_punct(")", TokenKind::ParenR);
    assert_eq!(lex_one("..."), Token { kind: TokenKind::Spread, start: 0, end: 3, value: None });
    test_punct(":", TokenKind::Colon);
    test_punct("=", TokenKind::Equals);
    test_punct("@", TokenKind::At);
    test_punct("[", TokenKind::BracketL);
    test_punct("]", TokenKind::BracketR);
    test_punct("{", TokenKind::BraceL);
    test_punct("}", TokenKind::BraceR);
    test_punct("|", TokenKind::Pipe);
}

#[test]
fn it_lexes_strings() {
    assert_eq!(
        lex_one("\"simple\""),
        Token { kind: TokenKind::String, start: 0, end: 8, value: Some("simple".to_string()) }
    );
    assert_eq!(
        lex_one(r#"" white space ""#),
        Token {
            kind: TokenKind::String,
            start: 0,
            end: 15,
            value: Some(" white space ".to_string())
        }
    );
    // An escaped quote stands for the quote alone.
    assert_eq!(
        lex_one(r#""\"""#),
        Token { kind: TokenKind::String, start: 0, end: 4, value: Some("\"".to_string()) }
    );
    assert_eq!(
        lex_one(r#""quote \"""#),
        Token { kind: TokenKind::String, start: 0, end: 10, value: Some(r#"quote ""#.to_string()) }
    );
}

#[test]
fn it_finishes() {
    let source = Source::new("{{");
    let mut lexer = Lexer::lex(source);
    let _ = lexer.next(None);
    let _ = lexer.next(None);
    assert_eq!(lexer.next(None).unwrap().kind, TokenKind::EOF);
}
