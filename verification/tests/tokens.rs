use graphql::language::errors::ParseError;
use graphql::language::lexer::{Lexer, NameKind, Source, Token, TokenKind};

fn lex(body: &str) -> Result<Token, ParseError> {
    Lexer::lex(Source::new(body)).next(None)
}

fn failure(body: &str) -> ParseError {
    lex(body).err().unwrap()
}

fn string_value(body: &str) -> String {
    let token = lex(body).unwrap();
    assert_eq!(token.kind, TokenKind::String);
    token.value.unwrap()
}

#[test]
fn tokenizes_a_selection_set() {
    let mut lexer = Lexer::lex(Source::new("{ field }"));
    assert_eq!(
        lexer.next(None).unwrap(),
        Token { kind: TokenKind::BraceL, start: 0, end: 1, value: None }
    );
    assert_eq!(
        lexer.next(None).unwrap(),
        Token { kind: TokenKind::Name, start: 2, end: 7, value: Some("field".to_string()) }
    );
    assert_eq!(
        lexer.next(None).unwrap(),
        Token { kind: TokenKind::BraceR, start: 8, end: 9, value: None }
    );
    assert_eq!(
        lexer.next(None).unwrap(),
        Token { kind: TokenKind::EOF, start: 9, end: 9, value: None }
    );
    assert_eq!(
        lexer.next(None).unwrap(),
        Token { kind: TokenKind::EOF, start: 9, end: 9, value: None }
    );
}

#[test]
fn rescanning_from_a_token_end_continues_the_scan() {
    let text = "query Q($a: [Int!] = [1, 2.5e3]) { f(s: \"x\\ny\") @d ...F } # done";
    let mut sequential = Lexer::lex(Source::new(text));
    let mut tokens = vec![];
    loop {
        let token = sequential.next(None).unwrap();
        let done = token.kind == TokenKind::EOF;
        tokens.push(token);
        if done {
            break;
        }
    }
    assert_eq!(tokens.len(), 29);
    let mut jumping = Lexer::lex(Source::new(text));
    let mut i = tokens.len() - 1;
    while i > 0 {
        assert_eq!(jumping.next(Some(tokens[i - 1].end)).unwrap(), tokens[i]);
        i -= 1;
    }
    assert_eq!(jumping.next(Some(0)).unwrap(), tokens[0]);
    assert_eq!(jumping.next(None).unwrap(), tokens[1]);
}

#[test]
fn commas_and_comments_are_skipped() {
    assert_eq!(
        lex(",,,foo,,,,").unwrap(),
        Token { kind: TokenKind::Name, start: 3, end: 6, value: Some("foo".to_string()) }
    );
    assert_eq!(
        lex("#comment\nfoo#comment\n").unwrap(),
        Token { kind: TokenKind::Name, start: 9, end: 12, value: Some("foo".to_string()) }
    );
    let mut lexer = Lexer::lex(Source::new("#comment\nfoo#comment\n"));
    let _ = lexer.next(None);
    assert_eq!(
        lexer.next(None).unwrap(),
        Token { kind: TokenKind::EOF, start: 21, end: 21, value: None }
    );
    assert_eq!(
        lex("# one\r# two\r\n\t\u{b}\u{c} _a1").unwrap(),
        Token { kind: TokenKind::Name, start: 17, end: 20, value: Some("_a1".to_string()) }
    );
    assert_eq!(
        lex("foo#comment").unwrap(),
        Token { kind: TokenKind::Name, start: 0, end: 3, value: Some("foo".to_string()) }
    );
    assert_eq!(
        Lexer::lex(Source::new("foo#comment")).next(Some(3)).unwrap(),
        Token { kind: TokenKind::EOF, start: 11, end: 11, value: None }
    );
}

#[test]
fn wide_blanks_are_skipped() {
    assert_eq!(
        lex("\u{a0}foo").unwrap(),
        Token { kind: TokenKind::Name, start: 2, end: 5, value: Some("foo".to_string()) }
    );
    assert_eq!(
        lex("\u{2028}\u{2029}foo").unwrap(),
        Token { kind: TokenKind::Name, start: 6, end: 9, value: Some("foo".to_string()) }
    );
    assert_eq!(failure("\u{2027}foo").description, "Unexpected character at location 0");
    assert_eq!(failure("\u{a1}").description, "Unexpected character at location 0");
}

#[test]
fn the_end_of_the_text_is_a_token() {
    assert_eq!(lex("").unwrap(), Token { kind: TokenKind::EOF, start: 0, end: 0, value: None });
    assert_eq!(
        lex("  \n").unwrap(),
        Token { kind: TokenKind::EOF, start: 3, end: 3, value: None }
    );
    let mut lexer = Lexer::lex(Source::new("ab"));
    assert_eq!(
        lexer.next(Some(100)).unwrap(),
        Token { kind: TokenKind::EOF, start: 2, end: 2, value: None }
    );
    assert_eq!(
        lexer.next(None).unwrap(),
        Token { kind: TokenKind::EOF, start: 2, end: 2, value: None }
    );
}

#[test]
fn names_run_over_letters_digits_and_underscores() {
    assert_eq!(
        lex("_Ab9_z-").unwrap(),
        Token { kind: TokenKind::Name, start: 0, end: 6, value: Some("_Ab9_z".to_string()) }
    );
    assert_eq!(
        lex("a\u{e9}").unwrap(),
        Token { kind: TokenKind::Name, start: 0, end: 1, value: Some("a".to_string()) }
    );
    assert_eq!(
        lex("on").unwrap(),
        Token { kind: TokenKind::Name, start: 0, end: 2, value: Some("on".to_string()) }
    );
}

#[test]
fn names_that_open_definitions() {
    assert_eq!(lex("query").unwrap().name_kind_from_value(), Some(NameKind::Query));
    assert_eq!(lex("mutation").unwrap().name_kind_from_value(), Some(NameKind::Mutation));
    assert_eq!(lex("fragment").unwrap().name_kind_from_value(), Some(NameKind::Fragment));
    assert_eq!(lex("queries").unwrap().name_kind_from_value(), None);
    assert_eq!(lex("Query").unwrap().name_kind_from_value(), None);
    assert_eq!(lex("{").unwrap().name_kind_from_value(), None);
    assert_eq!(lex("\"query\"").unwrap().name_kind_from_value(), Some(NameKind::Query));
}

#[test]
fn kinds_have_names() {
    assert_eq!(TokenKind::EOF.name(), "EOF");
    assert_eq!(TokenKind::Bang.name(), "Bang");
    assert_eq!(TokenKind::Dollar.name(), "Dollar");
    assert_eq!(TokenKind::ParenL.name(), "ParenL");
    assert_eq!(TokenKind::ParenR.name(), "ParenR");
    assert_eq!(TokenKind::Spread.name(), "Spread");
    assert_eq!(TokenKind::Colon.name(), "Colon");
    assert_eq!(TokenKind::Equals.name(), "Equals");
    assert_eq!(TokenKind::At.name(), "At");
    assert_eq!(TokenKind::BracketL.name(), "BracketL");
    assert_eq!(TokenKind::BracketR.name(), "BracketR");
    assert_eq!(TokenKind::BraceR.name(), "BraceR");
    assert_eq!(TokenKind::BraceL.name(), "BraceL");
    assert_eq!(TokenKind::Pipe.name(), "Pipe");
    assert_eq!(TokenKind::Name.name(), "Name");
    assert_eq!(TokenKind::Variable.name(), "Variable");
    assert_eq!(TokenKind::Int.name(), "Int");
    assert_eq!(TokenKind::Float.name(), "Float");
    assert_eq!(TokenKind::String.name(), "String");
}

#[test]
fn numbers_end_where_the_grammar_ends() {
    assert_eq!(
        lex("12ab").unwrap(),
        Token { kind: TokenKind::Int, start: 0, end: 2, value: Some("12".to_string()) }
    );
    assert_eq!(
        lex("0)").unwrap(),
        Token { kind: TokenKind::Int, start: 0, end: 1, value: Some("0".to_string()) }
    );
    assert_eq!(
        lex("-0.0e0,").unwrap(),
        Token { kind: TokenKind::Float, start: 0, end: 6, value: Some("-0.0e0".to_string()) }
    );
    assert_eq!(
        lex(" 10.50").unwrap(),
        Token { kind: TokenKind::Float, start: 1, end: 6, value: Some("10.50".to_string()) }
    );
}

#[test]
fn malformed_numbers_are_failures() {
    let e = failure("00");
    assert_eq!(e.description, "Invalid number at location 1");
    assert_eq!(e.offset, Some(1));
    assert_eq!(failure("-").description, "Invalid number at location 1");
    assert_eq!(failure("-a").description, "Invalid number at location 1");
    assert_eq!(failure("01").description, "Invalid number at location 1");
    assert_eq!(failure("-09").description, "Invalid number at location 2");
    assert_eq!(failure("1.").description, "Invalid number at location 2");
    assert_eq!(failure("1.e1").description, "Invalid number at location 2");
    assert_eq!(failure("1...").description, "Invalid number at location 2");
    assert_eq!(failure("1e").description, "Invalid number at location 2");
    assert_eq!(failure("1E+").description, "Invalid number at location 3");
    assert_eq!(failure("1.5e-x").description, "Invalid number at location 5");
    assert_eq!(failure("  -.5").description, "Invalid number at location 3");
}

#[test]
fn escapes_are_decoded() {
    assert_eq!(string_value(r#""\"""#), "\"");
    assert_eq!(string_value(r#""\\""#), "\\");
    assert_eq!(string_value(r#""\/""#), "/");
    assert_eq!(string_value(r#""\b""#), "\u{8}");
    assert_eq!(string_value(r#""\f""#), "\u{c}");
    assert_eq!(string_value(r#""\n""#), "\n");
    assert_eq!(string_value(r#""\r""#), "\r");
    assert_eq!(string_value(r#""\t""#), "\t");
    assert_eq!(string_value(r#""a\tb\\c\"d""#), "a\tb\\c\"d");
    assert_eq!(
        lex(r#""a\tb\\c\"d" x"#).unwrap(),
        Token { kind: TokenKind::String, start: 0, end: 12, value: Some("a\tb\\c\"d".to_string()) }
    );
}

#[test]
fn unicode_escapes_are_decoded() {
    assert_eq!(string_value(r#""\u0041""#), "A");
    assert_eq!(string_value(r#""\u00e9""#), "\u{e9}");
    assert_eq!(string_value(r#""\u00E9""#), "\u{e9}");
    assert_eq!(string_value(r#""\u20AC""#), "\u{20ac}");
    assert_eq!(string_value(r#""\uffff""#), "\u{ffff}");
    assert_eq!(string_value(r#""\u0000""#), "\u{0}");
    assert_eq!(string_value(r#""\ud7ff\ue000""#), "\u{d7ff}\u{e000}");
    assert_eq!(string_value(r#""x\u0041\u0042y""#), "xABy");
    assert_eq!(
        lex(r#""\u0041""#).unwrap(),
        Token { kind: TokenKind::String, start: 0, end: 8, value: Some("A".to_string()) }
    );
}

#[test]
fn strings_keep_their_text() {
    assert_eq!(string_value("\"\""), "");
    assert_eq!(string_value("\"h\u{e9}llo \u{1f600} # , \""), "h\u{e9}llo \u{1f600} # , ");
    assert_eq!(
        lex("\"h\u{e9}llo\"").unwrap(),
        Token { kind: TokenKind::String, start: 0, end: 8, value: Some("h\u{e9}llo".to_string()) }
    );
    assert_eq!(string_value("\"\u{e9}\\n\u{e9}\""), "\u{e9}\n\u{e9}");
}

#[test]
fn malformed_strings_are_failures() {
    let e = failure("\"abc");
    assert_eq!(e.description, "Unterminated string at location 4");
    assert_eq!(e.offset, Some(4));
    assert_eq!(failure("\"").description, "Unterminated string at location 1");
    assert_eq!(failure("\"a\nb\"").description, "Unterminated string at location 2");
    assert_eq!(failure("\"a\rb\"").description, "Unterminated string at location 2");
    assert_eq!(failure("\"a\\").description, "Invalid character escape sequence at location 2");
    let e = failure(r#""\x""#);
    assert_eq!(e.description, "Invalid character escape sequence at location 1");
    assert_eq!(e.offset, Some(1));
    assert_eq!(failure(r#""\u12""#).description, "Invalid character escape sequence at location 1");
    assert_eq!(
        failure(r#""ab\u12G4""#).description,
        "Invalid character escape sequence at location 3"
    );
    assert_eq!(failure(r#""\ud800""#).description, "Invalid character escape sequence at location 1");
    assert_eq!(failure(r#""\uDFFF""#).description, "Invalid character escape sequence at location 1");
    assert_eq!(failure("\"\\u00").description, "Invalid character escape sequence at location 1");
}

#[test]
fn malformed_spreads_are_failures() {
    let e = failure("..");
    assert_eq!(e.description, "Malformed spread at location 0");
    assert_eq!(e.offset, Some(0));
    assert_eq!(failure(".").description, "Malformed spread at location 0");
    assert_eq!(failure(" .a.").description, "Malformed spread at location 1");
    assert_eq!(failure(". ..").description, "Malformed spread at location 0");
    assert_eq!(
        lex("....").unwrap(),
        Token { kind: TokenKind::Spread, start: 0, end: 3, value: None }
    );
}

#[test]
fn unknown_characters_are_failures() {
    let e = failure("?");
    assert_eq!(e.description, "Unexpected character at location 0");
    assert_eq!(e.offset, Some(0));
    assert_eq!(failure("  ~").offset, Some(2));
    assert_eq!(failure("            ?").description, "Unexpected character at location 12");
    assert_eq!(failure("\u{0}").description, "Unexpected character at location 0");
    let mut lexer = Lexer::lex(Source::new("\u{e9}"));
    assert_eq!(lexer.next(Some(1)).err().unwrap().description, "Unexpected character at location 1");
}

#[test]
fn a_failure_leaves_the_cursor_where_it_was() {
    let mut lexer = Lexer::lex(Source::new("a ? b"));
    assert_eq!(lexer.next(None).unwrap().end, 1);
    assert_eq!(lexer.next(None).err().unwrap().offset, Some(2));
    assert_eq!(lexer.next(None).err().unwrap().offset, Some(2));
    assert_eq!(
        lexer.next(Some(3)).unwrap(),
        Token { kind: TokenKind::Name, start: 4, end: 5, value: Some("b".to_string()) }
    );
    assert_eq!(lexer.next(None).unwrap().kind, TokenKind::EOF);
}

#[test]
fn offsets_are_written_in_decimal() {
    let mut text = String::new();
    let mut i = 0;
    while i < 1234 {
        text.push(' ');
        i += 1;
    }
    text.push('?');
    let e = failure(&text);
    assert_eq!(e.description, "Unexpected character at location 1234");
    assert_eq!(e.offset, Some(1234));
    let e = ParseError::at("here".to_string(), 7);
    assert_eq!(e.description, "here");
    assert_eq!(e.offset, Some(7));
    let e = ParseError::new("there".to_string());
    assert_eq!(e.description, "there");
    assert_eq!(e.offset, None);
}

#[test]
fn sources_and_tokens_compare_by_value() {
    let a = Source::new("{ a }");
    let b = Source::from("{ a }".to_string());
    assert_eq!(a, b);
    assert_eq!(a.clone(), a);
    assert_ne!(a, Source::new("{ b }"));
    let t = lex("name").unwrap();
    assert_eq!(t.clone(), t);
}
