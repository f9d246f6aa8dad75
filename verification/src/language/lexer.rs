//! The tokenizer: a cursor over a source text that hands out one token at a
//! time, from where it stands or from any offset the caller names.

use vstd::prelude::*;
use vstd::string::*;
use vstd::utf8::*;
use crate::language::errors::{outcome, ParseError, ParseErrorView};
use crate::language::lexical;
use crate::language::lexical::TokenView;
use crate::language::text;

verus! {

/// A text to be parsed, with an optional name for messages.
#[derive(PartialEq, Debug)]
pub struct Source {
    body: String,
    name: Option<String>,
}

/// The mathematical content of a `Source`: the bytes of its text and its name.
pub ghost struct SourceView {
    pub body: Seq<u8>,
    pub name: Option<Seq<char>>,
}

impl View for Source {
    type V = SourceView;

    closed spec fn view(&self) -> SourceView {
        SourceView {
            body: encode_utf8(self.body@),
            name: match self.name {
                Some(n) => Some(n@),
                None => None,
            },
        }
    }
}

impl Clone for Source {
    fn clone(&self) -> (r: Source)
        ensures
            r == *self,
    {
        Source {
            body: self.body.clone(),
            name: match &self.name {
                Some(n) => Some(n.clone()),
                None => None,
            },
        }
    }
}

impl Source {
    /// A source without a name that holds the text `body`.
    pub fn new(body: &str) -> (s: Source)
        ensures
            s@ == (SourceView { body: encode_utf8(body@), name: None }),
    {
        Source::from(body.to_owned())
    }

    /// A source without a name that holds the text `body`.
    pub fn from(body: String) -> (s: Source)
        ensures
            s@ == (SourceView { body: encode_utf8(body@), name: None }),
    {
        Source { body: body, name: None }
    }
}

/// The kinds of token.
#[derive(PartialEq, Eq, Structural, Debug, Clone, Copy)]
pub enum TokenKind {
    EOF,
    Bang,
    Dollar,
    ParenL,
    ParenR,
    Spread,
    Colon,
    Equals,
    At,
    BracketL,
    BracketR,
    BraceR,
    BraceL,
    Pipe,
    Name,
    Variable,
    Int,
    Float,
    String,
}

impl TokenKind {
    /// The name of the kind, as messages show it.
    pub open spec fn label(self) -> Seq<char> {
        match self {
            TokenKind::EOF => "EOF"@,
            TokenKind::Bang => "Bang"@,
            TokenKind::Dollar => "Dollar"@,
            TokenKind::ParenL => "ParenL"@,
            TokenKind::ParenR => "ParenR"@,
            TokenKind::Spread => "Spread"@,
            TokenKind::Colon => "Colon"@,
            TokenKind::Equals => "Equals"@,
            TokenKind::At => "At"@,
            TokenKind::BracketL => "BracketL"@,
            TokenKind::BracketR => "BracketR"@,
            TokenKind::BraceR => "BraceR"@,
            TokenKind::BraceL => "BraceL"@,
            TokenKind::Pipe => "Pipe"@,
            TokenKind::Name => "Name"@,
            TokenKind::Variable => "Variable"@,
            TokenKind::Int => "Int"@,
            TokenKind::Float => "Float"@,
            TokenKind::String => "String"@,
        }
    }

    /// The name of the kind, as messages show it.
    pub fn name(&self) -> (s: &'static str)
        ensures
            s@ == self.label(),
    {
        match self {
            TokenKind::EOF => "EOF",
            TokenKind::Bang => "Bang",
            TokenKind::Dollar => "Dollar",
            TokenKind::ParenL => "ParenL",
            TokenKind::ParenR => "ParenR",
            TokenKind::Spread => "Spread",
            TokenKind::Colon => "Colon",
            TokenKind::Equals => "Equals",
            TokenKind::At => "At",
            TokenKind::BracketL => "BracketL",
            TokenKind::BracketR => "BracketR",
            TokenKind::BraceR => "BraceR",
            TokenKind::BraceL => "BraceL",
            TokenKind::Pipe => "Pipe",
            TokenKind::Name => "Name",
            TokenKind::Variable => "Variable",
            TokenKind::Int => "Int",
            TokenKind::Float => "Float",
            TokenKind::String => "String",
        }
    }
}

/// The names that open a definition.
#[derive(PartialEq, Eq, Structural, Debug, Clone, Copy)]
pub enum NameKind {
    Query,
    Mutation,
    Fragment,
}

/// One lexical unit of a text: its kind, the half-open byte span
/// `start..end` it covers, and the text it stands for, where it has one.
#[derive(PartialEq, Debug)]
pub struct Token {
    pub kind: TokenKind,
    pub start: usize,
    pub end: usize,
    pub value: Option<String>,
}

impl View for Token {
    type V = TokenView;

    open spec fn view(&self) -> TokenView {
        TokenView {
            kind: self.kind,
            start: self.start as int,
            end: self.end as int,
            value: match self.value {
                Some(v) => Some(v@),
                None => None,
            },
        }
    }
}

impl Clone for Token {
    fn clone(&self) -> (r: Token)
        ensures
            r == *self,
    {
        Token {
            kind: self.kind,
            start: self.start,
            end: self.end,
            value: match &self.value {
                Some(v) => Some(v.clone()),
                None => None,
            },
        }
    }
}

/// Which definition the name `value` opens, if any.
pub open spec fn name_kind(value: Option<Seq<char>>) -> Option<NameKind> {
    match value {
        Some(v) => if v == "mutation"@ {
            Some(NameKind::Mutation)
        } else if v == "query"@ {
            Some(NameKind::Query)
        } else if v == "fragment"@ {
            Some(NameKind::Fragment)
        } else {
            None
        },
        None => None,
    }
}

impl Token {
    /// A token without a value.
    fn make(kind: TokenKind, start: usize, end: usize) -> (t: Token)
        ensures
            t@ == (TokenView { kind, start: start as int, end: end as int, value: None }),
    {
        Token { kind: kind, start: start, end: end, value: None }
    }

    /// A one-byte token without a value.
    fn make_char(kind: TokenKind, start: usize) -> (t: Token)
        requires
            start < usize::MAX,
        ensures
            t@ == (TokenView { kind, start: start as int, end: start + 1, value: None }),
    {
        Token { kind: kind, start: start, end: start + 1, value: None }
    }

    /// Which definition this token opens, going by its value alone.
    pub fn name_kind_from_value(&self) -> (r: Option<NameKind>)
        ensures
            r == name_kind(self@.value),
    {
        match &self.value {
            Some(v) => {
                if text::same_text(v.as_str(), "mutation") {
                    Some(NameKind::Mutation)
                } else if text::same_text(v.as_str(), "query") {
                    Some(NameKind::Query)
                } else if text::same_text(v.as_str(), "fragment") {
                    Some(NameKind::Fragment)
                } else {
                    None
                }
            },
            None => None,
        }
    }
}

/// A cursor over a source: the source and the offset at which the next token
/// is looked for when the caller names no other.
pub struct Lexer {
    prev_position: usize,
    source: Source,
}

impl Lexer {
    /// The offset at which the next token is looked for.
    pub closed spec fn position(&self) -> int {
        self.prev_position as int
    }

    /// The source that is read.
    pub closed spec fn source(&self) -> Source {
        self.source
    }

    /// A cursor at the start of `source`.
    pub fn lex(source: Source) -> (l: Lexer)
        ensures
            l.position() == 0,
            l.source() == source,
    {
        Lexer { prev_position: 0, source: source }
    }

    /// Whether `code` is a one-byte insignificant character.
    fn is_whitespace(code: u8) -> (r: bool)
        ensures
            r == lexical::is_blank(code),
    {
        code == 32 || code == 44 || (code > 8 && code < 14)
    }

    /// The offset of the first significant byte of `body` at or after
    /// `start_position`, or the length of `body`.
    fn position_after_whitespace(body: &str, start_position: usize) -> (position: usize)
        ensures
            position == lexical::significant_from(body.spec_bytes(), start_position as int),
    {
        let bytes = body.as_bytes();
        let body_length = bytes.len();
        let mut position = start_position;
        let mut in_comment = false;
        while position < body_length
            invariant
                bytes@ == body.spec_bytes(),
                body_length == bytes@.len(),
                lexical::significant_from(bytes@, start_position as int) == if in_comment {
                    lexical::comment_from(bytes@, position as int)
                } else {
                    lexical::significant_from(bytes@, position as int)
                },
            decreases 2 * (body_length - position) + if in_comment { 1int } else { 0int },
        {
            let code = bytes[position];
            if in_comment {
                if code == 10 || code == 13 {
                    in_comment = false;
                } else {
                    position += 1;
                }
            } else if Lexer::is_whitespace(code) {
                position += 1;
            } else if code == 0xC2 && position + 1 < body_length && bytes[position + 1] == 0xA0 {
                position += 2;
            } else if code == 0xE2 && body_length - position > 2 && bytes[position + 1] == 0x80 && (
            bytes[position + 2] == 0xA8 || bytes[position + 2] == 0xA9) {
                position += 3;
            } else if code == 35 {
                position += 1;
                in_comment = true;
            } else {
                return position;
            }
        }
        body_length
    }

    /// The text of `body` between two character boundaries, as a string of its
    /// own.
    fn substring_from_body(body: &str, start: usize, end: usize) -> (s: String)
        requires
            start <= end <= body.spec_bytes().len(),
            is_char_boundary(body.spec_bytes(), start as int),
            is_char_boundary(body.spec_bytes(), end as int),
        ensures
            s@ == lexical::text(body.spec_bytes(), start as int, end as int),
    {
        text::slice(body, start, end).to_owned()
    }

    /// The name token that starts at `position`.
    fn read_name(body: &str, position: usize) -> (t: Token)
        requires
            position < body.spec_bytes().len(),
            lexical::is_name_start(body.spec_bytes()[position as int]),
        ensures
            lexical::token_at(body.spec_bytes(), position as int) == Ok::<
                TokenView,
                ParseErrorView,
            >(t@),
    {
        let bytes = body.as_bytes();
        let body_len = bytes.len();
        let mut end = position + 1;
        while end < body_len && Lexer::is_name_byte(bytes[end])
            invariant
                bytes@ == body.spec_bytes(),
                body_len == bytes@.len(),
                position < end <= body_len,
                lexical::name_end(bytes@, position + 1) == lexical::name_end(bytes@, end as int),
                forall|j: int| position <= j < end ==> bytes@[j] < 0x80,
            decreases body_len - end,
        {
            end += 1;
        }
        proof {
            encode_utf8_valid_utf8(body@);
            text::lemma_ascii_boundaries(bytes@, position as int);
            text::lemma_ascii_boundaries(bytes@, end - 1);
        }
        let string = Lexer::substring_from_body(body, position, end);
        Token { kind: TokenKind::Name, start: position, end: end, value: Some(string) }
    }

    /// Whether `code` may continue a name.
    fn is_name_byte(code: u8) -> (r: bool)
        ensures
            r == lexical::is_name_continue(code),
    {
        code == 95 || (code >= 48 && code <= 57) || (code >= 65 && code <= 90) || (code >= 97
            && code <= 122)
    }

    /// Whether `code` is a decimal digit.
    fn is_digit(code: u8) -> (r: bool)
        ensures
            r == lexical::is_digit(code),
    {
        code >= 48 && code <= 57
    }

    /// The end of the run of digits of `bytes` that starts at `position`.
    fn skip_digits(bytes: &[u8], position: usize) -> (end: usize)
        requires
            position <= bytes@.len(),
        ensures
            end == lexical::digits_end(bytes@, position as int),
            position <= end <= bytes@.len(),
            lexical::digit_at(bytes@, position as int) ==> position < end,
            forall|j: int| position <= j < end ==> lexical::is_digit(#[trigger] bytes@[j]),
    {
        let mut end = position;
        while end < bytes.len() && Lexer::is_digit(bytes[end])
            invariant
                position <= end <= bytes@.len(),
                lexical::digits_end(bytes@, position as int) == lexical::digits_end(
                    bytes@,
                    end as int,
                ),
                forall|j: int| position <= j < end ==> lexical::is_digit(#[trigger] bytes@[j]),
            decreases bytes@.len() - end,
        {
            end += 1;
        }
        end
    }

    /// The end of the integer part that starts at `i`, or the offset at which
    /// it breaks the rule.
    fn integer_part(bytes: &[u8], i: usize) -> (r: Result<usize, usize>)
        requires
            i <= bytes@.len(),
        ensures
            r matches Ok(end) ==> lexical::integer_part(bytes@, i as int) == Ok::<int, int>(
                end as int,
            ) && i < end <= bytes@.len() && lexical::is_digit(bytes@[end - 1]),
            r matches Err(at) ==> lexical::integer_part(bytes@, i as int) == Err::<int, int>(
                at as int,
            ) && at <= bytes@.len(),
    {
        if !(i < bytes.len() && Lexer::is_digit(bytes[i])) {
            return Err(i);
        }
        if bytes[i] == 48 {
            if i + 1 < bytes.len() && Lexer::is_digit(bytes[i + 1]) {
                return Err(i + 1);
            }
            Ok(i + 1)
        } else {
            Ok(Lexer::skip_digits(bytes, i))
        }
    }

    /// The end of the optional fraction at `i`, or the offset at which a digit
    /// is missing.
    fn fraction_part(bytes: &[u8], i: usize) -> (r: Result<usize, usize>)
        requires
            i <= bytes@.len(),
        ensures
            r matches Ok(end) ==> lexical::fraction_part(bytes@, i as int) == Ok::<int, int>(
                end as int,
            ) && i <= end <= bytes@.len() && (end > i ==> lexical::is_digit(bytes@[end - 1])),
            r matches Err(at) ==> lexical::fraction_part(bytes@, i as int) == Err::<int, int>(
                at as int,
            ) && at <= bytes@.len(),
    {
        if !(i < bytes.len() && bytes[i] == 46) {
            return Ok(i);
        }
        if !(i + 1 < bytes.len() && Lexer::is_digit(bytes[i + 1])) {
            return Err(i + 1);
        }
        Ok(Lexer::skip_digits(bytes, i + 1))
    }

    /// The end of the optional exponent at `i`, or the offset at which a digit
    /// is missing.
    fn exponent_part(bytes: &[u8], i: usize) -> (r: Result<usize, usize>)
        requires
            i <= bytes@.len(),
        ensures
            r matches Ok(end) ==> lexical::exponent_part(bytes@, i as int) == Ok::<int, int>(
                end as int,
            ) && i <= end <= bytes@.len() && (end > i ==> lexical::is_digit(bytes@[end - 1])),
            r matches Err(at) ==> lexical::exponent_part(bytes@, i as int) == Err::<int, int>(
                at as int,
            ) && at <= bytes@.len(),
    {
        if !(i < bytes.len() && (bytes[i] == 69 || bytes[i] == 101)) {
            return Ok(i);
        }
        let mut digits = i + 1;
        if digits < bytes.len() && (bytes[digits] == 43 || bytes[digits] == 45) {
            digits += 1;
        }
        if !(digits < bytes.len() && Lexer::is_digit(bytes[digits])) {
            return Err(digits);
        }
        Ok(Lexer::skip_digits(bytes, digits))
    }

    /// The number token that starts at `start`.
    fn read_number(body: &str, start: usize) -> (r: Result<Token, ParseError>)
        requires
            start < body.spec_bytes().len(),
            body.spec_bytes()[start as int] == 45 || lexical::is_digit(
                body.spec_bytes()[start as int],
            ),
        ensures
            outcome(r) == lexical::number(body.spec_bytes(), start as int),
    {
        let bytes = body.as_bytes();
        let digits = if bytes[start] == 45 {
            start + 1
        } else {
            start
        };
        let whole = match Lexer::integer_part(bytes, digits) {
            Ok(end) => end,
            Err(at) => {
                return Err(text::failure_at("Invalid number", at));
            },
        };
        let fraction = match Lexer::fraction_part(bytes, whole) {
            Ok(end) => end,
            Err(at) => {
                return Err(text::failure_at("Invalid number", at));
            },
        };
        let end = match Lexer::exponent_part(bytes, fraction) {
            Ok(end) => end,
            Err(at) => {
                return Err(text::failure_at("Invalid number", at));
            },
        };
        let kind = if end > whole {
            TokenKind::Float
        } else {
            TokenKind::Int
        };
        proof {
            encode_utf8_valid_utf8(body@);
            text::lemma_ascii_boundaries(bytes@, start as int);
            text::lemma_ascii_boundaries(bytes@, end - 1);
        }
        let string = Lexer::substring_from_body(body, start, end);
        Ok(Token { kind: kind, start: start, end: end, value: Some(string) })
    }

    /// The value of the hexadecimal digit `code`, if it is one.
    fn hex_digit(code: u8) -> (r: Option<u32>)
        ensures
            match lexical::hex_value(code) {
                Some(v) => r == Some(v as u32) && 0 <= v < 16,
                None => r is None,
            },
    {
        if code >= 48 && code <= 57 {
            Some((code - 48) as u32)
        } else if code >= 65 && code <= 70 {
            Some((code - 55) as u32)
        } else if code >= 97 && code <= 102 {
            Some((code - 87) as u32)
        } else {
            None
        }
    }

    /// The escape that stands right behind a backslash, at offset `i`: the
    /// character it stands for and the number of bytes it takes.
    fn read_escape(bytes: &[u8], i: usize) -> (r: Option<(char, usize)>)
        requires
            i <= bytes@.len(),
        ensures
            match lexical::escape(bytes@, i as int) {
                Some((c, width)) => {
                    &&& r == Some((c, width as usize))
                    &&& 1 <= width
                    &&& i + width <= bytes@.len()
                    &&& bytes@[i + width - 1] < 0x80
                },
                None => r is None,
            },
    {
        if i >= bytes.len() {
            return None;
        }
        let code = bytes[i];
        if code == 34 {
            Some(('"', 1))
        } else if code == 92 {
            Some(('\\', 1))
        } else if code == 47 {
            Some(('/', 1))
        } else if code == 98 {
            Some(('\u{8}', 1))
        } else if code == 102 {
            Some(('\u{c}', 1))
        } else if code == 110 {
            Some(('\n', 1))
        } else if code == 114 {
            Some(('\r', 1))
        } else if code == 116 {
            Some(('\t', 1))
        } else if code == 117 {
            if bytes.len() - i < 5 {
                return None;
            }
            match (
                Lexer::hex_digit(bytes[i + 1]),
                Lexer::hex_digit(bytes[i + 2]),
                Lexer::hex_digit(bytes[i + 3]),
                Lexer::hex_digit(bytes[i + 4]),
            ) {
                (Some(a), Some(b), Some(c), Some(d)) => {
                    let v: u32 = a * 4096 + b * 256 + c * 16 + d;
                    match char::from_u32(v) {
                        Some(c) => Some((c, 5)),
                        None => None,
                    }
                },
                _ => None,
            }
        } else {
            None
        }
    }

    /// The string token whose opening quote stands at `start`.
    fn read_string(body: &str, start: usize) -> (r: Result<Token, ParseError>)
        requires
            start < body.spec_bytes().len(),
            body.spec_bytes()[start as int] == 34,
        ensures
            outcome(r) == lexical::string(body.spec_bytes(), start as int),
    {
        let bytes = body.as_bytes();
        let len = bytes.len();
        let mut position = start + 1;
        let mut chunk_start = position;
        let mut value = String::new();
        proof {
            encode_utf8_valid_utf8(body@);
            text::lemma_ascii_boundaries(bytes@, start as int);
            lexical::lemma_prefixed_empty(lexical::string_tail(bytes@, start + 1, start + 1));
        }
        loop
            invariant
                bytes@ == body.spec_bytes(),
                len == bytes@.len(),
                valid_utf8(bytes@),
                start < chunk_start <= position <= len,
                is_char_boundary(bytes@, chunk_start as int),
                lexical::string_tail(bytes@, start + 1, start + 1) == lexical::prefixed(
                    value@,
                    lexical::string_tail(bytes@, chunk_start as int, position as int),
                ),
            decreases len - position,
        {
            if position >= len || bytes[position] == 10 || bytes[position] == 13 {
                return Err(text::failure_at("Unterminated string", position));
            }
            let code = bytes[position];
            if code == 34 {
                proof {
                    text::lemma_ascii_boundaries(bytes@, position as int);
                }
                value.append(text::slice(body, chunk_start, position));
                return Ok(
                    Token {
                        kind: TokenKind::String,
                        start: start,
                        end: position + 1,
                        value: Some(value),
                    },
                );
            } else if code == 92 {
                match Lexer::read_escape(bytes, position + 1) {
                    None => {
                        return Err(
                            text::failure_at("Invalid character escape sequence", position),
                        );
                    },
                    Some((c, width)) => {
                        proof {
                            text::lemma_ascii_boundaries(bytes@, position as int);
                            text::lemma_ascii_boundaries(bytes@, position + width);
                            let chunk = lexical::text(bytes@, chunk_start as int, position as int);
                            lexical::lemma_prefixed_twice(
                                value@,
                                chunk.push(c),
                                lexical::string_tail(
                                    bytes@,
                                    position + 1 + width,
                                    position + 1 + width,
                                ),
                            );
                            assert(value@ + chunk.push(c) =~= (value@ + chunk).push(c));
                        }
                        value.append(text::slice(body, chunk_start, position));
                        value.push(c);
                        position = position + 1 + width;
                        chunk_start = position;
                    },
                }
            } else {
                position += 1;
            }
        }
    }

    /// The kind of the one-byte punctuator `code`, if it is one.
    fn punctuator(code: u8) -> (r: Option<TokenKind>)
        ensures
            r == lexical::punctuator(code),
    {
        if code == 33 {
            Some(TokenKind::Bang)
        } else if code == 36 {
            Some(TokenKind::Dollar)
        } else if code == 40 {
            Some(TokenKind::ParenL)
        } else if code == 41 {
            Some(TokenKind::ParenR)
        } else if code == 58 {
            Some(TokenKind::Colon)
        } else if code == 61 {
            Some(TokenKind::Equals)
        } else if code == 64 {
            Some(TokenKind::At)
        } else if code == 91 {
            Some(TokenKind::BracketL)
        } else if code == 93 {
            Some(TokenKind::BracketR)
        } else if code == 123 {
            Some(TokenKind::BraceL)
        } else if code == 124 {
            Some(TokenKind::Pipe)
        } else if code == 125 {
            Some(TokenKind::BraceR)
        } else {
            None
        }
    }

    /// The next token of `source` at or after `from_position`.
    fn read_token(source: &Source, from_position: usize) -> (r: Result<Token, ParseError>)
        ensures
            outcome(r) == lexical::read_token(source@.body, from_position as int),
    {
        proof {
            reveal(lexical::read_token);
        }
        let body = source.body.as_str();
        let position = Lexer::position_after_whitespace(body, from_position);
        let bytes = body.as_bytes();
        let len = bytes.len();
        if position >= len {
            return Ok(Token::make(TokenKind::EOF, len, len));
        }
        let code = bytes[position];
        match Lexer::punctuator(code) {
            Some(kind) => Ok(Token::make_char(kind, position)),
            None => {
                if code == 46 {
                    if len - position >= 3 && bytes[position + 1] == 46 && bytes[position + 2]
                        == 46 {
                        Ok(Token::make(TokenKind::Spread, position, position + 3))
                    } else {
                        Err(text::failure_at("Malformed spread", position))
                    }
                } else if code == 95 || (code >= 65 && code <= 90) || (code >= 97 && code
                    <= 122) {
                    Ok(Lexer::read_name(body, position))
                } else if code == 45 || Lexer::is_digit(code) {
                    Lexer::read_number(body, position)
                } else if code == 34 {
                    Lexer::read_string(body, position)
                } else {
                    Err(text::failure_at("Unexpected character", position))
                }
            },
        }
    }

    /// What `next` gives for the argument `reset_position`: the token read at
    /// that offset or, where there is none, at the cursor's own.
    pub open spec fn upcoming(&self, reset_position: Option<usize>) -> Result<
        TokenView,
        ParseErrorView,
    > {
        lexical::read_token(
            self.source()@.body,
            match reset_position {
                Some(i) => i as int,
                None => self.position(),
            },
        )
    }

    /// Scanning keeps no state but the offset: from the offset `k`, a cursor
    /// that is told to scan there gives what a cursor gives that has scanned
    /// its way to `k`, whatever either has scanned before.
    pub proof fn lemma_scanning_is_stateless(self, other: Lexer, k: usize)
        requires
            self.source()@ == other.source()@,
            other.position() == k,
        ensures
            self.upcoming(Some(k)) == other.upcoming(None),
    {
    }

    /// The next token, read at `reset_position` where one is given and at the
    /// end of the token returned last otherwise. The cursor moves to the end of
    /// the token it returns; a failure leaves it where it was.
    pub fn next(&mut self, reset_position: Option<usize>) -> (r: Result<Token, ParseError>)
        ensures
            final(self).source() == old(self).source(),
            outcome(r) == old(self).upcoming(reset_position),
            final(self).position() == match r {
                Ok(t) => t.end as int,
                Err(_) => old(self).position(),
            },
            r matches Ok(t) ==> lexical::well_formed_token(old(self).source()@.body, t@),
            r matches Err(e) ==> e.offset matches Some(at) && at <= old(self).source()@.body.len(),
    {
        proof {
            lexical::lemma_read_token(
                self.source@.body,
                match reset_position {
                    Some(i) => i as int,
                    None => self.prev_position as int,
                },
            );
        }
        let from = match reset_position {
            Some(i) => i,
            None => self.prev_position,
        };
        match Lexer::read_token(&self.source, from) {
            Ok(token) => {
                self.prev_position = token.end;
                Ok(token)
            },
            Err(e) => Err(e),
        }
    }
}

} // verus!

