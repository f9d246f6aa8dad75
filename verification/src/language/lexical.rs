//! The lexical grammar, as mathematics: which token stands at or after a byte
//! offset of a text, or why there is none.
//!
//! A text is a sequence of bytes. Insignificant characters (blanks, commas and
//! comments) separate tokens and belong to none. Every function here is total:
//! an offset outside the text behaves as the end of the text.

use vstd::prelude::*;
use vstd::utf8::*;
use crate::language::errors::ParseErrorView;
use crate::language::lexer::TokenKind;
use crate::language::text::{decimal, lemma_decode_ascii};

verus! {

/// The mathematical content of a token: its kind, the half-open byte span
/// `start..end` it covers, and the text it stands for, where it has one.
pub ghost struct TokenView {
    pub kind: TokenKind,
    pub start: int,
    pub end: int,
    pub value: Option<Seq<char>>,
}

/// The byte `b` stands at offset `i` of the text.
pub open spec fn holds(bytes: Seq<u8>, i: int, b: u8) -> bool {
    0 <= i < bytes.len() && bytes[i] == b
}

/// A one-byte insignificant character: space, comma, or one of the controls
/// from horizontal tab to carriage return.
pub open spec fn is_blank(b: u8) -> bool {
    b == 32 || b == 44 || (9 <= b && b <= 13)
}

/// A byte that ends a line: line feed or carriage return.
pub open spec fn is_line_end(b: u8) -> bool {
    b == 10 || b == 13
}

/// The number of bytes of the insignificant character that starts at `i`, or 0
/// where none starts there. Besides the one-byte blanks these are the no-break
/// space (U+00A0) and the line and paragraph separators (U+2028, U+2029), in
/// their UTF-8 encodings.
pub open spec fn blank_width(bytes: Seq<u8>, i: int) -> int {
    if !(0 <= i < bytes.len()) {
        0
    } else if is_blank(bytes[i]) {
        1
    } else if bytes[i] == 0xC2 && holds(bytes, i + 1, 0xA0) {
        2
    } else if bytes[i] == 0xE2 && holds(bytes, i + 1, 0x80) && (holds(bytes, i + 2, 0xA8) || holds(
        bytes,
        i + 2,
        0xA9,
    )) {
        3
    } else {
        0
    }
}

/// The offset of the first significant byte at or after `i`, or the length of
/// the text where only insignificant characters are left. A `#` opens a
/// comment that runs up to the next line end.
pub open spec fn significant_from(bytes: Seq<u8>, i: int) -> int
    decreases bytes.len() - i, 0int,
{
    if !(0 <= i < bytes.len()) {
        bytes.len() as int
    } else if blank_width(bytes, i) > 0 {
        significant_from(bytes, i + blank_width(bytes, i))
    } else if bytes[i] == 35 {
        comment_from(bytes, i + 1)
    } else {
        i
    }
}

/// As `significant_from`, for an offset `i` inside a comment.
pub open spec fn comment_from(bytes: Seq<u8>, i: int) -> int
    decreases bytes.len() - i, 1int,
{
    if !(0 <= i < bytes.len()) {
        bytes.len() as int
    } else if is_line_end(bytes[i]) {
        significant_from(bytes, i)
    } else {
        comment_from(bytes, i + 1)
    }
}

/// The kind of the one-byte punctuator `b`, if it is one.
pub open spec fn punctuator(b: u8) -> Option<TokenKind> {
    if b == 33 {
        Some(TokenKind::Bang)
    } else if b == 36 {
        Some(TokenKind::Dollar)
    } else if b == 40 {
        Some(TokenKind::ParenL)
    } else if b == 41 {
        Some(TokenKind::ParenR)
    } else if b == 58 {
        Some(TokenKind::Colon)
    } else if b == 61 {
        Some(TokenKind::Equals)
    } else if b == 64 {
        Some(TokenKind::At)
    } else if b == 91 {
        Some(TokenKind::BracketL)
    } else if b == 93 {
        Some(TokenKind::BracketR)
    } else if b == 123 {
        Some(TokenKind::BraceL)
    } else if b == 124 {
        Some(TokenKind::Pipe)
    } else if b == 125 {
        Some(TokenKind::BraceR)
    } else {
        None
    }
}

/// A decimal digit.
pub open spec fn is_digit(b: u8) -> bool {
    48 <= b && b <= 57
}

/// A byte that may open a name: a letter or an underscore.
pub open spec fn is_name_start(b: u8) -> bool {
    b == 95 || (65 <= b && b <= 90) || (97 <= b && b <= 122)
}

/// A byte that may continue a name: a letter, an underscore or a digit.
pub open spec fn is_name_continue(b: u8) -> bool {
    is_name_start(b) || is_digit(b)
}

/// A digit stands at offset `i`.
pub open spec fn digit_at(bytes: Seq<u8>, i: int) -> bool {
    0 <= i < bytes.len() && is_digit(bytes[i])
}

/// The end of the longest run of name bytes that starts at `i`.
pub open spec fn name_end(bytes: Seq<u8>, i: int) -> int
    decreases bytes.len() - i,
{
    if 0 <= i < bytes.len() && is_name_continue(bytes[i]) {
        name_end(bytes, i + 1)
    } else {
        i
    }
}

/// The end of the longest run of digits that starts at `i`.
pub open spec fn digits_end(bytes: Seq<u8>, i: int) -> int
    decreases bytes.len() - i,
{
    if digit_at(bytes, i) {
        digits_end(bytes, i + 1)
    } else {
        i
    }
}

/// The characters that the bytes `start..end` of the text encode.
pub open spec fn text(bytes: Seq<u8>, start: int, end: int) -> Seq<char> {
    decode_utf8(bytes.subrange(start, end))
}

/// A failure with the message `what`, located at offset `at`.
pub open spec fn failure_at(what: Seq<char>, at: int) -> ParseErrorView {
    ParseErrorView {
        description: what + " at location "@ + decimal(at as nat),
        offset: Some(at),
    }
}

/// The failure names an offset of the text, its end included.
pub open spec fn located(bytes: Seq<u8>, e: ParseErrorView) -> bool {
    e.offset matches Some(at) && 0 <= at <= bytes.len()
}

/// The failure for a number that breaks the number grammar at offset `at`.
pub open spec fn invalid_number(at: int) -> ParseErrorView {
    failure_at("Invalid number"@, at)
}

/// The failure for a string that meets a line end or the end of the text, at
/// offset `at`, before its closing quote.
pub open spec fn unterminated_string(at: int) -> ParseErrorView {
    failure_at("Unterminated string"@, at)
}

/// The failure for a backslash at offset `at` that opens no known escape.
pub open spec fn invalid_escape(at: int) -> ParseErrorView {
    failure_at("Invalid character escape sequence"@, at)
}

/// The failure for a dot at offset `at` that does not open `...`.
pub open spec fn malformed_spread(at: int) -> ParseErrorView {
    failure_at("Malformed spread"@, at)
}

/// The failure for a byte at offset `at` that can open no token.
pub open spec fn unexpected_character(at: int) -> ParseErrorView {
    failure_at("Unexpected character"@, at)
}

/// The end of the integer part that starts at `i`: the single digit `0`, or a
/// run of digits that does not open with `0`. The error is the offset at which
/// the rule breaks: no digit at all, or a digit right behind a leading `0`.
pub open spec fn integer_part(bytes: Seq<u8>, i: int) -> Result<int, int> {
    if !digit_at(bytes, i) {
        Err(i)
    } else if bytes[i] == 48 {
        if digit_at(bytes, i + 1) {
            Err(i + 1)
        } else {
            Ok(i + 1)
        }
    } else {
        Ok(digits_end(bytes, i))
    }
}

/// The end of the optional fraction at `i`: a dot and at least one digit. Where
/// no dot stands at `i` there is no fraction and the result is `i`. The error
/// is the offset behind the dot, where a digit is missing.
pub open spec fn fraction_part(bytes: Seq<u8>, i: int) -> Result<int, int> {
    if !holds(bytes, i, 46) {
        Ok(i)
    } else if digit_at(bytes, i + 1) {
        Ok(digits_end(bytes, i + 1))
    } else {
        Err(i + 1)
    }
}

/// The end of the optional exponent at `i`: `e` or `E`, an optional sign, and
/// at least one digit. Where no exponent mark stands at `i` the result is `i`.
/// The error is the offset at which a digit is missing.
pub open spec fn exponent_part(bytes: Seq<u8>, i: int) -> Result<int, int> {
    if !(holds(bytes, i, 69) || holds(bytes, i, 101)) {
        Ok(i)
    } else {
        let digits = if holds(bytes, i + 1, 43) || holds(bytes, i + 1, 45) {
            i + 2
        } else {
            i + 1
        };
        if digit_at(bytes, digits) {
            Ok(digits_end(bytes, digits))
        } else {
            Err(digits)
        }
    }
}

/// The number token that starts at `start`: an optional minus sign, an integer
/// part, an optional fraction, an optional exponent. It is a `Float` where it
/// has a fraction or an exponent and an `Int` otherwise. Its value is its own
/// text, sign included.
pub open spec fn number(bytes: Seq<u8>, start: int) -> Result<TokenView, ParseErrorView> {
    let digits = if holds(bytes, start, 45) {
        start + 1
    } else {
        start
    };
    match integer_part(bytes, digits) {
        Err(at) => Err(invalid_number(at)),
        Ok(whole) => match fraction_part(bytes, whole) {
            Err(at) => Err(invalid_number(at)),
            Ok(fraction) => match exponent_part(bytes, fraction) {
                Err(at) => Err(invalid_number(at)),
                Ok(end) => Ok(
                    TokenView {
                        kind: if end > whole {
                            TokenKind::Float
                        } else {
                            TokenKind::Int
                        },
                        start,
                        end,
                        value: Some(text(bytes, start, end)),
                    },
                ),
            },
        },
    }
}

/// The value of the hexadecimal digit `b`, if it is one.
pub open spec fn hex_value(b: u8) -> Option<int> {
    if 48 <= b && b <= 57 {
        Some(b - 48)
    } else if 65 <= b && b <= 70 {
        Some(b - 55)
    } else if 97 <= b && b <= 102 {
        Some(b - 87)
    } else {
        None
    }
}

/// The number that the four hexadecimal digits at `i..i + 4` write, if four
/// such digits stand there.
pub open spec fn hex4(bytes: Seq<u8>, i: int) -> Option<int> {
    if 0 <= i && i + 4 <= bytes.len() && hex_value(bytes[i]) is Some && hex_value(
        bytes[i + 1],
    ) is Some && hex_value(bytes[i + 2]) is Some && hex_value(bytes[i + 3]) is Some {
        Some(
            hex_value(bytes[i])->0 * 4096 + hex_value(bytes[i + 1])->0 * 256 + hex_value(
                bytes[i + 2],
            )->0 * 16 + hex_value(bytes[i + 3])->0,
        )
    } else {
        None
    }
}

/// The escape that follows a backslash: `i` is the offset right behind the
/// backslash. The result is the character the escape stands for and the number
/// of bytes it takes behind the backslash. The escapes are the eight
/// one-letter ones and `u` with four hexadecimal digits; a `u` escape that
/// names a surrogate (U+D800 to U+DFFF) stands for no character.
pub open spec fn escape(bytes: Seq<u8>, i: int) -> Option<(char, int)> {
    if !(0 <= i < bytes.len()) {
        None
    } else if bytes[i] == 34 {
        Some(('"', 1))
    } else if bytes[i] == 92 {
        Some(('\\', 1))
    } else if bytes[i] == 47 {
        Some(('/', 1))
    } else if bytes[i] == 98 {
        Some(('\u{8}', 1))
    } else if bytes[i] == 102 {
        Some(('\u{c}', 1))
    } else if bytes[i] == 110 {
        Some(('\n', 1))
    } else if bytes[i] == 114 {
        Some(('\r', 1))
    } else if bytes[i] == 116 {
        Some(('\t', 1))
    } else if bytes[i] == 117 {
        match hex4(bytes, i + 1) {
            Some(v) => if 0xD800 <= v && v <= 0xDFFF {
                None
            } else {
                Some(((v as u32) as char, 5))
            },
            None => None,
        }
    } else {
        None
    }
}

/// The outcome `tail` of scanning the rest of a string literal, with the
/// characters `prefix` put in front of what it found.
pub open spec fn prefixed(
    prefix: Seq<char>,
    tail: Result<(Seq<char>, int), ParseErrorView>,
) -> Result<(Seq<char>, int), ParseErrorView> {
    match tail {
        Ok((rest, end)) => Ok((prefix + rest, end)),
        Err(e) => Err(e),
    }
}

/// The rest of a string literal, for a scan at offset `i` inside the literal
/// whose current run of plain bytes began at `chunk`: the characters from
/// `chunk` to the closing quote, escapes decoded, and the offset behind that
/// quote.
pub open spec fn string_tail(bytes: Seq<u8>, chunk: int, i: int) -> Result<
    (Seq<char>, int),
    ParseErrorView,
>
    decreases bytes.len() - i,
{
    if !(0 <= i < bytes.len()) || is_line_end(bytes[i]) {
        Err(unterminated_string(i))
    } else if bytes[i] == 34 {
        Ok((text(bytes, chunk, i), i + 1))
    } else if bytes[i] == 92 {
        match escape(bytes, i + 1) {
            None => Err(invalid_escape(i)),
            Some((c, width)) => prefixed(
                text(bytes, chunk, i).push(c),
                string_tail(bytes, i + 1 + width, i + 1 + width),
            ),
        }
    } else {
        string_tail(bytes, chunk, i + 1)
    }
}

/// The string token whose opening quote stands at `start`. Its value is the
/// text between the quotes, escapes decoded.
pub open spec fn string(bytes: Seq<u8>, start: int) -> Result<TokenView, ParseErrorView> {
    match string_tail(bytes, start + 1, start + 1) {
        Err(e) => Err(e),
        Ok((value, end)) => Ok(
            TokenView { kind: TokenKind::String, start, end, value: Some(value) },
        ),
    }
}

/// The token that marks the end of the text.
pub open spec fn end_of_text(bytes: Seq<u8>) -> TokenView {
    TokenView {
        kind: TokenKind::EOF,
        start: bytes.len() as int,
        end: bytes.len() as int,
        value: None,
    }
}

/// The token that opens at the significant byte at offset `at`.
pub open spec fn token_at(bytes: Seq<u8>, at: int) -> Result<TokenView, ParseErrorView>
    recommends
        0 <= at < bytes.len(),
{
    let b = bytes[at];
    if punctuator(b) is Some {
        Ok(TokenView { kind: punctuator(b)->0, start: at, end: at + 1, value: None })
    } else if b == 46 {
        if holds(bytes, at + 1, 46) && holds(bytes, at + 2, 46) {
            Ok(TokenView { kind: TokenKind::Spread, start: at, end: at + 3, value: None })
        } else {
            Err(malformed_spread(at))
        }
    } else if is_name_start(b) {
        Ok(
            TokenView {
                kind: TokenKind::Name,
                start: at,
                end: name_end(bytes, at + 1),
                value: Some(text(bytes, at, name_end(bytes, at + 1))),
            },
        )
    } else if b == 45 || is_digit(b) {
        number(bytes, at)
    } else if b == 34 {
        string(bytes, at)
    } else {
        Err(unexpected_character(at))
    }
}

/// The next token of the text at or after offset `from`: insignificant
/// characters are passed over, and the end of the text gives the `EOF` token.
#[verifier::opaque]
pub open spec fn read_token(bytes: Seq<u8>, from: int) -> Result<TokenView, ParseErrorView> {
    let at = significant_from(bytes, from);
    if at >= bytes.len() {
        Ok(end_of_text(bytes))
    } else {
        token_at(bytes, at)
    }
}

/// A character that may open a name: a letter or an underscore.
pub open spec fn is_name_start_char(c: char) -> bool {
    c == '_' || ('A' <= c && c <= 'Z') || ('a' <= c && c <= 'z')
}

/// A character that may continue a name: a letter, an underscore or a digit.
pub open spec fn is_name_char(c: char) -> bool {
    is_name_start_char(c) || ('0' <= c && c <= '9')
}

/// The text of a name: a letter or an underscore, then letters, underscores
/// and digits.
pub open spec fn is_name_text(s: Seq<char>) -> bool {
    &&& s.len() > 0
    &&& is_name_start_char(s[0])
    &&& forall|i: int| 0 <= i < s.len() ==> is_name_char(#[trigger] s[i])
}

/// A token as `read_token` gives them: inside the text, non-empty unless it is
/// `EOF`, which is empty and stands at the end, and with a value exactly where
/// its kind has one. The value of a name or a number is the text that the
/// token covers, and that of a name is the text of a name.
pub open spec fn well_formed_token(bytes: Seq<u8>, token: TokenView) -> bool {
    &&& 0 <= token.start <= token.end <= bytes.len()
    &&& token.kind == TokenKind::EOF ==> token.start == bytes.len()
    &&& token.kind != TokenKind::EOF ==> token.start < token.end
    &&& token.value is Some <==> (token.kind == TokenKind::Name || token.kind == TokenKind::Int
        || token.kind == TokenKind::Float || token.kind == TokenKind::String)
    &&& (token.kind == TokenKind::Name || token.kind == TokenKind::Int || token.kind
        == TokenKind::Float) ==> token.value == Some(text(bytes, token.start, token.end))
    &&& token.kind == TokenKind::Name ==> is_name_text(token.value->0)
}

/// `significant_from` never moves backwards and never leaves the text, and
/// where it stops inside the text a significant byte stands.
pub proof fn lemma_significant_from(bytes: Seq<u8>, i: int)
    ensures
        significant_from(bytes, i) <= bytes.len(),
        0 <= i <= bytes.len() ==> i <= significant_from(bytes, i),
        significant_from(bytes, i) < bytes.len() ==> {
            &&& 0 <= significant_from(bytes, i)
            &&& blank_width(bytes, significant_from(bytes, i)) == 0
            &&& bytes[significant_from(bytes, i)] != 35
        },
        comment_from(bytes, i) <= bytes.len(),
        0 <= i <= bytes.len() ==> i <= comment_from(bytes, i),
        comment_from(bytes, i) < bytes.len() ==> {
            &&& 0 <= comment_from(bytes, i)
            &&& blank_width(bytes, comment_from(bytes, i)) == 0
            &&& bytes[comment_from(bytes, i)] != 35
        },
    decreases bytes.len() - i, 2int,
{
    if 0 <= i < bytes.len() {
        if blank_width(bytes, i) > 0 {
            lemma_significant_from(bytes, i + blank_width(bytes, i));
        } else if bytes[i] == 35 {
            lemma_significant_from(bytes, i + 1);
        }
        if is_line_end(bytes[i]) {
        } else {
            lemma_significant_from(bytes, i + 1);
        }
    }
}

/// Passing over insignificant characters twice is passing over them once.
pub proof fn lemma_significant_from_idempotent(bytes: Seq<u8>, i: int)
    ensures
        significant_from(bytes, significant_from(bytes, i)) == significant_from(bytes, i),
{
    lemma_significant_from(bytes, i);
}

/// The run of name bytes from `i` ends inside the text, at or behind `i`, and
/// holds name bytes only.
pub proof fn lemma_name_end(bytes: Seq<u8>, i: int)
    requires
        0 <= i <= bytes.len(),
    ensures
        i <= name_end(bytes, i) <= bytes.len(),
        forall|j: int| i <= j < name_end(bytes, i) ==> is_name_continue(#[trigger] bytes[j]),
        name_end(bytes, i) < bytes.len() ==> !is_name_continue(bytes[name_end(bytes, i)]),
    decreases bytes.len() - i,
{
    if i < bytes.len() && is_name_continue(bytes[i]) {
        lemma_name_end(bytes, i + 1);
    }
}

/// The run of digits from `i` ends inside the text, at or behind `i`, and
/// holds digits only.
pub proof fn lemma_digits_end(bytes: Seq<u8>, i: int)
    requires
        0 <= i <= bytes.len(),
    ensures
        i <= digits_end(bytes, i) <= bytes.len(),
        digit_at(bytes, i) ==> i < digits_end(bytes, i),
        forall|j: int| i <= j < digits_end(bytes, i) ==> is_digit(#[trigger] bytes[j]),
        !digit_at(bytes, digits_end(bytes, i)),
    decreases bytes.len() - i,
{
    if digit_at(bytes, i) {
        lemma_digits_end(bytes, i + 1);
    }
}

/// A number token is well formed.
pub proof fn lemma_number(bytes: Seq<u8>, start: int)
    requires
        0 <= start < bytes.len(),
    ensures
        number(bytes, start) matches Ok(token) ==> well_formed_token(bytes, token) && token.start
            == start,
        number(bytes, start) matches Err(e) ==> located(bytes, e),
{
    let digits = if holds(bytes, start, 45) {
        start + 1
    } else {
        start
    };
    if let Ok(whole) = integer_part(bytes, digits) {
        lemma_digits_end(bytes, digits);
        if let Ok(fraction) = fraction_part(bytes, whole) {
            if holds(bytes, whole, 46) {
                lemma_digits_end(bytes, whole + 1);
            }
            if let Ok(end) = exponent_part(bytes, fraction) {
                if holds(bytes, fraction, 69) || holds(bytes, fraction, 101) {
                    if holds(bytes, fraction + 1, 43) || holds(bytes, fraction + 1, 45) {
                        lemma_digits_end(bytes, fraction + 2);
                    } else {
                        lemma_digits_end(bytes, fraction + 1);
                    }
                }
            }
        }
    }
}

/// A string literal ends inside the text, behind the offset the scan is at.
pub proof fn lemma_string_tail(bytes: Seq<u8>, chunk: int, i: int)
    requires
        0 <= i <= bytes.len(),
    ensures
        string_tail(bytes, chunk, i) matches Ok((_, end)) ==> i < end <= bytes.len(),
        string_tail(bytes, chunk, i) matches Err(e) ==> located(bytes, e),
    decreases bytes.len() - i,
{
    if 0 <= i < bytes.len() && !is_line_end(bytes[i]) {
        if bytes[i] == 34 {
        } else if bytes[i] == 92 {
            if let Some((c, width)) = escape(bytes, i + 1) {
                lemma_string_tail(bytes, i + 1 + width, i + 1 + width);
            }
        } else {
            lemma_string_tail(bytes, chunk, i + 1);
        }
    }
}

/// Putting no characters in front changes nothing.
pub proof fn lemma_prefixed_empty(tail: Result<(Seq<char>, int), ParseErrorView>)
    ensures
        prefixed(Seq::empty(), tail) == tail,
{
    if let Ok((rest, end)) = tail {
        assert(Seq::<char>::empty() + rest =~= rest);
    }
}

/// Putting `b` in front and then `a` is putting `a + b` in front.
pub proof fn lemma_prefixed_twice(
    a: Seq<char>,
    b: Seq<char>,
    tail: Result<(Seq<char>, int), ParseErrorView>,
)
    ensures
        prefixed(a, prefixed(b, tail)) == prefixed(a + b, tail),
{
    if let Ok((rest, end)) = tail {
        assert(a + (b + rest) =~= (a + b) + rest);
    }
}

/// Every token that `read_token` gives is well formed and does not start
/// before the offset asked for, and every failure names an offset of the text.
pub proof fn lemma_read_token(bytes: Seq<u8>, from: int)
    ensures
        read_token(bytes, from) matches Ok(token) ==> {
            &&& well_formed_token(bytes, token)
            &&& 0 <= from <= bytes.len() ==> from <= token.start
            &&& token.start == significant_from(bytes, from)
            &&& token.kind == TokenKind::EOF <==> significant_from(bytes, from) == bytes.len()
        },
        read_token(bytes, from) matches Err(e) ==> located(bytes, e),
{
    reveal(read_token);
    lemma_significant_from(bytes, from);
    let at = significant_from(bytes, from);
    if at < bytes.len() {
        let b = bytes[at];
        if punctuator(b) is Some {
        } else if b == 46 {
        } else if is_name_start(b) {
            lemma_name_end(bytes, at + 1);
            let end = name_end(bytes, at + 1);
            let run = bytes.subrange(at, end);
            assert forall|i: int| 0 <= i < run.len() implies run[i] < 0x80 && is_name_continue(
                run[i],
            ) by {
                assert(run[i] == bytes[at + i]);
            }
            lemma_decode_ascii(run);
            assert(is_name_text(text(bytes, at, end)));
        } else if b == 45 || is_digit(b) {
            lemma_number(bytes, at);
        } else if b == 34 {
            lemma_string_tail(bytes, at + 1, at + 1);
        }
    }
}

} // verus!
