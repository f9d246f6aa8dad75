//! The grammar, as mathematics: the syntax tree that a text stands for, or the
//! failure that parsing it ends in.
//!
//! A parse walks the tokens of the text with a cursor: the current token and
//! the end of the token before it. Every rule is a function from a cursor to
//! the node it reads and the cursor behind that node, or to the first failure.
//! A node's location runs from the start of its first token to the end of its
//! last.
//!
//! Rules that call themselves do so further on in the text. The functions
//! state this where they recurse and answer `stalled` otherwise. No cursor
//! that a parse reaches makes them do so: `shape` proves that every rule that
//! succeeds has moved on, and that every failure names an offset, which
//! `stalled` does not.

use vstd::prelude::*;
use crate::language::ast::{
    ArgumentView,
    DefinitionView,
    DirectiveView,
    DocumentView,
    LocationView,
    NameView,
    ObjectFieldView,
    SelectionSetView,
    SelectionView,
    TypeView,
    ValueView,
    VariableDefinitionView,
};
use crate::language::errors::ParseErrorView;
use crate::language::kinds::Kinds;
use crate::language::lexer::{name_kind, NameKind, SourceView, TokenKind};
use crate::language::lexical::{failure_at, read_token, TokenView};
use crate::language::parser::ParseOptions;

verus! {

/// What stays the same during a parse: the source and the options.
pub ghost struct Context {
    pub source: SourceView,
    pub options: ParseOptions,
}

/// Where a parse stands: at `token`, with the token before it ending at
/// `prev_end`.
pub ghost struct Cursor {
    pub token: TokenView,
    pub prev_end: int,
}

/// The outcome of a rule: the node it read and the cursor behind it, or the
/// failure.
pub type Parsed<T> = Result<(T, Cursor), ParseErrorView>;

/// The text that a token stands for; empty for a token without one.
pub open spec fn value_of(token: TokenView) -> Seq<char> {
    match token.value {
        Some(v) => v,
        None => Seq::empty(),
    }
}

/// The token is the name `word`.
pub open spec fn is_keyword(token: TokenView, word: Seq<char>) -> bool {
    token.kind == TokenKind::Name && token.value == Some(word)
}

/// The failure for a token of another kind than the rule asks for.
pub open spec fn unexpected(expected: TokenKind, found: TokenView) -> ParseErrorView {
    ParseErrorView {
        description: "Expected "@ + expected.label() + ", found "@ + found.kind.label(),
        offset: Some(found.start),
    }
}

/// The failure for a token that is not the keyword the rule asks for.
pub open spec fn missing_keyword(word: Seq<char>, found: TokenView) -> ParseErrorView {
    ParseErrorView {
        description: "Expected '"@ + word + "' and got '"@ + value_of(found) + "'"@,
        offset: Some(found.start),
    }
}

/// The failure for a token that can open no value.
pub open spec fn unexpected_token(found: TokenView) -> ParseErrorView {
    failure_at("Unexpected "@ + found.kind.label(), found.start)
}

/// The failure for a variable in a value that must be constant.
pub open spec fn unexpected_variable(found: TokenView) -> ParseErrorView {
    failure_at("Unexpected variable in a constant value"@, found.start)
}

/// The failure for a fragment that is named `on`.
pub open spec fn unexpected_on(found: TokenView) -> ParseErrorView {
    failure_at("Unexpected 'on' in place of a fragment name"@, found.start)
}

/// The failure for an object literal that names the field `name` twice.
pub open spec fn duplicate_field(name: NameView, at: int) -> ParseErrorView {
    failure_at("Duplicate input object field \""@ + name.value + "\""@, at)
}

/// The failure for a definition that opens with a name other than `query`,
/// `mutation` and `fragment`.
pub open spec fn unknown_definition(found: TokenView) -> ParseErrorView {
    failure_at("Could not parse document, missing NameKind"@, found.start)
}

/// The failure for a definition that opens with neither a brace nor a name.
pub open spec fn no_definition(found: TokenView) -> ParseErrorView {
    failure_at("Expected a BraceL or a Name"@, found.start)
}

/// The answer of a rule that would call itself without having moved on. It
/// names no offset, as no failure of a parse does.
pub open spec fn stalled(cur: Cursor) -> ParseErrorView {
    ParseErrorView { description: "No progress"@, offset: None }
}

/// The bytes of the text that lie at or behind the start of the current token.
pub open spec fn remaining(ctx: Context, cur: Cursor) -> int {
    ctx.source.body.len() - cur.token.start
}

/// The cursor `next` stands further on in the text than `cur`.
pub open spec fn follows(ctx: Context, cur: Cursor, next: Cursor) -> bool {
    cur.token.start < next.token.start <= ctx.source.body.len()
}

/// The location of a node that starts at offset `start` and whose last token
/// was consumed on the way to the cursor `cur`.
pub open spec fn location(ctx: Context, start: int, cur: Cursor) -> Option<LocationView> {
    if ctx.options.no_location {
        None
    } else {
        Some(
            LocationView {
                start,
                end: cur.prev_end,
                source: if ctx.options.no_source {
                    None
                } else {
                    Some(ctx.source)
                },
            },
        )
    }
}

/// The cursor at the first token of the text.
pub open spec fn begin(ctx: Context) -> Result<Cursor, ParseErrorView> {
    match read_token(ctx.source.body, 0) {
        Ok(token) => Ok(Cursor { token, prev_end: 0 }),
        Err(e) => Err(e),
    }
}

/// The cursor behind the current token.
pub open spec fn advance(ctx: Context, cur: Cursor) -> Result<Cursor, ParseErrorView> {
    match read_token(ctx.source.body, cur.token.end) {
        Ok(token) => Ok(Cursor { token, prev_end: cur.token.end }),
        Err(e) => Err(e),
    }
}

/// Consumes the current token, which must be of the kind `kind`.
pub open spec fn expect(ctx: Context, cur: Cursor, kind: TokenKind) -> Parsed<TokenView> {
    if cur.token.kind == kind {
        match advance(ctx, cur) {
            Ok(next) => Ok((cur.token, next)),
            Err(e) => Err(e),
        }
    } else {
        Err(unexpected(kind, cur.token))
    }
}

/// Consumes the current token, which must be the name `word`.
pub open spec fn expect_keyword(ctx: Context, cur: Cursor, word: Seq<char>) -> Parsed<TokenView> {
    if is_keyword(cur.token, word) {
        match advance(ctx, cur) {
            Ok(next) => Ok((cur.token, next)),
            Err(e) => Err(e),
        }
    } else {
        Err(missing_keyword(word, cur.token))
    }
}

/// Consumes the current token if it is of the kind `kind`, and says whether it
/// was.
pub open spec fn skip(ctx: Context, cur: Cursor, kind: TokenKind) -> Parsed<bool> {
    if cur.token.kind == kind {
        match advance(ctx, cur) {
            Ok(next) => Ok((true, next)),
            Err(e) => Err(e),
        }
    } else {
        Ok((false, cur))
    }
}

/// `name := Name`
pub open spec fn name(ctx: Context, cur: Cursor) -> Parsed<NameView> {
    match expect(ctx, cur, TokenKind::Name) {
        Err(e) => Err(e),
        Ok((token, next)) => Ok(
            (
                NameView {
                    kind: Kinds::Name,
                    value: value_of(token),
                    loc: location(ctx, token.start, next),
                },
                next,
            ),
        ),
    }
}

/// `fragmentName := Name`, but not `on`
pub open spec fn fragment_name(ctx: Context, cur: Cursor) -> Parsed<NameView> {
    if is_keyword(cur.token, "on"@) {
        Err(unexpected_on(cur.token))
    } else {
        name(ctx, cur)
    }
}

/// `namedType := Name`
pub open spec fn named_type(ctx: Context, cur: Cursor) -> Parsed<TypeView> {
    match name(ctx, cur) {
        Err(e) => Err(e),
        Ok((n, next)) => Ok(
            (
                TypeView::Named {
                    kind: Kinds::NamedType,
                    name: n,
                    loc: location(ctx, cur.token.start, next),
                },
                next,
            ),
        ),
    }
}

/// `type := ('[' type ']' | namedType) '!'?`
pub open spec fn type_reference(ctx: Context, cur: Cursor) -> Parsed<TypeView>
    decreases remaining(ctx, cur),
{
    let inner = if cur.token.kind == TokenKind::BracketL {
        match advance(ctx, cur) {
            Err(e) => Err(e),
            Ok(inside) => if follows(ctx, cur, inside) {
                match type_reference(ctx, inside) {
                    Err(e) => Err(e),
                    Ok((item, after)) => match expect(ctx, after, TokenKind::BracketR) {
                        Err(e) => Err(e),
                        Ok((_, next)) => Ok(
                            (
                                TypeView::List {
                                    kind: Kinds::ListType,
                                    t_type: Box::new(item),
                                    loc: location(ctx, cur.token.start, next),
                                },
                                next,
                            ),
                        ),
                    },
                }
            } else {
                Err(stalled(cur))
            },
        }
    } else {
        named_type(ctx, cur)
    };
    match inner {
        Err(e) => Err(e),
        Ok((t, after)) => match skip(ctx, after, TokenKind::Bang) {
            Err(e) => Err(e),
            Ok((true, next)) => Ok(
                (
                    TypeView::NonNull {
                        kind: Kinds::NonNullType,
                        t_type: Box::new(t),
                        loc: location(ctx, cur.token.start, next),
                    },
                    next,
                ),
            ),
            Ok((false, next)) => Ok((t, next)),
        },
    }
}

/// `variable := '$' Name`
pub open spec fn variable(ctx: Context, cur: Cursor) -> Parsed<ValueView> {
    match expect(ctx, cur, TokenKind::Dollar) {
        Err(e) => Err(e),
        Ok((_, after)) => match name(ctx, after) {
            Err(e) => Err(e),
            Ok((n, next)) => Ok(
                (
                    ValueView::VariableValue {
                        kind: Kinds::Variable,
                        name: n,
                        loc: location(ctx, cur.token.start, next),
                    },
                    next,
                ),
            ),
        },
    }
}

/// The value that the one token `token` writes: a number or a string with its
/// text, `true` or `false`, or any other name as an enum value.
pub open spec fn scalar_value(token: TokenView, loc: Option<LocationView>) -> ValueView {
    let text = value_of(token);
    match token.kind {
        TokenKind::Int => ValueView::IntValue { kind: Kinds::Int, value: text, loc },
        TokenKind::Float => ValueView::FloatValue { kind: Kinds::Float, value: text, loc },
        TokenKind::String => ValueView::StringValue { kind: Kinds::String, value: text, loc },
        _ => if text == "true"@ || text == "false"@ {
            ValueView::BooleanValue { kind: Kinds::Boolean, value: text == "true"@, loc }
        } else {
            ValueView::EnumValue { kind: Kinds::Enum, value: text, loc }
        },
    }
}

/// Consumes the current token as a value of one token.
pub open spec fn scalar(ctx: Context, cur: Cursor) -> Parsed<ValueView> {
    match advance(ctx, cur) {
        Err(e) => Err(e),
        Ok(next) => Ok((scalar_value(cur.token, location(ctx, cur.token.start, next)), next)),
    }
}

/// `value := array | object | Int | Float | String | Name | variable`, where
/// the name `null` is no value and a constant value holds no variable.
pub open spec fn value(ctx: Context, cur: Cursor, is_const: bool) -> Parsed<ValueView>
    decreases remaining(ctx, cur), 1nat,
{
    match cur.token.kind {
        TokenKind::BracketL => array(ctx, cur, is_const),
        TokenKind::BraceL => object(ctx, cur, is_const),
        TokenKind::Int | TokenKind::Float | TokenKind::String => scalar(ctx, cur),
        TokenKind::Name => if value_of(cur.token) == "null"@ {
            Err(unexpected_token(cur.token))
        } else {
            scalar(ctx, cur)
        },
        TokenKind::Dollar => if is_const {
            Err(unexpected_variable(cur.token))
        } else {
            variable(ctx, cur)
        },
        _ => Err(unexpected_token(cur.token)),
    }
}

/// `array := '[' value* ']'`
pub open spec fn array(ctx: Context, cur: Cursor, is_const: bool) -> Parsed<ValueView>
    decreases remaining(ctx, cur), 0nat,
{
    match expect(ctx, cur, TokenKind::BracketL) {
        Err(e) => Err(e),
        Ok((_, inside)) => if follows(ctx, cur, inside) {
            match values_until(ctx, inside, is_const, Seq::empty()) {
                Err(e) => Err(e),
                Ok((values, next)) => Ok(
                    (
                        ValueView::ArrayValue {
                            kind: Kinds::Array,
                            values,
                            loc: location(ctx, cur.token.start, next),
                        },
                        next,
                    ),
                ),
            }
        } else {
            Err(stalled(cur))
        },
    }
}

/// The values `done`, then the values up to the closing bracket, which is
/// consumed.
pub open spec fn values_until(
    ctx: Context,
    cur: Cursor,
    is_const: bool,
    done: Seq<ValueView>,
) -> Parsed<Seq<ValueView>>
    decreases remaining(ctx, cur), 2nat,
{
    match skip(ctx, cur, TokenKind::BracketR) {
        Err(e) => Err(e),
        Ok((true, next)) => Ok((done, next)),
        Ok((false, _)) => match value(ctx, cur, is_const) {
            Err(e) => Err(e),
            Ok((v, next)) => if follows(ctx, cur, next) {
                values_until(ctx, next, is_const, done.push(v))
            } else {
                Err(stalled(cur))
            },
        },
    }
}

/// One of the fields `done` has the name `name`.
pub open spec fn has_field(done: Seq<ObjectFieldView>, name: Seq<char>) -> bool {
    exists|i: int| 0 <= i < done.len() && (#[trigger] done[i]).name.value == name
}

/// `object := '{' objectField* '}'`, with no name used twice
pub open spec fn object(ctx: Context, cur: Cursor, is_const: bool) -> Parsed<ValueView>
    decreases remaining(ctx, cur), 0nat,
{
    match expect(ctx, cur, TokenKind::BraceL) {
        Err(e) => Err(e),
        Ok((_, inside)) => if follows(ctx, cur, inside) {
            match fields_until(ctx, inside, is_const, Seq::empty()) {
                Err(e) => Err(e),
                Ok((fields, next)) => Ok(
                    (
                        ValueView::ObjectValue {
                            kind: Kinds::Object,
                            fields,
                            loc: location(ctx, cur.token.start, next),
                        },
                        next,
                    ),
                ),
            }
        } else {
            Err(stalled(cur))
        },
    }
}

/// The fields `done`, then the fields up to the closing brace, which is
/// consumed.
pub open spec fn fields_until(
    ctx: Context,
    cur: Cursor,
    is_const: bool,
    done: Seq<ObjectFieldView>,
) -> Parsed<Seq<ObjectFieldView>>
    decreases remaining(ctx, cur), 2nat,
{
    match skip(ctx, cur, TokenKind::BraceR) {
        Err(e) => Err(e),
        Ok((true, next)) => Ok((done, next)),
        Ok((false, _)) => match object_field(ctx, cur, is_const, done) {
            Err(e) => Err(e),
            Ok((f, next)) => if follows(ctx, cur, next) {
                fields_until(ctx, next, is_const, done.push(f))
            } else {
                Err(stalled(cur))
            },
        },
    }
}

/// `objectField := Name ':' value`, where the name is none of those of the
/// fields `done`.
pub open spec fn object_field(
    ctx: Context,
    cur: Cursor,
    is_const: bool,
    done: Seq<ObjectFieldView>,
) -> Parsed<ObjectFieldView>
    decreases remaining(ctx, cur), 1nat,
{
    match name(ctx, cur) {
        Err(e) => Err(e),
        Ok((n, after)) => if has_field(done, n.value) {
            Err(duplicate_field(n, cur.token.start))
        } else {
            match expect(ctx, after, TokenKind::Colon) {
                Err(e) => Err(e),
                Ok((_, inside)) => if follows(ctx, cur, inside) {
                    match value(ctx, inside, is_const) {
                        Err(e) => Err(e),
                        Ok((v, next)) => Ok(
                            (
                                ObjectFieldView {
                                    kind: Kinds::ObjectField,
                                    name: n,
                                    value: v,
                                    loc: location(ctx, cur.token.start, next),
                                },
                                next,
                            ),
                        ),
                    }
                } else {
                    Err(stalled(cur))
                },
            }
        },
    }
}

/// `argument := Name ':' value`
#[verifier::opaque]
pub open spec fn argument(ctx: Context, cur: Cursor) -> Parsed<ArgumentView> {
    match name(ctx, cur) {
        Err(e) => Err(e),
        Ok((n, after)) => match expect(ctx, after, TokenKind::Colon) {
            Err(e) => Err(e),
            Ok((_, inside)) => match value(ctx, inside, false) {
                Err(e) => Err(e),
                Ok((v, next)) => Ok(
                    (
                        ArgumentView {
                            kind: Kinds::Argument,
                            name: n,
                            value: v,
                            loc: location(ctx, cur.token.start, next),
                        },
                        next,
                    ),
                ),
            },
        },
    }
}

/// The arguments `done`, then the arguments up to the closing parenthesis,
/// which is consumed.
pub open spec fn arguments_until(ctx: Context, cur: Cursor, done: Seq<ArgumentView>) -> Parsed<
    Seq<ArgumentView>,
>
    decreases remaining(ctx, cur),
{
    match skip(ctx, cur, TokenKind::ParenR) {
        Err(e) => Err(e),
        Ok((true, next)) => Ok((done, next)),
        Ok((false, _)) => match argument(ctx, cur) {
            Err(e) => Err(e),
            Ok((a, next)) => if follows(ctx, cur, next) {
                arguments_until(ctx, next, done.push(a))
            } else {
                Err(stalled(cur))
            },
        },
    }
}

/// `arguments := ('(' argument+ ')')?`
#[verifier::opaque]
pub open spec fn arguments(ctx: Context, cur: Cursor) -> Parsed<Seq<ArgumentView>> {
    if cur.token.kind == TokenKind::ParenL {
        match expect(ctx, cur, TokenKind::ParenL) {
            Err(e) => Err(e),
            Ok((_, inside)) => match argument(ctx, inside) {
                Err(e) => Err(e),
                Ok((first, after)) => arguments_until(ctx, after, seq![first]),
            },
        }
    } else {
        Ok((Seq::empty(), cur))
    }
}

/// `directive := '@' Name arguments`
#[verifier::opaque]
pub open spec fn directive(ctx: Context, cur: Cursor) -> Parsed<DirectiveView> {
    match expect(ctx, cur, TokenKind::At) {
        Err(e) => Err(e),
        Ok((_, after)) => match name(ctx, after) {
            Err(e) => Err(e),
            Ok((n, inside)) => match arguments(ctx, inside) {
                Err(e) => Err(e),
                Ok((args, next)) => Ok(
                    (
                        DirectiveView {
                            kind: Kinds::Directive,
                            name: n,
                            arguments: Some(args),
                            loc: location(ctx, cur.token.start, next),
                        },
                        next,
                    ),
                ),
            },
        },
    }
}

/// The directives `done`, then as many directives as follow.
pub open spec fn directives_from(ctx: Context, cur: Cursor, done: Seq<DirectiveView>) -> Parsed<
    Seq<DirectiveView>,
>
    decreases remaining(ctx, cur),
{
    if cur.token.kind == TokenKind::At {
        match directive(ctx, cur) {
            Err(e) => Err(e),
            Ok((d, next)) => if follows(ctx, cur, next) {
                directives_from(ctx, next, done.push(d))
            } else {
                Err(stalled(cur))
            },
        }
    } else {
        Ok((done, cur))
    }
}

/// `directives := directive*`
pub open spec fn directives(ctx: Context, cur: Cursor) -> Parsed<Seq<DirectiveView>> {
    directives_from(ctx, cur, Seq::empty())
}

/// `variableDefinition := variable ':' type ('=' value)?`, the value constant
#[verifier::opaque]
pub open spec fn variable_definition(ctx: Context, cur: Cursor) -> Parsed<VariableDefinitionView> {
    match variable(ctx, cur) {
        Err(e) => Err(e),
        Ok((var, after)) => match expect(ctx, after, TokenKind::Colon) {
            Err(e) => Err(e),
            Ok((_, inside)) => match type_reference(ctx, inside) {
                Err(e) => Err(e),
                Ok((t, typed)) => match skip(ctx, typed, TokenKind::Equals) {
                    Err(e) => Err(e),
                    Ok((false, next)) => Ok(
                        (
                            VariableDefinitionView {
                                kind: Kinds::VariableDefinition,
                                variable: var,
                                var_type: t,
                                default_value: None,
                                loc: location(ctx, cur.token.start, next),
                            },
                            next,
                        ),
                    ),
                    Ok((true, assigned)) => match value(ctx, assigned, true) {
                        Err(e) => Err(e),
                        Ok((v, next)) => Ok(
                            (
                                VariableDefinitionView {
                                    kind: Kinds::VariableDefinition,
                                    variable: var,
                                    var_type: t,
                                    default_value: Some(v),
                                    loc: location(ctx, cur.token.start, next),
                                },
                                next,
                            ),
                        ),
                    },
                },
            },
        },
    }
}

/// The definitions `done`, then the variable definitions up to the closing
/// parenthesis, which is consumed.
pub open spec fn variable_definitions_until(
    ctx: Context,
    cur: Cursor,
    done: Seq<VariableDefinitionView>,
) -> Parsed<Seq<VariableDefinitionView>>
    decreases remaining(ctx, cur),
{
    match skip(ctx, cur, TokenKind::ParenR) {
        Err(e) => Err(e),
        Ok((true, next)) => Ok((done, next)),
        Ok((false, _)) => match variable_definition(ctx, cur) {
            Err(e) => Err(e),
            Ok((d, next)) => if follows(ctx, cur, next) {
                variable_definitions_until(ctx, next, done.push(d))
            } else {
                Err(stalled(cur))
            },
        },
    }
}

/// `variableDefinitions := ('(' variableDefinition+ ')')?`
#[verifier::opaque]
pub open spec fn variable_definitions(ctx: Context, cur: Cursor) -> Parsed<
    Seq<VariableDefinitionView>,
> {
    if cur.token.kind == TokenKind::ParenL {
        match expect(ctx, cur, TokenKind::ParenL) {
            Err(e) => Err(e),
            Ok((_, inside)) => match variable_definition(ctx, inside) {
                Err(e) => Err(e),
                Ok((first, after)) => variable_definitions_until(ctx, after, seq![first]),
            },
        }
    } else {
        Ok((Seq::empty(), cur))
    }
}

/// `selectionSet := '{' selection+ '}'`
pub open spec fn selection_set(ctx: Context, cur: Cursor) -> Parsed<SelectionSetView>
    decreases remaining(ctx, cur), 0nat,
{
    match expect(ctx, cur, TokenKind::BraceL) {
        Err(e) => Err(e),
        Ok((_, inside)) => if follows(ctx, cur, inside) {
            match selection(ctx, inside) {
                Err(e) => Err(e),
                Ok((first, after)) => if follows(ctx, cur, after) {
                    match selections_until(ctx, after, seq![first]) {
                        Err(e) => Err(e),
                        Ok((selections, next)) => Ok(
                            (
                                SelectionSetView {
                                    kind: Kinds::SelectionSet,
                                    selections,
                                    loc: location(ctx, cur.token.start, next),
                                },
                                next,
                            ),
                        ),
                    }
                } else {
                    Err(stalled(cur))
                },
            }
        } else {
            Err(stalled(cur))
        },
    }
}

/// The selections `done`, then the selections up to the closing brace, which
/// is consumed.
pub open spec fn selections_until(ctx: Context, cur: Cursor, done: Seq<SelectionView>) -> Parsed<
    Seq<SelectionView>,
>
    decreases remaining(ctx, cur), 3nat,
{
    match skip(ctx, cur, TokenKind::BraceR) {
        Err(e) => Err(e),
        Ok((true, next)) => Ok((done, next)),
        Ok((false, _)) => match selection(ctx, cur) {
            Err(e) => Err(e),
            Ok((s, next)) => if follows(ctx, cur, next) {
                selections_until(ctx, next, done.push(s))
            } else {
                Err(stalled(cur))
            },
        },
    }
}

/// `selection := fragment | field`; a spread opens a fragment.
pub open spec fn selection(ctx: Context, cur: Cursor) -> Parsed<SelectionView>
    decreases remaining(ctx, cur), 2nat,
{
    if cur.token.kind == TokenKind::Spread {
        fragment(ctx, cur)
    } else {
        field(ctx, cur)
    }
}

/// `fragment := '...' ('on' namedType directives selectionSet | fragmentName
/// directives)`
pub open spec fn fragment(ctx: Context, cur: Cursor) -> Parsed<SelectionView>
    decreases remaining(ctx, cur), 1nat,
{
    match expect(ctx, cur, TokenKind::Spread) {
        Err(e) => Err(e),
        Ok((_, after)) => if is_keyword(after.token, "on"@) {
            match advance(ctx, after) {
                Err(e) => Err(e),
                Ok(inside) => match named_type(ctx, inside) {
                    Err(e) => Err(e),
                    Ok((t, typed)) => match directives(ctx, typed) {
                        Err(e) => Err(e),
                        Ok((ds, body)) => if follows(ctx, cur, body) {
                            match selection_set(ctx, body) {
                                Err(e) => Err(e),
                                Ok((set, next)) => Ok(
                                    (
                                        SelectionView::InlineFragment {
                                            kind: Kinds::InlineFragment,
                                            type_condition: t,
                                            directives: Some(ds),
                                            selection_set: set,
                                            loc: location(ctx, cur.token.start, next),
                                        },
                                        next,
                                    ),
                                ),
                            }
                        } else {
                            Err(stalled(cur))
                        },
                    },
                },
            }
        } else {
            match fragment_name(ctx, after) {
                Err(e) => Err(e),
                Ok((n, named)) => match directives(ctx, named) {
                    Err(e) => Err(e),
                    Ok((ds, next)) => Ok(
                        (
                            SelectionView::FragmentSpread {
                                kind: Kinds::FragmentSpread,
                                name: n,
                                directives: Some(ds),
                                loc: location(ctx, cur.token.start, next),
                            },
                            next,
                        ),
                    ),
                },
            }
        },
    }
}

/// The name of a field behind its alias, where a colon shows that the name
/// `first` was an alias; otherwise `first` itself.
pub open spec fn aliased_name(ctx: Context, cur: Cursor, first: NameView) -> Parsed<
    (Option<NameView>, NameView),
> {
    match skip(ctx, cur, TokenKind::Colon) {
        Err(e) => Err(e),
        Ok((false, next)) => Ok(((None, first), next)),
        Ok((true, after)) => match name(ctx, after) {
            Err(e) => Err(e),
            Ok((n, next)) => Ok(((Some(first), n), next)),
        },
    }
}

/// `field := (Name ':')? Name arguments directives selectionSet?`
pub open spec fn field(ctx: Context, cur: Cursor) -> Parsed<SelectionView>
    decreases remaining(ctx, cur), 1nat,
{
    match name(ctx, cur) {
        Err(e) => Err(e),
        Ok((first, after)) => match aliased_name(ctx, after, first) {
            Err(e) => Err(e),
            Ok(((alias, n), named)) => match arguments(ctx, named) {
                Err(e) => Err(e),
                Ok((args, argued)) => match directives(ctx, argued) {
                    Err(e) => Err(e),
                    Ok((ds, body)) => if body.token.kind == TokenKind::BraceL {
                        if follows(ctx, cur, body) {
                            match selection_set(ctx, body) {
                                Err(e) => Err(e),
                                Ok((set, next)) => Ok(
                                    (
                                        SelectionView::Field {
                                            kind: Kinds::Field,
                                            alias,
                                            name: n,
                                            arguments: args,
                                            directives: ds,
                                            selection_set: Some(set),
                                            loc: location(ctx, cur.token.start, next),
                                        },
                                        next,
                                    ),
                                ),
                            }
                        } else {
                            Err(stalled(cur))
                        }
                    } else {
                        Ok(
                            (
                                SelectionView::Field {
                                    kind: Kinds::Field,
                                    alias,
                                    name: n,
                                    arguments: args,
                                    directives: ds,
                                    selection_set: None,
                                    loc: location(ctx, cur.token.start, body),
                                },
                                body,
                            ),
                        )
                    },
                },
            },
        },
    }
}

/// The name of an operation, where one stands at the cursor.
pub open spec fn optional_name(ctx: Context, cur: Cursor) -> Parsed<Option<NameView>> {
    if cur.token.kind == TokenKind::Name {
        match name(ctx, cur) {
            Err(e) => Err(e),
            Ok((n, next)) => Ok((Some(n), next)),
        }
    } else {
        Ok((None, cur))
    }
}

/// `operationDefinition := selectionSet | Name Name? variableDefinitions
/// directives selectionSet`. The first form is a query without a name; in the
/// second the first name is the operation.
#[verifier::opaque]
pub open spec fn operation_definition(ctx: Context, cur: Cursor) -> Parsed<DefinitionView> {
    if cur.token.kind == TokenKind::BraceL {
        match selection_set(ctx, cur) {
            Err(e) => Err(e),
            Ok((set, next)) => Ok(
                (
                    DefinitionView::Operation {
                        kind: Kinds::OperationDefinition,
                        operation: "query"@,
                        name: None,
                        variable_definitions: None,
                        directives: Seq::empty(),
                        selection_set: set,
                        loc: location(ctx, cur.token.start, next),
                    },
                    next,
                ),
            ),
        }
    } else {
        match expect(ctx, cur, TokenKind::Name) {
            Err(e) => Err(e),
            Ok((operation, after)) => match optional_name(ctx, after) {
                Err(e) => Err(e),
                Ok((n, named)) => match variable_definitions(ctx, named) {
                    Err(e) => Err(e),
                    Ok((vars, declared)) => match directives(ctx, declared) {
                        Err(e) => Err(e),
                        Ok((ds, body)) => match selection_set(ctx, body) {
                            Err(e) => Err(e),
                            Ok((set, next)) => Ok(
                                (
                                    DefinitionView::Operation {
                                        kind: Kinds::OperationDefinition,
                                        operation: value_of(operation),
                                        name: n,
                                        variable_definitions: Some(vars),
                                        directives: ds,
                                        selection_set: set,
                                        loc: location(ctx, cur.token.start, next),
                                    },
                                    next,
                                ),
                            ),
                        },
                    },
                },
            },
        }
    }
}

/// `fragmentDefinition := 'fragment' fragmentName 'on' namedType directives
/// selectionSet`
#[verifier::opaque]
pub open spec fn fragment_definition(ctx: Context, cur: Cursor) -> Parsed<DefinitionView> {
    match expect_keyword(ctx, cur, "fragment"@) {
        Err(e) => Err(e),
        Ok((_, after)) => match fragment_name(ctx, after) {
            Err(e) => Err(e),
            Ok((n, named)) => match expect_keyword(ctx, named, "on"@) {
                Err(e) => Err(e),
                Ok((_, inside)) => match named_type(ctx, inside) {
                    Err(e) => Err(e),
                    Ok((t, typed)) => match directives(ctx, typed) {
                        Err(e) => Err(e),
                        Ok((ds, body)) => match selection_set(ctx, body) {
                            Err(e) => Err(e),
                            Ok((set, next)) => Ok(
                                (
                                    DefinitionView::Fragment {
                                        kind: Kinds::FragmentDefinition,
                                        name: n,
                                        type_condition: t,
                                        directives: Some(ds),
                                        selection_set: set,
                                        loc: location(ctx, cur.token.start, next),
                                    },
                                    next,
                                ),
                            ),
                        },
                    },
                },
            },
        },
    }
}

/// `definition := operationDefinition | fragmentDefinition`, told apart by the
/// current token: a brace or the names `query` and `mutation` open an
/// operation, the name `fragment` a fragment.
#[verifier::opaque]
pub open spec fn definition(ctx: Context, cur: Cursor) -> Parsed<DefinitionView> {
    if cur.token.kind == TokenKind::BraceL {
        operation_definition(ctx, cur)
    } else if cur.token.kind == TokenKind::Name {
        match name_kind(cur.token.value) {
            Some(NameKind::Query) | Some(NameKind::Mutation) => operation_definition(ctx, cur),
            Some(NameKind::Fragment) => fragment_definition(ctx, cur),
            None => Err(unknown_definition(cur.token)),
        }
    } else {
        Err(no_definition(cur.token))
    }
}

/// The definitions `done`, then the definitions up to the end of the text, of
/// which there is at least one. The `EOF` token is consumed.
pub open spec fn definitions(ctx: Context, cur: Cursor, done: Seq<DefinitionView>) -> Parsed<
    Seq<DefinitionView>,
>
    decreases remaining(ctx, cur),
{
    match definition(ctx, cur) {
        Err(e) => Err(e),
        Ok((d, after)) => match skip(ctx, after, TokenKind::EOF) {
            Err(e) => Err(e),
            Ok((true, next)) => Ok((done.push(d), next)),
            Ok((false, _)) => if follows(ctx, cur, after) {
                definitions(ctx, after, done.push(d))
            } else {
                Err(stalled(cur))
            },
        },
    }
}

/// The document whose first token stands at the cursor `cur`.
#[verifier::opaque]
pub open spec fn document_from(ctx: Context, cur: Cursor) -> Result<DocumentView, ParseErrorView> {
    match definitions(ctx, cur, Seq::empty()) {
        Err(e) => Err(e),
        Ok((definitions, end)) => Ok(
            DocumentView {
                kind: Kinds::Document,
                loc: location(ctx, cur.token.start, end),
                definitions,
            },
        ),
    }
}

/// `document := definition+ EOF`: the document that the text of `source`
/// stands for, with locations as `options` asks for them, or the first failure
/// on the way.
#[verifier::opaque]
pub open spec fn document(source: SourceView, options: ParseOptions) -> Result<
    DocumentView,
    ParseErrorView,
> {
    let ctx = Context { source, options };
    match begin(ctx) {
        Err(e) => Err(e),
        Ok(cur) => document_from(ctx, cur),
    }
}

} // verus!
