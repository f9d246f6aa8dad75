//! What holds of every tree that the grammar gives: the kinds fit the nodes,
//! names are names, locations lie inside the text with `start <= end`, the
//! location of a node lies inside that of the node it belongs to, the members
//! of a list follow each other in the text, selection sets and documents are
//! not empty, fragments are not named `on`, the fields of an object literal
//! have distinct names, and constant values hold no variable.
//!
//! The predicates say this for each node type; the lemmas prove it rule by
//! rule, together with the fact that every rule that succeeds has moved on in
//! the text.

use vstd::prelude::*;
use crate::language::ast::{
    ArgumentView,
    DefinitionView,
    DirectiveView,
    DocumentView,
    LocationView,
    NameView,
    ObjectFieldView,
    SelectionSetView,
    SelectionView,
    TypeView,
    ValueView,
    VariableDefinitionView,
};
use crate::language::grammar::{
    advance,
    aliased_name,
    argument,
    arguments,
    arguments_until,
    array,
    begin,
    definition,
    definitions,
    directive,
    directives,
    directives_from,
    document,
    document_from,
    expect,
    expect_keyword,
    field,
    fields_until,
    fragment,
    fragment_definition,
    fragment_name,
    has_field,
    is_keyword,
    location,
    name,
    named_type,
    object,
    object_field,
    operation_definition,
    optional_name,
    remaining,
    scalar,
    selection,
    selection_set,
    selections_until,
    skip,
    stalled,
    type_reference,
    value,
    value_of,
    values_until,
    variable,
    variable_definition,
    variable_definitions,
    variable_definitions_until,
    Context,
    Cursor,
};
use crate::language::kinds::Kinds;
use crate::language::lexer::{name_kind, NameKind, SourceView, TokenKind};
use crate::language::errors::ParseErrorView;
use crate::language::lexical::{
    is_name_text,
    lemma_read_token,
    located,
    text,
    well_formed_token,
};
use crate::language::parser::ParseOptions;

verus! {

/// The location is what the options ask for: none where locations are left
/// out, else a span inside the text with `start <= end`, with the source
/// unless that is left out.
pub open spec fn placed(ctx: Context, loc: Option<LocationView>) -> bool {
    match loc {
        None => ctx.options.no_location,
        Some(l) => {
            &&& !ctx.options.no_location
            &&& 0 <= l.start <= l.end <= ctx.source.body.len()
            &&& l.source == if ctx.options.no_source {
                None::<SourceView>
            } else {
                Some(ctx.source)
            }
        },
    }
}

/// The text `value` is what the text of the parse holds at the location.
pub open spec fn verbatim(ctx: Context, value: Seq<char>, loc: Option<LocationView>) -> bool {
    loc matches Some(l) ==> value == text(ctx.source.body, l.start, l.end)
}

/// The location of a type reference.
pub open spec fn type_loc(t: TypeView) -> Option<LocationView> {
    match t {
        TypeView::Named { kind, name, loc } => loc,
        TypeView::List { kind, t_type, loc } => loc,
        TypeView::NonNull { kind, t_type, loc } => loc,
    }
}

/// The location of a value.
pub open spec fn value_loc(v: ValueView) -> Option<LocationView> {
    match v {
        ValueView::IntValue { kind, value, loc } => loc,
        ValueView::FloatValue { kind, value, loc } => loc,
        ValueView::StringValue { kind, value, loc } => loc,
        ValueView::BooleanValue { kind, value, loc } => loc,
        ValueView::EnumValue { kind, value, loc } => loc,
        ValueView::ArrayValue { kind, values, loc } => loc,
        ValueView::ObjectValue { kind, fields, loc } => loc,
        ValueView::VariableValue { kind, name, loc } => loc,
    }
}

/// The location of a selection.
pub open spec fn selection_loc(s: SelectionView) -> Option<LocationView> {
    match s {
        SelectionView::Field {
            kind,
            alias,
            name,
            arguments,
            directives,
            selection_set,
            loc,
        } => loc,
        SelectionView::FragmentSpread { kind, name, directives, loc } => loc,
        SelectionView::InlineFragment {
            kind,
            type_condition,
            directives,
            selection_set,
            loc,
        } => loc,
    }
}

/// The location of a definition.
pub open spec fn definition_loc(d: DefinitionView) -> Option<LocationView> {
    match d {
        DefinitionView::Operation {
            kind,
            operation,
            name,
            variable_definitions,
            directives,
            selection_set,
            loc,
        } => loc,
        DefinitionView::Fragment {
            kind,
            name,
            type_condition,
            directives,
            selection_set,
            loc,
        } => loc,
    }
}

/// The location, where there is one, lies in `lo..hi`.
pub open spec fn within(loc: Option<LocationView>, lo: int, hi: int) -> bool {
    match loc {
        Some(l) => lo <= l.start && l.end <= hi,
        None => true,
    }
}

/// The location `inner` lies inside the location `outer`, where both are
/// there.
pub open spec fn inside(outer: Option<LocationView>, inner: Option<LocationView>) -> bool {
    match outer {
        Some(o) => within(inner, o.start, o.end),
        None => true,
    }
}

/// The location `a` ends before the location `b` starts, where both are there.
pub open spec fn before(a: Option<LocationView>, b: Option<LocationView>) -> bool {
    match (a, b) {
        (Some(x), Some(y)) => x.end <= y.start,
        _ => true,
    }
}

/// The locations lie in `lo..hi`, each before the next.
pub open spec fn laid(spans: Seq<Option<LocationView>>, lo: int, hi: int) -> bool {
    &&& forall|i: int| 0 <= i < spans.len() ==> within(#[trigger] spans[i], lo, hi)
    &&& forall|i: int, j: int|
        0 <= i < j < spans.len() ==> before(#[trigger] spans[i], #[trigger] spans[j])
}

/// The locations lie inside the location `outer`, where that is there, each
/// before the next.
pub open spec fn laid_inside(
    outer: Option<LocationView>,
    spans: Seq<Option<LocationView>>,
) -> bool {
    match outer {
        Some(o) => laid(spans, o.start, o.end),
        None => true,
    }
}

/// The locations of the values, in order.
pub open spec fn value_spans(items: Seq<ValueView>) -> Seq<Option<LocationView>> {
    Seq::new(items.len(), |i: int| value_loc(items[i]))
}

/// The locations of the fields, in order.
pub open spec fn object_field_spans(items: Seq<ObjectFieldView>) -> Seq<Option<LocationView>> {
    Seq::new(items.len(), |i: int| items[i].loc)
}

/// The locations of the arguments, in order.
pub open spec fn argument_spans(items: Seq<ArgumentView>) -> Seq<Option<LocationView>> {
    Seq::new(items.len(), |i: int| items[i].loc)
}

/// The locations of the directives, in order.
pub open spec fn directive_spans(items: Seq<DirectiveView>) -> Seq<Option<LocationView>> {
    Seq::new(items.len(), |i: int| items[i].loc)
}

/// The locations of the variable definitions, in order.
pub open spec fn variable_definition_spans(items: Seq<VariableDefinitionView>) -> Seq<
    Option<LocationView>,
> {
    Seq::new(items.len(), |i: int| items[i].loc)
}

/// The locations of the selections, in order.
pub open spec fn selection_spans(items: Seq<SelectionView>) -> Seq<Option<LocationView>> {
    Seq::new(items.len(), |i: int| selection_loc(items[i]))
}

/// The locations of the definitions, in order.
pub open spec fn definition_spans(items: Seq<DefinitionView>) -> Seq<Option<LocationView>> {
    Seq::new(items.len(), |i: int| definition_loc(items[i]))
}

/// Locations that are laid in a span are laid in every wider one.
pub proof fn lemma_laid_widen(
    spans: Seq<Option<LocationView>>,
    lo: int,
    hi: int,
    wider_lo: int,
    wider_hi: int,
)
    requires
        laid(spans, lo, hi),
        wider_lo <= lo,
        hi <= wider_hi,
    ensures
        laid(spans, wider_lo, wider_hi),
{
    assert forall|i: int| 0 <= i < spans.len() implies within(
        #[trigger] spans[i],
        wider_lo,
        wider_hi,
    ) by {
        assert(within(spans[i], lo, hi));
    }
}

/// Locations that are laid in `lo..hi` stay laid when a location behind `hi`
/// joins them.
pub proof fn lemma_laid_push(
    spans: Seq<Option<LocationView>>,
    lo: int,
    hi: int,
    last: Option<LocationView>,
    wider_hi: int,
)
    requires
        laid(spans, lo, hi),
        hi <= wider_hi,
        within(last, lo, wider_hi),
        within(last, hi, wider_hi),
    ensures
        laid(spans.push(last), lo, wider_hi),
{
    let all = spans.push(last);
    assert forall|i: int| 0 <= i < all.len() implies within(#[trigger] all[i], lo, wider_hi) by {
        if i < spans.len() {
            assert(within(spans[i], lo, hi));
        }
    }
    assert forall|i: int, j: int| 0 <= i < j < all.len() implies before(
        #[trigger] all[i],
        #[trigger] all[j],
    ) by {
        if j < spans.len() {
            assert(before(spans[i], spans[j]));
        } else {
            assert(within(spans[i], lo, hi));
        }
    }
}

/// A well-formed name: the text of a name, as it stands in the text.
pub open spec fn name_ok(ctx: Context, n: NameView) -> bool {
    &&& n.kind == Kinds::Name
    &&& is_name_text(n.value)
    &&& verbatim(ctx, n.value, n.loc)
    &&& placed(ctx, n.loc)
}

/// A well-formed type reference. A non-null type wraps a named type or a list,
/// never another non-null type.
pub open spec fn type_ok(ctx: Context, t: TypeView) -> bool
    decreases t,
{
    match t {
        TypeView::Named { kind, name, loc } => {
            &&& kind == Kinds::NamedType
            &&& name_ok(ctx, name)
            &&& inside(loc, name.loc)
            &&& placed(ctx, loc)
        },
        TypeView::List { kind, t_type, loc } => {
            &&& kind == Kinds::ListType
            &&& type_ok(ctx, *t_type)
            &&& inside(loc, type_loc(*t_type))
            &&& placed(ctx, loc)
        },
        TypeView::NonNull { kind, t_type, loc } => {
            &&& kind == Kinds::NonNullType
            &&& !(*t_type is NonNull)
            &&& type_ok(ctx, *t_type)
            &&& inside(loc, type_loc(*t_type))
            &&& placed(ctx, loc)
        },
    }
}

/// No two of the fields have the same name.
pub open spec fn distinct_names(fields: Seq<ObjectFieldView>) -> bool {
    forall|i: int, j: int|
        0 <= i < j < fields.len() ==> (#[trigger] fields[i]).name.value != (
        #[trigger] fields[j]).name.value
}

/// A well-formed value. A number keeps its text as it stands in the text. A
/// constant value holds no variable, at any depth.
pub open spec fn value_ok(ctx: Context, v: ValueView, is_const: bool) -> bool
    decreases v, 0nat,
{
    match v {
        ValueView::IntValue { kind, value, loc } => {
            &&& kind == Kinds::Int
            &&& verbatim(ctx, value, loc)
            &&& placed(ctx, loc)
        },
        ValueView::FloatValue { kind, value, loc } => {
            &&& kind == Kinds::Float
            &&& verbatim(ctx, value, loc)
            &&& placed(ctx, loc)
        },
        ValueView::StringValue { kind, value, loc } => kind == Kinds::String && placed(ctx, loc),
        ValueView::BooleanValue { kind, value, loc } => kind == Kinds::Boolean && placed(
            ctx,
            loc,
        ),
        ValueView::EnumValue { kind, value, loc } => {
            &&& kind == Kinds::Enum
            &&& is_name_text(value)
            &&& verbatim(ctx, value, loc)
            &&& value != "true"@
            &&& value != "false"@
            &&& value != "null"@
            &&& placed(ctx, loc)
        },
        ValueView::ArrayValue { kind, values, loc } => {
            &&& kind == Kinds::Array
            &&& forall|i: int|
                0 <= i < values.len() ==> value_ok(ctx, #[trigger] values[i], is_const)
            &&& laid_inside(loc, value_spans(values))
            &&& placed(ctx, loc)
        },
        ValueView::ObjectValue { kind, fields, loc } => {
            &&& kind == Kinds::Object
            &&& forall|i: int|
                0 <= i < fields.len() ==> object_field_ok(ctx, #[trigger] fields[i], is_const)
            &&& distinct_names(fields)
            &&& laid_inside(loc, object_field_spans(fields))
            &&& placed(ctx, loc)
        },
        ValueView::VariableValue { kind, name, loc } => {
            &&& kind == Kinds::Variable
            &&& !is_const
            &&& name_ok(ctx, name)
            &&& inside(loc, name.loc)
            &&& placed(ctx, loc)
        },
    }
}

/// A well-formed member of an object literal.
pub open spec fn object_field_ok(ctx: Context, f: ObjectFieldView, is_const: bool) -> bool
    decreases f, 1nat,
{
    &&& f.kind == Kinds::ObjectField
    &&& name_ok(ctx, f.name)
    &&& value_ok(ctx, f.value, is_const)
    &&& inside(f.loc, f.name.loc)
    &&& inside(f.loc, value_loc(f.value))
    &&& before(f.name.loc, value_loc(f.value))
    &&& placed(ctx, f.loc)
}

/// All of the values are well formed.
pub open spec fn values_ok(ctx: Context, values: Seq<ValueView>, is_const: bool) -> bool {
    forall|i: int| 0 <= i < values.len() ==> value_ok(ctx, #[trigger] values[i], is_const)
}

/// All of the fields are well formed, and no two have the same name.
pub open spec fn object_fields_ok(
    ctx: Context,
    fields: Seq<ObjectFieldView>,
    is_const: bool,
) -> bool {
    &&& forall|i: int|
        0 <= i < fields.len() ==> object_field_ok(ctx, #[trigger] fields[i], is_const)
    &&& distinct_names(fields)
}

/// A well-formed argument.
pub open spec fn argument_ok(ctx: Context, a: ArgumentView) -> bool {
    &&& a.kind == Kinds::Argument
    &&& name_ok(ctx, a.name)
    &&& value_ok(ctx, a.value, false)
    &&& inside(a.loc, a.name.loc)
    &&& inside(a.loc, value_loc(a.value))
    &&& before(a.name.loc, value_loc(a.value))
    &&& placed(ctx, a.loc)
}

/// All of the arguments are well formed.
pub open spec fn arguments_ok(ctx: Context, items: Seq<ArgumentView>) -> bool {
    forall|i: int| 0 <= i < items.len() ==> argument_ok(ctx, #[trigger] items[i])
}

/// A well-formed directive.
pub open spec fn directive_ok(ctx: Context, d: DirectiveView) -> bool {
    &&& d.kind == Kinds::Directive
    &&& name_ok(ctx, d.name)
    &&& inside(d.loc, d.name.loc)
    &&& d.arguments matches Some(items) && arguments_ok(ctx, items) && laid_inside(
        d.loc,
        argument_spans(items),
    )
    &&& placed(ctx, d.loc)
}

/// All of the directives are well formed.
pub open spec fn directives_ok(ctx: Context, items: Seq<DirectiveView>) -> bool {
    forall|i: int| 0 <= i < items.len() ==> directive_ok(ctx, #[trigger] items[i])
}

/// A well-formed variable definition: a variable, its type, and a default
/// value that is constant.
pub open spec fn variable_definition_ok(ctx: Context, d: VariableDefinitionView) -> bool {
    &&& d.kind == Kinds::VariableDefinition
    &&& d.variable is VariableValue
    &&& value_ok(ctx, d.variable, false)
    &&& type_ok(ctx, d.var_type)
    &&& d.default_value matches Some(v) ==> value_ok(ctx, v, true) && inside(d.loc, value_loc(v))
        && before(type_loc(d.var_type), value_loc(v))
    &&& inside(d.loc, value_loc(d.variable))
    &&& inside(d.loc, type_loc(d.var_type))
    &&& before(value_loc(d.variable), type_loc(d.var_type))
    &&& placed(ctx, d.loc)
}

/// All of the variable definitions are well formed.
pub open spec fn variable_definitions_ok(ctx: Context, items: Seq<VariableDefinitionView>) -> bool {
    forall|i: int| 0 <= i < items.len() ==> variable_definition_ok(ctx, #[trigger] items[i])
}

/// A well-formed selection set: it holds at least one selection.
pub open spec fn selection_set_ok(ctx: Context, s: SelectionSetView) -> bool
    decreases s, 1nat,
{
    &&& s.kind == Kinds::SelectionSet
    &&& s.selections.len() >= 1
    &&& forall|i: int|
        0 <= i < s.selections.len() ==> selection_ok(ctx, #[trigger] s.selections[i])
    &&& laid_inside(s.loc, selection_spans(s.selections))
    &&& placed(ctx, s.loc)
}

/// A well-formed selection. A fragment spread does not name `on`; the type
/// condition of an inline fragment is a named type.
pub open spec fn selection_ok(ctx: Context, s: SelectionView) -> bool
    decreases s, 0nat,
{
    match s {
        SelectionView::Field {
            kind,
            alias,
            name,
            arguments,
            directives,
            selection_set,
            loc,
        } => {
            &&& kind == Kinds::Field
            &&& alias matches Some(a) ==> name_ok(ctx, a) && inside(loc, a.loc) && before(
                a.loc,
                name.loc,
            )
            &&& name_ok(ctx, name)
            &&& inside(loc, name.loc)
            &&& arguments_ok(ctx, arguments)
            &&& laid_inside(loc, argument_spans(arguments))
            &&& directives_ok(ctx, directives)
            &&& laid_inside(loc, directive_spans(directives))
            &&& selection_set matches Some(set) ==> selection_set_ok(ctx, set) && inside(
                loc,
                set.loc,
            )
            &&& placed(ctx, loc)
        },
        SelectionView::FragmentSpread { kind, name, directives, loc } => {
            &&& kind == Kinds::FragmentSpread
            &&& name_ok(ctx, name)
            &&& name.value != "on"@
            &&& inside(loc, name.loc)
            &&& directives matches Some(items) && directives_ok(ctx, items) && laid_inside(
                loc,
                directive_spans(items),
            )
            &&& placed(ctx, loc)
        },
        SelectionView::InlineFragment { kind, type_condition, directives, selection_set, loc } => {
            &&& kind == Kinds::InlineFragment
            &&& type_condition is Named
            &&& type_ok(ctx, type_condition)
            &&& inside(loc, type_loc(type_condition))
            &&& directives matches Some(items) && directives_ok(ctx, items) && laid_inside(
                loc,
                directive_spans(items),
            )
            &&& selection_set_ok(ctx, selection_set)
            &&& inside(loc, selection_set.loc)
            &&& placed(ctx, loc)
        },
    }
}

/// All of the selections are well formed.
pub open spec fn selections_ok(ctx: Context, items: Seq<SelectionView>) -> bool {
    forall|i: int| 0 <= i < items.len() ==> selection_ok(ctx, #[trigger] items[i])
}

/// A well-formed definition. An operation is a query or a mutation; one
/// written as a bare selection set is a query without name, variables and
/// directives. A fragment is not named `on` and applies to a named type.
pub open spec fn definition_ok(ctx: Context, d: DefinitionView) -> bool {
    match d {
        DefinitionView::Operation {
            kind,
            operation,
            name,
            variable_definitions,
            directives,
            selection_set,
            loc,
        } => {
            &&& kind == Kinds::OperationDefinition
            &&& operation == "query"@ || operation == "mutation"@
            &&& name matches Some(n) ==> name_ok(ctx, n) && inside(loc, n.loc)
            &&& match variable_definitions {
                Some(items) => variable_definitions_ok(ctx, items) && laid_inside(
                    loc,
                    variable_definition_spans(items),
                ),
                None => operation == "query"@ && name is None && directives.len() == 0,
            }
            &&& directives_ok(ctx, directives)
            &&& laid_inside(loc, directive_spans(directives))
            &&& selection_set_ok(ctx, selection_set)
            &&& inside(loc, selection_set.loc)
            &&& placed(ctx, loc)
        },
        DefinitionView::Fragment { kind, name, type_condition, directives, selection_set, loc } => {
            &&& kind == Kinds::FragmentDefinition
            &&& name_ok(ctx, name)
            &&& name.value != "on"@
            &&& inside(loc, name.loc)
            &&& type_condition is Named
            &&& type_ok(ctx, type_condition)
            &&& inside(loc, type_loc(type_condition))
            &&& before(name.loc, type_loc(type_condition))
            &&& directives matches Some(items) && directives_ok(ctx, items) && laid_inside(
                loc,
                directive_spans(items),
            )
            &&& selection_set_ok(ctx, selection_set)
            &&& inside(loc, selection_set.loc)
            &&& placed(ctx, loc)
        },
    }
}

/// All of the definitions are well formed.
pub open spec fn definitions_ok(ctx: Context, items: Seq<DefinitionView>) -> bool {
    forall|i: int| 0 <= i < items.len() ==> definition_ok(ctx, #[trigger] items[i])
}

/// A well-formed document: it holds at least one definition.
pub open spec fn document_ok(ctx: Context, d: DocumentView) -> bool {
    &&& d.kind == Kinds::Document
    &&& d.definitions.len() >= 1
    &&& definitions_ok(ctx, d.definitions)
    &&& laid_inside(d.loc, definition_spans(d.definitions))
    &&& placed(ctx, d.loc)
}

/// A failure as a parse gives them: it names an offset of the text, its end
/// included.
pub open spec fn failure_ok(ctx: Context, e: ParseErrorView) -> bool {
    located(ctx.source.body, e)
}

/// A cursor as a parse reaches them: at a token of the text that does not
/// start before the end of the token before it.
pub open spec fn cursor_ok(ctx: Context, cur: Cursor) -> bool {
    &&& 0 <= cur.prev_end <= cur.token.start
    &&& well_formed_token(ctx.source.body, cur.token)
}

/// At least one token was consumed between `cur` and `next`.
pub open spec fn moved(cur: Cursor, next: Cursor) -> bool {
    cur.token.start < next.token.start && cur.token.end <= next.prev_end
}

/// Between `cur` and `next` the cursor stayed where it was or at least one
/// token was consumed.
pub open spec fn kept(cur: Cursor, next: Cursor) -> bool {
    next == cur || moved(cur, next)
}

/// A rule that succeeded from `cur` and ended at `next` has consumed at least
/// one token and left a cursor of the parse.
pub open spec fn lands(ctx: Context, cur: Cursor, next: Cursor) -> bool {
    cursor_ok(ctx, next) && moved(cur, next)
}

/// The first cursor of a text is a cursor of the parse.
pub proof fn lemma_begin(ctx: Context)
    ensures
        begin(ctx) matches Err(e) ==> failure_ok(ctx, e),
        begin(ctx) matches Ok(cur) ==> cursor_ok(ctx, cur),
{
    lemma_read_token(ctx.source.body, 0);
}

/// Moving on from a token other than `EOF` consumes it.
pub proof fn lemma_advance(ctx: Context, cur: Cursor)
    requires
        cursor_ok(ctx, cur),
    ensures
        advance(ctx, cur) matches Err(e) ==> failure_ok(ctx, e),
        advance(ctx, cur) matches Ok(next) ==> {
            &&& cursor_ok(ctx, next)
            &&& next.prev_end == cur.token.end
            &&& cur.token.kind != TokenKind::EOF ==> moved(cur, next)
        },
{
    lemma_read_token(ctx.source.body, cur.token.end);
}

/// A token that was asked for and found is consumed.
pub proof fn lemma_expect(ctx: Context, cur: Cursor, kind: TokenKind)
    requires
        cursor_ok(ctx, cur),
        kind != TokenKind::EOF,
    ensures
        expect(ctx, cur, kind) matches Err(e) ==> failure_ok(ctx, e),
        expect(ctx, cur, kind) matches Ok((token, next)) ==> {
            &&& lands(ctx, cur, next)
            &&& token == cur.token
            &&& token.kind == kind
            &&& next.prev_end == cur.token.end
        },
{
    lemma_advance(ctx, cur);
}

/// A keyword that was asked for and found is consumed.
pub proof fn lemma_expect_keyword(ctx: Context, cur: Cursor, word: Seq<char>)
    requires
        cursor_ok(ctx, cur),
    ensures
        expect_keyword(ctx, cur, word) matches Err(e) ==> failure_ok(ctx, e),
        expect_keyword(ctx, cur, word) matches Ok((token, next)) ==> lands(ctx, cur, next),
{
    lemma_advance(ctx, cur);
}

/// Skipping consumes the token or leaves the cursor where it was.
pub proof fn lemma_skip(ctx: Context, cur: Cursor, kind: TokenKind)
    requires
        cursor_ok(ctx, cur),
        kind != TokenKind::EOF,
    ensures
        skip(ctx, cur, kind) matches Err(e) ==> failure_ok(ctx, e),
        skip(ctx, cur, kind) matches Ok((skipped, next)) ==> {
            &&& cursor_ok(ctx, next)
            &&& kept(cur, next)
            &&& skipped ==> moved(cur, next)
            &&& !skipped ==> next == cur && cur.token.kind != kind
        },
{
    lemma_advance(ctx, cur);
}

/// A name that the grammar gives is well formed and has the text of its token.
pub proof fn lemma_name(ctx: Context, cur: Cursor)
    requires
        cursor_ok(ctx, cur),
    ensures
        name(ctx, cur) matches Err(e) ==> failure_ok(ctx, e),
        name(ctx, cur) matches Ok((n, next)) ==> {
            &&& lands(ctx, cur, next)
            &&& name_ok(ctx, n)
            &&& n.loc == location(ctx, cur.token.start, next)
            &&& cur.token.kind == TokenKind::Name
            &&& n.value == value_of(cur.token)
        },
{
    lemma_expect(ctx, cur, TokenKind::Name);
}

/// A fragment name that the grammar gives is well formed and is not `on`.
pub proof fn lemma_fragment_name(ctx: Context, cur: Cursor)
    requires
        cursor_ok(ctx, cur),
    ensures
        fragment_name(ctx, cur) matches Err(e) ==> failure_ok(ctx, e),
        fragment_name(ctx, cur) matches Ok((n, next)) ==> {
            &&& lands(ctx, cur, next)
            &&& name_ok(ctx, n)
            &&& n.loc == location(ctx, cur.token.start, next)
            &&& n.value != "on"@
        },
{
    lemma_name(ctx, cur);
}

/// A named type that the grammar gives is well formed.
pub proof fn lemma_named_type(ctx: Context, cur: Cursor)
    requires
        cursor_ok(ctx, cur),
    ensures
        named_type(ctx, cur) matches Err(e) ==> failure_ok(ctx, e),
        named_type(ctx, cur) matches Ok((t, next)) ==> {
            &&& lands(ctx, cur, next)
            &&& type_ok(ctx, t)
            &&& type_loc(t) == location(ctx, cur.token.start, next)
            &&& t is Named
        },
{
    lemma_name(ctx, cur);
}

/// A type reference that the grammar gives is well formed.
pub proof fn lemma_type_reference(ctx: Context, cur: Cursor)
    requires
        cursor_ok(ctx, cur),
    ensures
        type_reference(ctx, cur) matches Err(e) ==> failure_ok(ctx, e),
        type_reference(ctx, cur) matches Ok((t, next)) ==> {
            &&& lands(ctx, cur, next)
            &&& type_ok(ctx, t)
            &&& type_loc(t) == location(ctx, cur.token.start, next)
        },
    decreases remaining(ctx, cur),
{
    if cur.token.kind == TokenKind::BracketL {
        lemma_advance(ctx, cur);
        if let Ok(inside) = advance(ctx, cur) {
            lemma_type_reference(ctx, inside);
            if let Ok((item, after)) = type_reference(ctx, inside) {
                lemma_expect(ctx, after, TokenKind::BracketR);
                if let Ok((_, closed)) = expect(ctx, after, TokenKind::BracketR) {
                    let list = TypeView::List {
                        kind: Kinds::ListType,
                        t_type: Box::new(item),
                        loc: location(ctx, cur.token.start, closed),
                    };
                    assert(type_ok(ctx, list));
                    lemma_skip(ctx, closed, TokenKind::Bang);
                }
            }
        }
    } else {
        lemma_named_type(ctx, cur);
        if let Ok((t, after)) = named_type(ctx, cur) {
            lemma_skip(ctx, after, TokenKind::Bang);
        }
    }
}

/// A variable that the grammar gives is well formed.
pub proof fn lemma_variable(ctx: Context, cur: Cursor)
    requires
        cursor_ok(ctx, cur),
    ensures
        variable(ctx, cur) matches Err(e) ==> failure_ok(ctx, e),
        variable(ctx, cur) matches Ok((v, next)) ==> {
            &&& lands(ctx, cur, next)
            &&& value_ok(ctx, v, false)
            &&& value_loc(v) == location(ctx, cur.token.start, next)
            &&& v is VariableValue
        },
{
    lemma_expect(ctx, cur, TokenKind::Dollar);
    if let Ok((_, after)) = expect(ctx, cur, TokenKind::Dollar) {
        lemma_name(ctx, after);
    }
}

/// A value of one token is well formed, and constant.
pub proof fn lemma_scalar(ctx: Context, cur: Cursor, is_const: bool)
    requires
        cursor_ok(ctx, cur),
        cur.token.kind == TokenKind::Int || cur.token.kind == TokenKind::Float || cur.token.kind
            == TokenKind::String || (cur.token.kind == TokenKind::Name && value_of(cur.token)
            != "null"@),
    ensures
        scalar(ctx, cur) matches Err(e) ==> failure_ok(ctx, e),
        scalar(ctx, cur) matches Ok((v, next)) ==> {
            &&& lands(ctx, cur, next)
            &&& value_ok(ctx, v, is_const)
            &&& value_loc(v) == location(ctx, cur.token.start, next)
        },
{
    lemma_advance(ctx, cur);
}

/// A value that the grammar gives is well formed, and constant where it was
/// asked to be.
pub proof fn lemma_value(ctx: Context, cur: Cursor, is_const: bool)
    requires
        cursor_ok(ctx, cur),
    ensures
        value(ctx, cur, is_const) matches Err(e) ==> failure_ok(ctx, e),
        value(ctx, cur, is_const) matches Ok((v, next)) ==> {
            &&& lands(ctx, cur, next)
            &&& value_ok(ctx, v, is_const)
            &&& value_loc(v) == location(ctx, cur.token.start, next)
        },
    decreases remaining(ctx, cur), 1nat,
{
    match cur.token.kind {
        TokenKind::BracketL => {
            lemma_array(ctx, cur, is_const);
        },
        TokenKind::BraceL => {
            lemma_object(ctx, cur, is_const);
        },
        TokenKind::Int | TokenKind::Float | TokenKind::String => {
            lemma_scalar(ctx, cur, is_const);
        },
        TokenKind::Name => {
            if value_of(cur.token) != "null"@ {
                lemma_scalar(ctx, cur, is_const);
            }
        },
        TokenKind::Dollar => {
            if !is_const {
                lemma_variable(ctx, cur);
            }
        },
        _ => {},
    }
}

/// An array literal that the grammar gives is well formed.
pub proof fn lemma_array(ctx: Context, cur: Cursor, is_const: bool)
    requires
        cursor_ok(ctx, cur),
    ensures
        array(ctx, cur, is_const) matches Err(e) ==> failure_ok(ctx, e),
        array(ctx, cur, is_const) matches Ok((v, next)) ==> {
            &&& lands(ctx, cur, next)
            &&& value_ok(ctx, v, is_const)
            &&& value_loc(v) == location(ctx, cur.token.start, next)
        },
    decreases remaining(ctx, cur), 0nat,
{
    lemma_expect(ctx, cur, TokenKind::BracketL);
    if let Ok((_, inside)) = expect(ctx, cur, TokenKind::BracketL) {
        assert(value_spans(Seq::empty()) =~= Seq::empty());
        lemma_values_until(ctx, inside, is_const, Seq::empty(), cur.token.start);
    }
}

/// Well-formed values stay so when the values up to the closing bracket join
/// them.
pub proof fn lemma_values_until(
    ctx: Context,
    cur: Cursor,
    is_const: bool,
    done: Seq<ValueView>,
    lo: int,
)
    requires
        cursor_ok(ctx, cur),
        values_ok(ctx, done, is_const),
        lo <= cur.token.start,
        laid(value_spans(done), lo, cur.prev_end),
    ensures
        values_until(ctx, cur, is_const, done) matches Err(e) ==> failure_ok(ctx, e),
        values_until(ctx, cur, is_const, done) matches Ok((values, next)) ==> {
            &&& lands(ctx, cur, next)
            &&& values_ok(ctx, values, is_const)
            &&& laid(value_spans(values), lo, next.prev_end)
        },
    decreases remaining(ctx, cur), 2nat,
{
    lemma_skip(ctx, cur, TokenKind::BracketR);
    match skip(ctx, cur, TokenKind::BracketR) {
        Ok((false, _)) => {
            lemma_value(ctx, cur, is_const);
            if let Ok((v, next)) = value(ctx, cur, is_const) {
                lemma_laid_push(value_spans(done), lo, cur.prev_end, value_loc(v), next.prev_end);
                assert(value_spans(done.push(v)) =~= value_spans(done).push(value_loc(v)));
                lemma_values_until(ctx, next, is_const, done.push(v), lo);
            }
        },
        Ok((true, next)) => {
            lemma_laid_widen(value_spans(done), lo, cur.prev_end, lo, next.prev_end);
        },
        Err(_) => {},
    }
}

/// An object literal that the grammar gives is well formed.
pub proof fn lemma_object(ctx: Context, cur: Cursor, is_const: bool)
    requires
        cursor_ok(ctx, cur),
    ensures
        object(ctx, cur, is_const) matches Err(e) ==> failure_ok(ctx, e),
        object(ctx, cur, is_const) matches Ok((v, next)) ==> {
            &&& lands(ctx, cur, next)
            &&& value_ok(ctx, v, is_const)
            &&& value_loc(v) == location(ctx, cur.token.start, next)
        },
    decreases remaining(ctx, cur), 0nat,
{
    lemma_expect(ctx, cur, TokenKind::BraceL);
    if let Ok((_, inside)) = expect(ctx, cur, TokenKind::BraceL) {
        assert(object_field_spans(Seq::empty()) =~= Seq::empty());
        lemma_fields_until(ctx, inside, is_const, Seq::empty(), cur.token.start);
    }
}

/// Well-formed fields with distinct names stay so when the fields up to the
/// closing brace join them.
pub proof fn lemma_fields_until(
    ctx: Context,
    cur: Cursor,
    is_const: bool,
    done: Seq<ObjectFieldView>,
    lo: int,
)
    requires
        cursor_ok(ctx, cur),
        object_fields_ok(ctx, done, is_const),
        lo <= cur.token.start,
        laid(object_field_spans(done), lo, cur.prev_end),
    ensures
        fields_until(ctx, cur, is_const, done) matches Err(e) ==> failure_ok(ctx, e),
        fields_until(ctx, cur, is_const, done) matches Ok((fields, next)) ==> {
            &&& lands(ctx, cur, next)
            &&& object_fields_ok(ctx, fields, is_const)
            &&& laid(object_field_spans(fields), lo, next.prev_end)
        },
    decreases remaining(ctx, cur), 2nat,
{
    lemma_skip(ctx, cur, TokenKind::BraceR);
    if let Ok((true, next)) = skip(ctx, cur, TokenKind::BraceR) {
        lemma_laid_widen(object_field_spans(done), lo, cur.prev_end, lo, next.prev_end);
    }
    if let Ok((false, _)) = skip(ctx, cur, TokenKind::BraceR) {
        lemma_object_field(ctx, cur, is_const, done);
        if let Ok((f, next)) = object_field(ctx, cur, is_const, done) {
            lemma_laid_push(object_field_spans(done), lo, cur.prev_end, f.loc, next.prev_end);
            assert(object_field_spans(done.push(f)) =~= object_field_spans(done).push(f.loc));
            assert(distinct_names(done.push(f))) by {
                assert forall|i: int, j: int| 0 <= i < j < done.push(f).len() implies (
                #[trigger] done.push(f)[i]).name.value != (#[trigger] done.push(
                    f,
                )[j]).name.value by {
                    if j == done.len() {
                        assert(done[i].name.value != f.name.value);
                    }
                }
            }
            lemma_fields_until(ctx, next, is_const, done.push(f), lo);
        }
    }
}

/// A field that the grammar gives is well formed and has none of the names
/// before it.
pub proof fn lemma_object_field(
    ctx: Context,
    cur: Cursor,
    is_const: bool,
    done: Seq<ObjectFieldView>,
)
    requires
        cursor_ok(ctx, cur),
    ensures
        object_field(ctx, cur, is_const, done) matches Err(e) ==> failure_ok(ctx, e),
        object_field(ctx, cur, is_const, done) matches Ok((f, next)) ==> {
            &&& lands(ctx, cur, next)
            &&& object_field_ok(ctx, f, is_const)
            &&& f.loc == location(ctx, cur.token.start, next)
            &&& !has_field(done, f.name.value)
        },
    decreases remaining(ctx, cur), 1nat,
{
    lemma_name(ctx, cur);
    if let Ok((n, after)) = name(ctx, cur) {
        if !has_field(done, n.value) {
            lemma_expect(ctx, after, TokenKind::Colon);
            if let Ok((_, inside)) = expect(ctx, after, TokenKind::Colon) {
                lemma_value(ctx, inside, is_const);
            }
        }
    }
}

/// An argument that the grammar gives is well formed.
pub proof fn lemma_argument(ctx: Context, cur: Cursor)
    requires
        cursor_ok(ctx, cur),
    ensures
        argument(ctx, cur) matches Err(e) ==> failure_ok(ctx, e),
        argument(ctx, cur) matches Ok((a, next)) ==> {
            &&& lands(ctx, cur, next)
            &&& argument_ok(ctx, a)
            &&& a.loc == location(ctx, cur.token.start, next)
        },
{
    reveal(argument);
    lemma_name(ctx, cur);
    if let Ok((n, after)) = name(ctx, cur) {
        lemma_expect(ctx, after, TokenKind::Colon);
        if let Ok((_, inside)) = expect(ctx, after, TokenKind::Colon) {
            lemma_value(ctx, inside, false);
        }
    }
}

/// Well-formed arguments stay so when the arguments up to the closing
/// parenthesis join them.
pub proof fn lemma_arguments_until(ctx: Context, cur: Cursor, done: Seq<ArgumentView>, lo: int)
    requires
        cursor_ok(ctx, cur),
        arguments_ok(ctx, done),
        lo <= cur.token.start,
        laid(argument_spans(done), lo, cur.prev_end),
    ensures
        arguments_until(ctx, cur, done) matches Err(e) ==> failure_ok(ctx, e),
        arguments_until(ctx, cur, done) matches Ok((items, next)) ==> {
            &&& lands(ctx, cur, next)
            &&& arguments_ok(ctx, items)
            &&& laid(argument_spans(items), lo, next.prev_end)
        },
    decreases remaining(ctx, cur),
{
    lemma_skip(ctx, cur, TokenKind::ParenR);
    match skip(ctx, cur, TokenKind::ParenR) {
        Ok((false, _)) => {
            lemma_argument(ctx, cur);
            if let Ok((a, next)) = argument(ctx, cur) {
                lemma_laid_push(argument_spans(done), lo, cur.prev_end, a.loc, next.prev_end);
                assert(argument_spans(done.push(a)) =~= argument_spans(done).push(a.loc));
                lemma_arguments_until(ctx, next, done.push(a), lo);
            }
        },
        Ok((true, next)) => {
            lemma_laid_widen(argument_spans(done), lo, cur.prev_end, lo, next.prev_end);
        },
        Err(_) => {},
    }
}

/// The arguments that the grammar gives are well formed.
pub proof fn lemma_arguments(ctx: Context, cur: Cursor)
    requires
        cursor_ok(ctx, cur),
    ensures
        arguments(ctx, cur) matches Err(e) ==> failure_ok(ctx, e),
        arguments(ctx, cur) matches Ok((items, next)) ==> {
            &&& cursor_ok(ctx, next)
            &&& kept(cur, next)
            &&& arguments_ok(ctx, items)
            &&& laid(argument_spans(items), cur.prev_end, next.prev_end)
        },
{
    reveal(arguments);
    if cur.token.kind == TokenKind::ParenL {
        lemma_expect(ctx, cur, TokenKind::ParenL);
        if let Ok((_, inside)) = expect(ctx, cur, TokenKind::ParenL) {
            lemma_argument(ctx, inside);
            if let Ok((first, after)) = argument(ctx, inside) {
                assert(argument_spans(seq![first]) =~= seq![first.loc]);
                lemma_arguments_until(ctx, after, seq![first], cur.prev_end);
            }
        }
    } else {
        assert(argument_spans(Seq::empty()) =~= Seq::empty());
    }
}

/// A directive that the grammar gives is well formed.
pub proof fn lemma_directive(ctx: Context, cur: Cursor)
    requires
        cursor_ok(ctx, cur),
    ensures
        directive(ctx, cur) matches Err(e) ==> failure_ok(ctx, e),
        directive(ctx, cur) matches Ok((d, next)) ==> {
            &&& lands(ctx, cur, next)
            &&& directive_ok(ctx, d)
            &&& d.loc == location(ctx, cur.token.start, next)
        },
{
    reveal(directive);
    lemma_expect(ctx, cur, TokenKind::At);
    if let Ok((_, after)) = expect(ctx, cur, TokenKind::At) {
        lemma_name(ctx, after);
        if let Ok((n, inside)) = name(ctx, after) {
            lemma_arguments(ctx, inside);
            if let Ok((args, next)) = arguments(ctx, inside) {
                lemma_laid_widen(
                    argument_spans(args),
                    inside.prev_end,
                    next.prev_end,
                    cur.token.start,
                    next.prev_end,
                );
            }
        }
    }
}

/// Well-formed directives stay so when the directives that follow join them.
pub proof fn lemma_directives_from(ctx: Context, cur: Cursor, done: Seq<DirectiveView>, lo: int)
    requires
        cursor_ok(ctx, cur),
        directives_ok(ctx, done),
        lo <= cur.token.start,
        laid(directive_spans(done), lo, cur.prev_end),
    ensures
        directives_from(ctx, cur, done) matches Err(e) ==> failure_ok(ctx, e),
        directives_from(ctx, cur, done) matches Ok((items, next)) ==> {
            &&& cursor_ok(ctx, next)
            &&& kept(cur, next)
            &&& directives_ok(ctx, items)
            &&& laid(directive_spans(items), lo, next.prev_end)
        },
    decreases remaining(ctx, cur),
{
    if cur.token.kind == TokenKind::At {
        lemma_directive(ctx, cur);
        if let Ok((d, next)) = directive(ctx, cur) {
            lemma_laid_push(directive_spans(done), lo, cur.prev_end, d.loc, next.prev_end);
            assert(directive_spans(done.push(d)) =~= directive_spans(done).push(d.loc));
            lemma_directives_from(ctx, next, done.push(d), lo);
        }
    }
}

/// The directives that the grammar gives are well formed.
pub proof fn lemma_directives(ctx: Context, cur: Cursor)
    requires
        cursor_ok(ctx, cur),
    ensures
        directives(ctx, cur) matches Err(e) ==> failure_ok(ctx, e),
        directives(ctx, cur) matches Ok((items, next)) ==> {
            &&& cursor_ok(ctx, next)
            &&& kept(cur, next)
            &&& directives_ok(ctx, items)
            &&& laid(directive_spans(items), cur.prev_end, next.prev_end)
        },
{
    assert(directive_spans(Seq::empty()) =~= Seq::empty());
    lemma_directives_from(ctx, cur, Seq::empty(), cur.prev_end);
}

/// A variable definition that the grammar gives is well formed.
pub proof fn lemma_variable_definition(ctx: Context, cur: Cursor)
    requires
        cursor_ok(ctx, cur),
    ensures
        variable_definition(ctx, cur) matches Err(e) ==> failure_ok(ctx, e),
        variable_definition(ctx, cur) matches Ok((d, next)) ==> {
            &&& lands(ctx, cur, next)
            &&& variable_definition_ok(ctx, d)
            &&& d.loc == location(ctx, cur.token.start, next)
        },
{
    reveal(variable_definition);
    lemma_variable(ctx, cur);
    if let Ok((var, after)) = variable(ctx, cur) {
        lemma_expect(ctx, after, TokenKind::Colon);
        if let Ok((_, inside)) = expect(ctx, after, TokenKind::Colon) {
            lemma_type_reference(ctx, inside);
            if let Ok((t, typed)) = type_reference(ctx, inside) {
                lemma_skip(ctx, typed, TokenKind::Equals);
                if let Ok((true, assigned)) = skip(ctx, typed, TokenKind::Equals) {
                    lemma_value(ctx, assigned, true);
                }
            }
        }
    }
}

/// Well-formed variable definitions stay so when the definitions up to the
/// closing parenthesis join them.
pub proof fn lemma_variable_definitions_until(
    ctx: Context,
    cur: Cursor,
    done: Seq<VariableDefinitionView>,
    lo: int,
)
    requires
        cursor_ok(ctx, cur),
        variable_definitions_ok(ctx, done),
        lo <= cur.token.start,
        laid(variable_definition_spans(done), lo, cur.prev_end),
    ensures
        variable_definitions_until(ctx, cur, done) matches Err(e) ==> failure_ok(ctx, e),
        variable_definitions_until(ctx, cur, done) matches Ok((items, next)) ==> {
            &&& lands(ctx, cur, next)
            &&& variable_definitions_ok(ctx, items)
            &&& laid(variable_definition_spans(items), lo, next.prev_end)
        },
    decreases remaining(ctx, cur),
{
    lemma_skip(ctx, cur, TokenKind::ParenR);
    match skip(ctx, cur, TokenKind::ParenR) {
        Ok((false, _)) => {
            lemma_variable_definition(ctx, cur);
            if let Ok((d, next)) = variable_definition(ctx, cur) {
                lemma_laid_push(
                    variable_definition_spans(done),
                    lo,
                    cur.prev_end,
                    d.loc,
                    next.prev_end,
                );
                assert(variable_definition_spans(done.push(d)) =~= variable_definition_spans(
                    done,
                ).push(d.loc));
                lemma_variable_definitions_until(ctx, next, done.push(d), lo);
            }
        },
        Ok((true, next)) => {
            lemma_laid_widen(variable_definition_spans(done), lo, cur.prev_end, lo, next.prev_end);
        },
        Err(_) => {},
    }
}

/// The variable definitions that the grammar gives are well formed.
pub proof fn lemma_variable_definitions(ctx: Context, cur: Cursor)
    requires
        cursor_ok(ctx, cur),
    ensures
        variable_definitions(ctx, cur) matches Err(e) ==> failure_ok(ctx, e),
        variable_definitions(ctx, cur) matches Ok((items, next)) ==> {
            &&& cursor_ok(ctx, next)
            &&& kept(cur, next)
            &&& variable_definitions_ok(ctx, items)
            &&& laid(variable_definition_spans(items), cur.prev_end, next.prev_end)
        },
{
    reveal(variable_definitions);
    if cur.token.kind == TokenKind::ParenL {
        lemma_expect(ctx, cur, TokenKind::ParenL);
        if let Ok((_, inside)) = expect(ctx, cur, TokenKind::ParenL) {
            lemma_variable_definition(ctx, inside);
            if let Ok((first, after)) = variable_definition(ctx, inside) {
                assert(variable_definition_spans(seq![first]) =~= seq![first.loc]);
                lemma_variable_definitions_until(ctx, after, seq![first], cur.prev_end);
            }
        }
    } else {
        assert(variable_definition_spans(Seq::empty()) =~= Seq::empty());
    }
}

/// A selection set that the grammar gives is well formed.
pub proof fn lemma_selection_set(ctx: Context, cur: Cursor)
    requires
        cursor_ok(ctx, cur),
    ensures
        selection_set(ctx, cur) matches Err(e) ==> failure_ok(ctx, e),
        selection_set(ctx, cur) matches Ok((set, next)) ==> {
            &&& lands(ctx, cur, next)
            &&& selection_set_ok(ctx, set)
            &&& set.loc == location(ctx, cur.token.start, next)
        },
    decreases remaining(ctx, cur), 0nat,
{
    lemma_expect(ctx, cur, TokenKind::BraceL);
    if let Ok((_, inside)) = expect(ctx, cur, TokenKind::BraceL) {
        lemma_selection(ctx, inside);
        if let Ok((first, after)) = selection(ctx, inside) {
            assert(selection_spans(seq![first]) =~= seq![selection_loc(first)]);
            lemma_selections_until(ctx, after, seq![first], cur.token.start);
        }
    }
}

/// Well-formed selections stay so when the selections up to the closing brace
/// join them.
pub proof fn lemma_selections_until(
    ctx: Context,
    cur: Cursor,
    done: Seq<SelectionView>,
    lo: int,
)
    requires
        cursor_ok(ctx, cur),
        selections_ok(ctx, done),
        lo <= cur.token.start,
        laid(selection_spans(done), lo, cur.prev_end),
    ensures
        selections_until(ctx, cur, done) matches Err(e) ==> failure_ok(ctx, e),
        selections_until(ctx, cur, done) matches Ok((items, next)) ==> {
            &&& lands(ctx, cur, next)
            &&& selections_ok(ctx, items)
            &&& items.len() >= done.len()
            &&& laid(selection_spans(items), lo, next.prev_end)
        },
    decreases remaining(ctx, cur), 3nat,
{
    lemma_skip(ctx, cur, TokenKind::BraceR);
    match skip(ctx, cur, TokenKind::BraceR) {
        Ok((false, _)) => {
            lemma_selection(ctx, cur);
            if let Ok((s, next)) = selection(ctx, cur) {
                lemma_laid_push(
                    selection_spans(done),
                    lo,
                    cur.prev_end,
                    selection_loc(s),
                    next.prev_end,
                );
                assert(selection_spans(done.push(s)) =~= selection_spans(done).push(
                    selection_loc(s),
                ));
                lemma_selections_until(ctx, next, done.push(s), lo);
            }
        },
        Ok((true, next)) => {
            lemma_laid_widen(selection_spans(done), lo, cur.prev_end, lo, next.prev_end);
        },
        Err(_) => {},
    }
}

/// A selection that the grammar gives is well formed.
pub proof fn lemma_selection(ctx: Context, cur: Cursor)
    requires
        cursor_ok(ctx, cur),
    ensures
        selection(ctx, cur) matches Err(e) ==> failure_ok(ctx, e),
        selection(ctx, cur) matches Ok((s, next)) ==> {
            &&& lands(ctx, cur, next)
            &&& selection_ok(ctx, s)
            &&& selection_loc(s) == location(ctx, cur.token.start, next)
        },
    decreases remaining(ctx, cur), 2nat,
{
    if cur.token.kind == TokenKind::Spread {
        lemma_fragment(ctx, cur);
    } else {
        lemma_field(ctx, cur);
    }
}

/// A fragment spread or inline fragment that the grammar gives is well formed.
pub proof fn lemma_fragment(ctx: Context, cur: Cursor)
    requires
        cursor_ok(ctx, cur),
    ensures
        fragment(ctx, cur) matches Err(e) ==> failure_ok(ctx, e),
        fragment(ctx, cur) matches Ok((s, next)) ==> {
            &&& lands(ctx, cur, next)
            &&& selection_ok(ctx, s)
            &&& selection_loc(s) == location(ctx, cur.token.start, next)
        },
    decreases remaining(ctx, cur), 1nat,
{
    lemma_expect(ctx, cur, TokenKind::Spread);
    if let Ok((_, after)) = expect(ctx, cur, TokenKind::Spread) {
        if is_keyword(after.token, "on"@) {
            lemma_advance(ctx, after);
            if let Ok(inside) = advance(ctx, after) {
                lemma_named_type(ctx, inside);
                if let Ok((t, typed)) = named_type(ctx, inside) {
                    lemma_directives(ctx, typed);
                    if let Ok((ds, body)) = directives(ctx, typed) {
                        lemma_selection_set(ctx, body);
                        if let Ok((set, next)) = selection_set(ctx, body) {
                            lemma_laid_widen(
                                directive_spans(ds),
                                typed.prev_end,
                                body.prev_end,
                                cur.token.start,
                                next.prev_end,
                            );
                        }
                    }
                }
            }
        } else {
            lemma_fragment_name(ctx, after);
            if let Ok((n, named)) = fragment_name(ctx, after) {
                lemma_directives(ctx, named);
                if let Ok((ds, next)) = directives(ctx, named) {
                    lemma_laid_widen(
                        directive_spans(ds),
                        named.prev_end,
                        next.prev_end,
                        cur.token.start,
                        next.prev_end,
                    );
                }
            }
        }
    }
}

/// The alias and the name of a field are well formed.
pub proof fn lemma_aliased_name(ctx: Context, cur: Cursor, first: NameView)
    requires
        cursor_ok(ctx, cur),
        name_ok(ctx, first),
    ensures
        aliased_name(ctx, cur, first) matches Err(e) ==> failure_ok(ctx, e),
        aliased_name(ctx, cur, first) matches Ok(((alias, n), next)) ==> {
            &&& cursor_ok(ctx, next)
            &&& kept(cur, next)
            &&& name_ok(ctx, n)
            &&& match alias {
                Some(a) => a == first && within(n.loc, cur.token.end, next.prev_end),
                None => n == first,
            }
        },
{
    lemma_skip(ctx, cur, TokenKind::Colon);
    if let Ok((true, after)) = skip(ctx, cur, TokenKind::Colon) {
        lemma_name(ctx, after);
    }
}

/// A field that the grammar gives is well formed.
pub proof fn lemma_field(ctx: Context, cur: Cursor)
    requires
        cursor_ok(ctx, cur),
    ensures
        field(ctx, cur) matches Err(e) ==> failure_ok(ctx, e),
        field(ctx, cur) matches Ok((s, next)) ==> {
            &&& lands(ctx, cur, next)
            &&& selection_ok(ctx, s)
            &&& selection_loc(s) == location(ctx, cur.token.start, next)
        },
    decreases remaining(ctx, cur), 1nat,
{
    lemma_name(ctx, cur);
    if let Ok((first, after)) = name(ctx, cur) {
        lemma_aliased_name(ctx, after, first);
        if let Ok(((alias, n), named)) = aliased_name(ctx, after, first) {
            lemma_arguments(ctx, named);
            if let Ok((args, argued)) = arguments(ctx, named) {
                lemma_directives(ctx, argued);
                if let Ok((ds, body)) = directives(ctx, argued) {
                    let end = if body.token.kind == TokenKind::BraceL {
                        lemma_selection_set(ctx, body);
                        match selection_set(ctx, body) {
                            Ok((set, next)) => next.prev_end,
                            Err(_) => body.prev_end,
                        }
                    } else {
                        body.prev_end
                    };
                    lemma_laid_widen(
                        argument_spans(args),
                        named.prev_end,
                        argued.prev_end,
                        cur.token.start,
                        end,
                    );
                    lemma_laid_widen(
                        directive_spans(ds),
                        argued.prev_end,
                        body.prev_end,
                        cur.token.start,
                        end,
                    );
                }
            }
        }
    }
}

/// The name of an operation, where it has one, is well formed.
pub proof fn lemma_optional_name(ctx: Context, cur: Cursor)
    requires
        cursor_ok(ctx, cur),
    ensures
        optional_name(ctx, cur) matches Err(e) ==> failure_ok(ctx, e),
        optional_name(ctx, cur) matches Ok((n, next)) ==> {
            &&& cursor_ok(ctx, next)
            &&& kept(cur, next)
            &&& n matches Some(x) ==> name_ok(ctx, x) && x.loc == location(
                ctx,
                cur.token.start,
                next,
            )
        },
{
    if cur.token.kind == TokenKind::Name {
        lemma_name(ctx, cur);
    }
}

/// An operation that the grammar gives for a brace, `query` or `mutation` is
/// well formed.
pub proof fn lemma_operation_definition(ctx: Context, cur: Cursor)
    requires
        cursor_ok(ctx, cur),
        cur.token.kind == TokenKind::BraceL || value_of(cur.token) == "query"@ || value_of(
            cur.token,
        ) == "mutation"@,
    ensures
        operation_definition(ctx, cur) matches Err(e) ==> failure_ok(ctx, e),
        operation_definition(ctx, cur) matches Ok((d, next)) ==> {
            &&& lands(ctx, cur, next)
            &&& definition_ok(ctx, d)
            &&& definition_loc(d) == location(ctx, cur.token.start, next)
        },
{
    reveal(operation_definition);
    if cur.token.kind == TokenKind::BraceL {
        lemma_selection_set(ctx, cur);
        assert(directive_spans(Seq::empty()) =~= Seq::empty());
    } else {
        lemma_expect(ctx, cur, TokenKind::Name);
        if let Ok((operation, after)) = expect(ctx, cur, TokenKind::Name) {
            lemma_optional_name(ctx, after);
            if let Ok((n, named)) = optional_name(ctx, after) {
                lemma_variable_definitions(ctx, named);
                if let Ok((vars, declared)) = variable_definitions(ctx, named) {
                    lemma_directives(ctx, declared);
                    if let Ok((ds, body)) = directives(ctx, declared) {
                        lemma_selection_set(ctx, body);
                        if let Ok((set, next)) = selection_set(ctx, body) {
                            lemma_laid_widen(
                                variable_definition_spans(vars),
                                named.prev_end,
                                declared.prev_end,
                                cur.token.start,
                                next.prev_end,
                            );
                            lemma_laid_widen(
                                directive_spans(ds),
                                declared.prev_end,
                                body.prev_end,
                                cur.token.start,
                                next.prev_end,
                            );
                        }
                    }
                }
            }
        }
    }
}

/// A fragment definition that the grammar gives is well formed.
pub proof fn lemma_fragment_definition(ctx: Context, cur: Cursor)
    requires
        cursor_ok(ctx, cur),
    ensures
        fragment_definition(ctx, cur) matches Err(e) ==> failure_ok(ctx, e),
        fragment_definition(ctx, cur) matches Ok((d, next)) ==> {
            &&& lands(ctx, cur, next)
            &&& definition_ok(ctx, d)
            &&& definition_loc(d) == location(ctx, cur.token.start, next)
        },
{
    reveal(fragment_definition);
    lemma_expect_keyword(ctx, cur, "fragment"@);
    if let Ok((_, after)) = expect_keyword(ctx, cur, "fragment"@) {
        lemma_fragment_name(ctx, after);
        if let Ok((n, named)) = fragment_name(ctx, after) {
            lemma_expect_keyword(ctx, named, "on"@);
            if let Ok((_, inside)) = expect_keyword(ctx, named, "on"@) {
                lemma_named_type(ctx, inside);
                if let Ok((t, typed)) = named_type(ctx, inside) {
                    lemma_directives(ctx, typed);
                    if let Ok((ds, body)) = directives(ctx, typed) {
                        lemma_selection_set(ctx, body);
                        if let Ok((set, next)) = selection_set(ctx, body) {
                            lemma_laid_widen(
                                directive_spans(ds),
                                typed.prev_end,
                                body.prev_end,
                                cur.token.start,
                                next.prev_end,
                            );
                        }
                    }
                }
            }
        }
    }
}

/// A definition that the grammar gives is well formed.
pub proof fn lemma_definition(ctx: Context, cur: Cursor)
    requires
        cursor_ok(ctx, cur),
    ensures
        definition(ctx, cur) matches Err(e) ==> failure_ok(ctx, e),
        definition(ctx, cur) matches Ok((d, next)) ==> {
            &&& lands(ctx, cur, next)
            &&& definition_ok(ctx, d)
            &&& definition_loc(d) == location(ctx, cur.token.start, next)
        },
{
    reveal(definition);
    if cur.token.kind == TokenKind::BraceL {
        lemma_operation_definition(ctx, cur);
    } else if cur.token.kind == TokenKind::Name {
        match name_kind(cur.token.value) {
            Some(NameKind::Query) | Some(NameKind::Mutation) => {
                lemma_operation_definition(ctx, cur);
            },
            Some(NameKind::Fragment) => {
                lemma_fragment_definition(ctx, cur);
            },
            None => {},
        }
    }
}

/// Well-formed definitions stay so when the definitions up to the end of the
/// text join them, and there is at least one.
pub proof fn lemma_definitions(ctx: Context, cur: Cursor, done: Seq<DefinitionView>, lo: int)
    requires
        cursor_ok(ctx, cur),
        definitions_ok(ctx, done),
        lo <= cur.token.start,
        laid(definition_spans(done), lo, cur.prev_end),
    ensures
        definitions(ctx, cur, done) matches Err(e) ==> failure_ok(ctx, e),
        definitions(ctx, cur, done) matches Ok((items, next)) ==> {
            &&& cursor_ok(ctx, next)
            &&& cur.token.start <= next.prev_end
            &&& definitions_ok(ctx, items)
            &&& items.len() >= 1
            &&& laid(definition_spans(items), lo, next.prev_end)
        },
    decreases remaining(ctx, cur),
{
    lemma_definition(ctx, cur);
    if let Ok((d, after)) = definition(ctx, cur) {
        lemma_advance(ctx, after);
        lemma_laid_push(
            definition_spans(done),
            lo,
            cur.prev_end,
            definition_loc(d),
            after.prev_end,
        );
        assert(definition_spans(done.push(d)) =~= definition_spans(done).push(definition_loc(d)));
        match skip(ctx, after, TokenKind::EOF) {
            Ok((false, _)) => {
                lemma_definitions(ctx, after, done.push(d), lo);
            },
            Ok((true, next)) => {
                lemma_laid_widen(
                    definition_spans(done.push(d)),
                    lo,
                    after.prev_end,
                    lo,
                    next.prev_end,
                );
            },
            Err(_) => {},
        }
    }
}

/// Every document that the grammar gives, from any cursor of a parse, is well
/// formed.
pub proof fn lemma_document_from(ctx: Context, cur: Cursor)
    requires
        cursor_ok(ctx, cur),
    ensures
        document_from(ctx, cur) matches Err(e) ==> failure_ok(ctx, e),
        document_from(ctx, cur) matches Ok(d) ==> document_ok(ctx, d),
{
    reveal(document_from);
    assert(definition_spans(Seq::empty()) =~= Seq::empty());
    lemma_definitions(ctx, cur, Seq::empty(), cur.token.start);
}

/// Every document that the grammar gives for a text is well formed.
pub proof fn lemma_documents_are_well_formed(source: SourceView, options: ParseOptions)
    ensures
        document(source, options) matches Err(e) ==> failure_ok(Context { source, options }, e),
        document(source, options) matches Ok(d) ==> document_ok(Context { source, options }, d),
{
    reveal(document);
    let ctx = Context { source, options };
    lemma_begin(ctx);
    if let Ok(cur) = begin(ctx) {
        lemma_document_from(ctx, cur);
    }
}

/// No parse stalls: the answer that the rules keep for a recursion that does
/// not move on is never the answer of the grammar for a text.
pub proof fn lemma_no_parse_stalls(source: SourceView, options: ParseOptions, cur: Cursor)
    ensures
        document(source, options) != Err::<DocumentView, ParseErrorView>(stalled(cur)),
{
    lemma_documents_are_well_formed(source, options);
}

} // verus!
