//! The syntax tree of a parsed document, and for every node type the
//! mathematical value that contracts speak of: the same tree with sequences in
//! place of vectors and character sequences in place of strings.

use vstd::prelude::*;
use vstd::string::*;
use crate::language::kinds::Kinds;
use crate::language::lexer::{Source, SourceView};
use crate::language::text::{decimal, push_decimal};

verus! {

/// The views of the items of a sequence, in order.
pub open spec fn views<T: View>(items: Seq<T>) -> Seq<T::V> {
    Seq::new(items.len(), |i: int| items[i]@)
}

/// The view of an optional item.
pub open spec fn view_of<T: View>(item: Option<T>) -> Option<T::V> {
    match item {
        Some(x) => Some(x@),
        None => None,
    }
}

/// The views of the items of an optional sequence.
pub open spec fn views_of<T: View>(items: Option<Vec<T>>) -> Option<Seq<T::V>> {
    match items {
        Some(v) => Some(views(v@)),
        None => None,
    }
}

/// The views of a sequence with one more item are the views of the sequence
/// with the view of that item.
pub proof fn lemma_views_push<T: View>(items: Seq<T>, item: T)
    ensures
        views(items.push(item)) == views(items).push(item@),
{
    assert(views(items.push(item)) =~= views(items).push(item@));
}

/// Where a node was read from: the half-open byte span `start..end` and, where
/// it was asked for, the source itself.
#[derive(PartialEq, Debug)]
pub struct Location {
    pub start: usize,
    pub end: usize,
    pub source: Option<Source>,
}

pub ghost struct LocationView {
    pub start: int,
    pub end: int,
    pub source: Option<SourceView>,
}

impl View for Location {
    type V = LocationView;

    open spec fn view(&self) -> LocationView {
        LocationView {
            start: self.start as int,
            end: self.end as int,
            source: view_of(self.source),
        }
    }
}

impl Location {
    /// The span as `(start, end)`, in decimal.
    pub open spec fn description(self) -> Seq<char> {
        "("@ + decimal(self.start as nat) + ", "@ + decimal(self.end as nat) + ")"@
    }

    /// The span as `(start, end)`, in decimal.
    pub fn describe(&self) -> (s: String)
        ensures
            s@ == self.description(),
    {
        let mut s = "(".to_owned();
        push_decimal(&mut s, self.start);
        s.append(", ");
        push_decimal(&mut s, self.end);
        s.append(")");
        s
    }
}

impl Clone for Location {
    fn clone(&self) -> (r: Location)
        ensures
            r == *self,
    {
        Location {
            start: self.start,
            end: self.end,
            source: match &self.source {
                Some(s) => Some(s.clone()),
                None => None,
            },
        }
    }
}

/// An identifier.
#[derive(PartialEq, Debug)]
pub struct Name {
    pub kind: Kinds,
    pub value: String,
    pub loc: Option<Location>,
}

pub ghost struct NameView {
    pub kind: Kinds,
    pub value: Seq<char>,
    pub loc: Option<LocationView>,
}

impl View for Name {
    type V = NameView;

    open spec fn view(&self) -> NameView {
        NameView { kind: self.kind, value: self.value@, loc: view_of(self.loc) }
    }
}

impl Clone for Name {
    fn clone(&self) -> (r: Name)
        ensures
            r == *self,
    {
        Name {
            kind: self.kind,
            value: self.value.clone(),
            loc: match &self.loc {
                Some(l) => Some(l.clone()),
                None => None,
            },
        }
    }
}

/// A reference to a type: a named type, a list of a type, or a type that
/// excludes null.
#[derive(PartialEq, Debug)]
pub enum Type {
    Named { kind: Kinds, name: Name, loc: Option<Location> },
    List { kind: Kinds, t_type: Box<Type>, loc: Option<Location> },
    NonNull { kind: Kinds, t_type: Box<Type>, loc: Option<Location> },
}

pub ghost enum TypeView {
    Named { kind: Kinds, name: NameView, loc: Option<LocationView> },
    List { kind: Kinds, t_type: Box<TypeView>, loc: Option<LocationView> },
    NonNull { kind: Kinds, t_type: Box<TypeView>, loc: Option<LocationView> },
}

impl View for Type {
    type V = TypeView;

    open spec fn view(&self) -> TypeView
        decreases self,
    {
        match self {
            Type::Named { kind, name, loc } => TypeView::Named {
                kind: *kind,
                name: name@,
                loc: view_of(*loc),
            },
            Type::List { kind, t_type, loc } => TypeView::List {
                kind: *kind,
                t_type: Box::new((**t_type).view()),
                loc: view_of(*loc),
            },
            Type::NonNull { kind, t_type, loc } => TypeView::NonNull {
                kind: *kind,
                t_type: Box::new((**t_type).view()),
                loc: view_of(*loc),
            },
        }
    }
}

impl Type {
    /// A copy of this type reference.
    pub fn duplicate(&self) -> (r: Type)
        ensures
            r == *self,
        decreases self,
    {
        match self {
            Type::Named { kind, name, loc } => Type::Named {
                kind: *kind,
                name: name.clone(),
                loc: match loc {
                    Some(l) => Some(l.clone()),
                    None => None,
                },
            },
            Type::List { kind, t_type, loc } => Type::List {
                kind: *kind,
                t_type: Box::new(t_type.duplicate()),
                loc: match loc {
                    Some(l) => Some(l.clone()),
                    None => None,
                },
            },
            Type::NonNull { kind, t_type, loc } => Type::NonNull {
                kind: *kind,
                t_type: Box::new(t_type.duplicate()),
                loc: match loc {
                    Some(l) => Some(l.clone()),
                    None => None,
                },
            },
        }
    }
}

impl Clone for Type {
    fn clone(&self) -> (r: Type)
        ensures
            r == *self,
    {
        self.duplicate()
    }
}

/// A literal value or a reference to a variable. Numbers and strings keep
/// their text.
#[derive(PartialEq, Debug)]
pub enum Value {
    IntValue { kind: Kinds, value: String, loc: Option<Location> },
    FloatValue { kind: Kinds, value: String, loc: Option<Location> },
    StringValue { kind: Kinds, value: String, loc: Option<Location> },
    BooleanValue { kind: Kinds, value: bool, loc: Option<Location> },
    EnumValue { kind: Kinds, value: String, loc: Option<Location> },
    ArrayValue { kind: Kinds, values: Vec<Value>, loc: Option<Location> },
    ObjectValue { kind: Kinds, fields: Vec<ObjectField>, loc: Option<Location> },
    VariableValue { kind: Kinds, name: Name, loc: Option<Location> },
}

pub ghost enum ValueView {
    IntValue { kind: Kinds, value: Seq<char>, loc: Option<LocationView> },
    FloatValue { kind: Kinds, value: Seq<char>, loc: Option<LocationView> },
    StringValue { kind: Kinds, value: Seq<char>, loc: Option<LocationView> },
    BooleanValue { kind: Kinds, value: bool, loc: Option<LocationView> },
    EnumValue { kind: Kinds, value: Seq<char>, loc: Option<LocationView> },
    ArrayValue { kind: Kinds, values: Seq<ValueView>, loc: Option<LocationView> },
    ObjectValue { kind: Kinds, fields: Seq<ObjectFieldView>, loc: Option<LocationView> },
    VariableValue { kind: Kinds, name: NameView, loc: Option<LocationView> },
}

/// A named member of an object literal.
#[derive(PartialEq, Debug)]
pub struct ObjectField {
    pub kind: Kinds,
    pub name: Name,
    pub value: Value,
    pub loc: Option<Location>,
}

pub ghost struct ObjectFieldView {
    pub kind: Kinds,
    pub name: NameView,
    pub value: ValueView,
    pub loc: Option<LocationView>,
}

/// The views of the first `n` of `items`, in order.
pub open spec fn first_values(items: &Vec<Value>, n: nat) -> Seq<ValueView>
    decreases items, n,
{
    if n == 0 || n > items.len() {
        Seq::empty()
    } else {
        first_values(items, (n - 1) as nat).push(items[n - 1].view())
    }
}

/// The views of the first `n` of `items`, in order.
pub open spec fn first_fields(items: &Vec<ObjectField>, n: nat) -> Seq<ObjectFieldView>
    decreases items, n,
{
    if n == 0 || n > items.len() {
        Seq::empty()
    } else {
        first_fields(items, (n - 1) as nat).push(items[n - 1].view())
    }
}

impl View for Value {
    type V = ValueView;

    open spec fn view(&self) -> ValueView
        decreases self, 0nat,
    {
        match self {
            Value::IntValue { kind, value, loc } => ValueView::IntValue {
                kind: *kind,
                value: value@,
                loc: view_of(*loc),
            },
            Value::FloatValue { kind, value, loc } => ValueView::FloatValue {
                kind: *kind,
                value: value@,
                loc: view_of(*loc),
            },
            Value::StringValue { kind, value, loc } => ValueView::StringValue {
                kind: *kind,
                value: value@,
                loc: view_of(*loc),
            },
            Value::BooleanValue { kind, value, loc } => ValueView::BooleanValue {
                kind: *kind,
                value: *value,
                loc: view_of(*loc),
            },
            Value::EnumValue { kind, value, loc } => ValueView::EnumValue {
                kind: *kind,
                value: value@,
                loc: view_of(*loc),
            },
            Value::ArrayValue { kind, values, loc } => ValueView::ArrayValue {
                kind: *kind,
                values: first_values(values, values.len() as nat),
                loc: view_of(*loc),
            },
            Value::ObjectValue { kind, fields, loc } => ValueView::ObjectValue {
                kind: *kind,
                fields: first_fields(fields, fields.len() as nat),
                loc: view_of(*loc),
            },
            Value::VariableValue { kind, name, loc } => ValueView::VariableValue {
                kind: *kind,
                name: name@,
                loc: view_of(*loc),
            },
        }
    }
}

impl View for ObjectField {
    type V = ObjectFieldView;

    open spec fn view(&self) -> ObjectFieldView
        decreases self, 0nat,
    {
        ObjectFieldView {
            kind: self.kind,
            name: self.name@,
            value: self.value.view(),
            loc: view_of(self.loc),
        }
    }
}

/// `first_values` gives the views of a prefix.
pub proof fn lemma_first_values(items: &Vec<Value>, n: nat)
    requires
        n <= items.len(),
    ensures
        first_values(items, n) == views(items@.take(n as int)),
    decreases n,
{
    if n > 0 {
        lemma_first_values(items, (n - 1) as nat);
        assert(items@.take(n as int) =~= items@.take(n - 1).push(items@[n - 1]));
        lemma_views_push(items@.take(n - 1), items@[n - 1]);
    } else {
        assert(first_values(items, n) =~= views(items@.take(n as int)));
    }
}

/// `first_fields` gives the views of a prefix.
pub proof fn lemma_first_fields(items: &Vec<ObjectField>, n: nat)
    requires
        n <= items.len(),
    ensures
        first_fields(items, n) == views(items@.take(n as int)),
    decreases n,
{
    if n > 0 {
        lemma_first_fields(items, (n - 1) as nat);
        assert(items@.take(n as int) =~= items@.take(n - 1).push(items@[n - 1]));
        lemma_views_push(items@.take(n - 1), items@[n - 1]);
    } else {
        assert(first_fields(items, n) =~= views(items@.take(n as int)));
    }
}

/// The view of an array literal holds the views of its values.
pub proof fn lemma_array_view(kind: Kinds, values: Vec<Value>, loc: Option<Location>)
    ensures
        (Value::ArrayValue { kind, values, loc })@ == (ValueView::ArrayValue {
            kind,
            values: views(values@),
            loc: view_of(loc),
        }),
{
    lemma_first_values(&values, values.len() as nat);
    assert(values@.take(values.len() as int) =~= values@);
}

/// The view of an object literal holds the views of its fields.
pub proof fn lemma_object_view(kind: Kinds, fields: Vec<ObjectField>, loc: Option<Location>)
    ensures
        (Value::ObjectValue { kind, fields, loc })@ == (ValueView::ObjectValue {
            kind,
            fields: views(fields@),
            loc: view_of(loc),
        }),
{
    lemma_first_fields(&fields, fields.len() as nat);
    assert(fields@.take(fields.len() as int) =~= fields@);
}

/// A named argument of a field or of a directive.
#[derive(PartialEq, Debug)]
pub struct Argument {
    pub kind: Kinds,
    pub name: Name,
    pub value: Value,
    pub loc: Option<Location>,
}

pub ghost struct ArgumentView {
    pub kind: Kinds,
    pub name: NameView,
    pub value: ValueView,
    pub loc: Option<LocationView>,
}

impl View for Argument {
    type V = ArgumentView;

    open spec fn view(&self) -> ArgumentView {
        ArgumentView {
            kind: self.kind,
            name: self.name@,
            value: self.value@,
            loc: view_of(self.loc),
        }
    }
}

/// An annotation `@name(...)`.
#[derive(PartialEq, Debug)]
pub struct Directive {
    pub kind: Kinds,
    pub name: Name,
    pub arguments: Option<Vec<Argument>>,
    pub loc: Option<Location>,
}

pub ghost struct DirectiveView {
    pub kind: Kinds,
    pub name: NameView,
    pub arguments: Option<Seq<ArgumentView>>,
    pub loc: Option<LocationView>,
}

impl View for Directive {
    type V = DirectiveView;

    open spec fn view(&self) -> DirectiveView {
        DirectiveView {
            kind: self.kind,
            name: self.name@,
            arguments: views_of(self.arguments),
            loc: view_of(self.loc),
        }
    }
}

/// The declaration of a variable of an operation.
#[derive(PartialEq, Debug)]
pub struct VariableDefinition {
    pub kind: Kinds,
    pub variable: Value,
    pub var_type: Type,
    pub default_value: Option<Value>,
    pub loc: Option<Location>,
}

pub ghost struct VariableDefinitionView {
    pub kind: Kinds,
    pub variable: ValueView,
    pub var_type: TypeView,
    pub default_value: Option<ValueView>,
    pub loc: Option<LocationView>,
}

impl View for VariableDefinition {
    type V = VariableDefinitionView;

    open spec fn view(&self) -> VariableDefinitionView {
        VariableDefinitionView {
            kind: self.kind,
            variable: self.variable@,
            var_type: self.var_type@,
            default_value: view_of(self.default_value),
            loc: view_of(self.loc),
        }
    }
}

/// The body `{ ... }` of an operation, a field or a fragment.
#[derive(PartialEq, Debug)]
pub struct SelectionSet {
    pub kind: Kinds,
    pub selections: Vec<Selection>,
    pub loc: Option<Location>,
}

pub ghost struct SelectionSetView {
    pub kind: Kinds,
    pub selections: Seq<SelectionView>,
    pub loc: Option<LocationView>,
}

/// One entry of a selection set.
#[derive(PartialEq, Debug)]
pub enum Selection {
    Field {
        kind: Kinds,
        alias: Option<Name>,
        name: Name,
        arguments: Vec<Argument>,
        directives: Vec<Directive>,
        selection_set: Option<SelectionSet>,
        loc: Option<Location>,
    },
    FragmentSpread {
        kind: Kinds,
        name: Name,
        directives: Option<Vec<Directive>>,
        loc: Option<Location>,
    },
    InlineFragment {
        kind: Kinds,
        type_condition: Type,
        directives: Option<Vec<Directive>>,
        selection_set: SelectionSet,
        loc: Option<Location>,
    },
}

pub ghost enum SelectionView {
    Field {
        kind: Kinds,
        alias: Option<NameView>,
        name: NameView,
        arguments: Seq<ArgumentView>,
        directives: Seq<DirectiveView>,
        selection_set: Option<SelectionSetView>,
        loc: Option<LocationView>,
    },
    FragmentSpread {
        kind: Kinds,
        name: NameView,
        directives: Option<Seq<DirectiveView>>,
        loc: Option<LocationView>,
    },
    InlineFragment {
        kind: Kinds,
        type_condition: TypeView,
        directives: Option<Seq<DirectiveView>>,
        selection_set: SelectionSetView,
        loc: Option<LocationView>,
    },
}

/// The views of the first `n` of `items`, in order.
pub open spec fn first_selections(items: &Vec<Selection>, n: nat) -> Seq<SelectionView>
    decreases items, n,
{
    if n == 0 || n > items.len() {
        Seq::empty()
    } else {
        first_selections(items, (n - 1) as nat).push(items[n - 1].view())
    }
}

impl View for SelectionSet {
    type V = SelectionSetView;

    open spec fn view(&self) -> SelectionSetView
        decreases self, 0nat,
    {
        SelectionSetView {
            kind: self.kind,
            selections: first_selections(&self.selections, self.selections.len() as nat),
            loc: view_of(self.loc),
        }
    }
}

impl View for Selection {
    type V = SelectionView;

    open spec fn view(&self) -> SelectionView
        decreases self, 0nat,
    {
        match self {
            Selection::Field {
                kind,
                alias,
                name,
                arguments,
                directives,
                selection_set,
                loc,
            } => SelectionView::Field {
                kind: *kind,
                alias: view_of(*alias),
                name: name@,
                arguments: views(arguments@),
                directives: views(directives@),
                selection_set: match selection_set {
                    Some(set) => Some(set.view()),
                    None => None,
                },
                loc: view_of(*loc),
            },
            Selection::FragmentSpread { kind, name, directives, loc } => {
                SelectionView::FragmentSpread {
                    kind: *kind,
                    name: name@,
                    directives: views_of(*directives),
                    loc: view_of(*loc),
                }
            },
            Selection::InlineFragment {
                kind,
                type_condition,
                directives,
                selection_set,
                loc,
            } => SelectionView::InlineFragment {
                kind: *kind,
                type_condition: type_condition@,
                directives: views_of(*directives),
                selection_set: selection_set.view(),
                loc: view_of(*loc),
            },
        }
    }
}

/// `first_selections` gives the views of a prefix.
pub proof fn lemma_first_selections(items: &Vec<Selection>, n: nat)
    requires
        n <= items.len(),
    ensures
        first_selections(items, n) == views(items@.take(n as int)),
    decreases n,
{
    if n > 0 {
        lemma_first_selections(items, (n - 1) as nat);
        assert(items@.take(n as int) =~= items@.take(n - 1).push(items@[n - 1]));
        lemma_views_push(items@.take(n - 1), items@[n - 1]);
    } else {
        assert(first_selections(items, n) =~= views(items@.take(n as int)));
    }
}

/// The view of a selection set holds the views of its selections.
pub proof fn lemma_selection_set_view(set: SelectionSet)
    ensures
        set@ == (SelectionSetView {
            kind: set.kind,
            selections: views(set.selections@),
            loc: view_of(set.loc),
        }),
{
    lemma_first_selections(&set.selections, set.selections.len() as nat);
    assert(set.selections@.take(set.selections.len() as int) =~= set.selections@);
}

/// A definition of a document: an operation or a fragment.
#[derive(PartialEq, Debug)]
pub enum Definition {
    Operation {
        kind: Kinds,
        operation: String,
        name: Option<Name>,
        variable_definitions: Option<Vec<VariableDefinition>>,
        directives: Vec<Directive>,
        selection_set: SelectionSet,
        loc: Option<Location>,
    },
    Fragment {
        kind: Kinds,
        name: Name,
        type_condition: Type,
        directives: Option<Vec<Directive>>,
        selection_set: SelectionSet,
        loc: Option<Location>,
    },
}

pub ghost enum DefinitionView {
    Operation {
        kind: Kinds,
        operation: Seq<char>,
        name: Option<NameView>,
        variable_definitions: Option<Seq<VariableDefinitionView>>,
        directives: Seq<DirectiveView>,
        selection_set: SelectionSetView,
        loc: Option<LocationView>,
    },
    Fragment {
        kind: Kinds,
        name: NameView,
        type_condition: TypeView,
        directives: Option<Seq<DirectiveView>>,
        selection_set: SelectionSetView,
        loc: Option<LocationView>,
    },
}

impl View for Definition {
    type V = DefinitionView;

    open spec fn view(&self) -> DefinitionView {
        match self {
            Definition::Operation {
                kind,
                operation,
                name,
                variable_definitions,
                directives,
                selection_set,
                loc,
            } => DefinitionView::Operation {
                kind: *kind,
                operation: operation@,
                name: view_of(*name),
                variable_definitions: views_of(*variable_definitions),
                directives: views(directives@),
                selection_set: selection_set@,
                loc: view_of(*loc),
            },
            Definition::Fragment {
                kind,
                name,
                type_condition,
                directives,
                selection_set,
                loc,
            } => DefinitionView::Fragment {
                kind: *kind,
                name: name@,
                type_condition: type_condition@,
                directives: views_of(*directives),
                selection_set: selection_set@,
                loc: view_of(*loc),
            },
        }
    }
}

/// A parsed document: its definitions in the order of the text.
#[derive(PartialEq, Debug)]
pub struct Document {
    pub kind: Kinds,
    pub loc: Option<Location>,
    pub definitions: Vec<Definition>,
}

pub ghost struct DocumentView {
    pub kind: Kinds,
    pub loc: Option<LocationView>,
    pub definitions: Seq<DefinitionView>,
}

impl View for Document {
    type V = DocumentView;

    open spec fn view(&self) -> DocumentView {
        DocumentView {
            kind: self.kind,
            loc: view_of(self.loc),
            definitions: views(self.definitions@),
        }
    }
}

} // verus!
