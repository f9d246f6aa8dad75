//! The kinds of node of the syntax tree.

use vstd::prelude::*;

verus! {

/// The kind of a node of the syntax tree. Every node records its own kind.
#[derive(PartialEq, Eq, Structural, Debug, Clone, Copy)]
pub enum Kinds {
    Document,
    OperationDefinition,
    FragmentDefinition,
    VariableDefinition,
    InlineFragment,
    FragmentSpread,
    SelectionSet,
    Field,
    Directive,
    Argument,
    Name,
    NonNullType,
    ListType,
    NamedType,
    Int,
    Float,
    String,
    Boolean,
    Enum,
    Array,
    Object,
    ObjectField,
    Variable,
}

} // verus!
