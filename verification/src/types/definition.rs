//! The types of a schema, as far as documents are run against one.

use vstd::prelude::*;
use std::collections::HashMap;

verus! {

/// A schema: the object type that queries start from.
pub struct Schema {
    pub query: Object,
}

/// An enumeration type: its name, what it is for, and its values by name.
pub struct Enum {
    pub name: String,
    pub description: String,
    pub values: HashMap<String, EnumValue>,
}

/// One value of an enumeration type.
pub struct EnumValue {
    pub value: usize,
    pub description: String,
}

/// An object type.
pub struct Object {
    pub name: String,
}

} // verus!
