//! Runs a parsed document against a schema.

use vstd::prelude::*;
use crate::language::ast::Document;
use crate::types::definition::Schema;

verus! {

/// The executor of documents.
pub struct Executor;

impl Executor {
    /// Runs `document_ast` against `schema`. Running a document has no effect
    /// yet and gives nothing back.
    pub fn execute(schema: Schema, document_ast: Document) {
    }
}

} // verus!
