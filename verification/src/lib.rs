//! A front end for a query language of fields, selection sets, fragments,
//! directives, typed variables and literal values: a tokenizer and a
//! recursive-descent parser that turn source text into a syntax tree in which
//! every node carries the byte span it was read from.
//!
//! Every executable function is verified against a mathematical description of
//! the language: `language::lexical` gives the tokens of a byte sequence,
//! `language::grammar` the tree of a token stream, and `language::shape` what
//! holds of every such tree.

use vstd::prelude::*;
use vstd::utf8::encode_utf8;
use crate::executor::Executor;
use crate::language::grammar;
use crate::language::lexer::{Source, SourceView};
use crate::language::parser::{ParseOptions, Parser};
use crate::types::definition::Schema;

pub mod language;
pub mod types;
pub mod executor;

verus! {

/// The entry point: queries against a schema.
pub struct GraphQL;

/// The text `query` is a document of the language.
pub open spec fn is_document(query: Seq<char>) -> bool {
    grammar::document(
        SourceView { body: encode_utf8(query), name: None },
        ParseOptions { no_source: false, no_location: false },
    ) is Ok
}

impl GraphQL {
    /// Parses `query` and runs it against `schema`. The text must be a
    /// document. Running a document gives nothing back yet, so the answer is
    /// empty.
    pub fn query(schema: Schema, query: String) -> (answer: String)
        requires
            is_document(query@),
        ensures
            answer@ == Seq::<char>::empty(),
    {
        let source = Source::from(query);
        match Parser::parse(source, ParseOptions::new()) {
            Ok(document) => {
                Executor::execute(schema, document);
                String::new()
            },
            Err(_) => unreached(),
        }
    }
}

} // verus!
