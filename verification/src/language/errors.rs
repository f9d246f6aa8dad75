//! The one failure type of the front end, for lexical and syntactic failures
//! alike.

use vstd::prelude::*;

verus! {

/// Why a text could not be tokenized or parsed: a message for a human reader
/// and, where one is known, the byte offset of the construct at fault.
#[derive(PartialEq, Eq, Debug, Clone)]
pub struct ParseError {
    pub description: String,
    pub offset: Option<usize>,
}

/// The mathematical content of a `ParseError`.
pub ghost struct ParseErrorView {
    pub description: Seq<char>,
    pub offset: Option<int>,
}

impl View for ParseError {
    type V = ParseErrorView;

    open spec fn view(&self) -> ParseErrorView {
        ParseErrorView {
            description: self.description@,
            offset: match self.offset {
                Some(at) => Some(at as int),
                None => None,
            },
        }
    }
}

/// The mathematical content of what a fallible step returned.
pub open spec fn outcome<T: View>(r: Result<T, ParseError>) -> Result<T::V, ParseErrorView> {
    match r {
        Ok(v) => Ok(v@),
        Err(e) => Err(e@),
    }
}

impl ParseError {
    /// An error that carries a message and no offset.
    pub fn new(msg: String) -> (e: ParseError)
        ensures
            e.description == msg,
            e.offset is None,
            e@ == (ParseErrorView { description: msg@, offset: None }),
    {
        ParseError { description: msg, offset: None }
    }

    /// An error that carries a message and the offset it is about.
    pub fn at(msg: String, offset: usize) -> (e: ParseError)
        ensures
            e.description == msg,
            e.offset == Some(offset),
            e@ == (ParseErrorView { description: msg@, offset: Some(offset as int) }),
    {
        ParseError { description: msg, offset: Some(offset) }
    }
}

} // verus!
