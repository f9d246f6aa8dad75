//! The parser: recursive descent over the tokens of a source, one function for
//! each rule of the grammar, each proved to return what `grammar` says.

use vstd::prelude::*;
use vstd::string::*;
use crate::language::ast::{
    lemma_array_view,
    lemma_object_view,
    lemma_selection_set_view,
    lemma_views_push,
    view_of,
    views,
    Argument,
    ArgumentView,
    Definition,
    DefinitionView,
    Directive,
    DirectiveView,
    Document,
    Location,
    Name,
    ObjectField,
    ObjectFieldView,
    Selection,
    SelectionSet,
    Type,
    TypeView,
    Value,
    ValueView,
    VariableDefinition,
    VariableDefinitionView,
};
use crate::language::errors::{outcome, ParseError};
use crate::language::grammar;
use crate::language::grammar::{Context, Cursor, Parsed};
use crate::language::kinds::Kinds;
use crate::language::lexer::{Lexer, NameKind, Source, Token, TokenKind};
use crate::language::lexical::lemma_read_token;
use crate::language::shape::{
    cursor_ok,
    document_ok,
    kept,
    lemma_documents_are_well_formed,
    moved,
};
use crate::language::text;

verus! {

/// What a parse records about where nodes came from. By default every node
/// carries a location, and every location the source.
#[derive(Clone, Copy)]
pub struct ParseOptions {
    pub no_source: bool,
    pub no_location: bool,
}

impl ParseOptions {
    /// Locations with their source.
    pub fn new() -> (o: ParseOptions)
        ensures
            o == (ParseOptions { no_source: false, no_location: false }),
    {
        ParseOptions { no_source: false, no_location: false }
    }

    /// Locations without their source.
    pub fn no_source() -> (o: ParseOptions)
        ensures
            o == (ParseOptions { no_source: true, no_location: false }),
    {
        ParseOptions { no_source: true, no_location: false }
    }

    /// No locations at all.
    pub fn no_location() -> (o: ParseOptions)
        ensures
            o == (ParseOptions { no_source: false, no_location: true }),
    {
        ParseOptions { no_source: false, no_location: true }
    }

    /// Sets whether locations are left out.
    pub fn set_location(&mut self, location: bool)
        ensures
            final(self).no_location == location,
            final(self).no_source == old(self).no_source,
    {
        self.no_location = location;
    }

    /// Sets whether locations leave out the source.
    pub fn set_source(&mut self, source: bool)
        ensures
            final(self).no_source == source,
            final(self).no_location == old(self).no_location,
    {
        self.no_source = source;
    }
}

/// A parse in progress: the tokenizer, the current token and the end of the
/// token before it, with the source and the options of the parse.
pub struct Parser {
    lex_token: Lexer,
    source: Source,
    options: ParseOptions,
    prev_end: usize,
    token: Token,
}

/// The failure for a token of another kind than the rule asks for.
fn unexpected(expected: TokenKind, found: &Token) -> (e: ParseError)
    ensures
        e@ == grammar::unexpected(expected, found@),
{
    let mut msg = "Expected ".to_owned();
    msg.append(expected.name());
    msg.append(", found ");
    msg.append(found.kind.name());
    ParseError::at(msg, found.start)
}

/// The text that a token stands for; empty for a token without one.
fn value_of(token: &Token) -> (v: &str)
    ensures
        v@ == grammar::value_of(token@),
{
    match &token.value {
        Some(v) => v.as_str(),
        None => {
            proof {
                reveal_strlit("");
                assert(""@ =~= Seq::<char>::empty());
            }
            ""
        },
    }
}

/// The failure for a token that is not the keyword `word`.
fn missing_keyword(word: &str, found: &Token) -> (e: ParseError)
    ensures
        e@ == grammar::missing_keyword(word@, found@),
{
    let mut msg = "Expected '".to_owned();
    msg.append(word);
    msg.append("' and got '");
    msg.append(value_of(found));
    msg.append("'");
    ParseError::at(msg, found.start)
}

/// The failure for a token that can open no value.
fn unexpected_token(found: &Token) -> (e: ParseError)
    ensures
        e@ == grammar::unexpected_token(found@),
{
    let mut what = "Unexpected ".to_owned();
    what.append(found.kind.name());
    text::failure_at(what.as_str(), found.start)
}

/// The failure for an object literal that names the field `name` twice.
fn duplicate_field(name: &Name, at: usize) -> (e: ParseError)
    ensures
        e@ == grammar::duplicate_field(name@, at as int),
{
    let mut what = "Duplicate input object field \"".to_owned();
    what.append(name.value.as_str());
    what.append("\"");
    text::failure_at(what.as_str(), at)
}

impl Parser {
    /// What stays the same during the parse.
    spec fn context(&self) -> Context {
        Context { source: self.source@, options: self.options }
    }

    /// Where the parse stands.
    spec fn cursor(&self) -> Cursor {
        Cursor { token: self.token@, prev_end: self.prev_end as int }
    }

    /// The bytes of the text at or behind the start of the current token.
    spec fn remaining(&self) -> int {
        grammar::remaining(self.context(), self.cursor())
    }

    /// The tokenizer reads the source of the parse and stands behind the
    /// current token, and the cursor is one of the parse.
    spec fn wf(&self) -> bool {
        &&& self.lex_token.source() == self.source
        &&& self.lex_token.position() == self.token.end
        &&& cursor_ok(self.context(), self.cursor())
    }

    /// The step from `pre` to `post` that returned `r` is the step `expected`.
    spec fn steps<T: View>(
        pre: Parser,
        post: Parser,
        r: Result<T, ParseError>,
        expected: Parsed<T::V>,
    ) -> bool {
        &&& post.wf()
        &&& post.context() == pre.context()
        &&& match expected {
            Ok((v, cur)) => r matches Ok(x) && x@ == v && post.cursor() == cur,
            Err(e) => r matches Err(x) && x@ == e,
        }
    }

    /// As `steps`, for a step that returns a list of nodes.
    spec fn steps_list<T: View>(
        pre: Parser,
        post: Parser,
        r: Result<Vec<T>, ParseError>,
        expected: Parsed<Seq<T::V>>,
    ) -> bool {
        &&& post.wf()
        &&& post.context() == pre.context()
        &&& match expected {
            Ok((v, cur)) => r matches Ok(x) && views(x@) == v && post.cursor() == cur,
            Err(e) => r matches Err(x) && x@ == e,
        }
    }

    /// At least one token was consumed between `pre` and `post`.
    spec fn moved(pre: Parser, post: Parser) -> bool {
        moved(pre.cursor(), post.cursor())
    }

    /// Between `pre` and `post` the cursor stayed where it was or at least one
    /// token was consumed.
    spec fn kept(pre: Parser, post: Parser) -> bool {
        kept(pre.cursor(), post.cursor())
    }

    /// Parses the text of `source` as a document. The result is the document
    /// that the grammar gives for the text, or the first failure.
    pub fn parse(source: Source, options: ParseOptions) -> (r: Result<Document, ParseError>)
        ensures
            outcome(r) == grammar::document(source@, options),
            r matches Ok(d) ==> document_ok(Context { source: source@, options }, d@),
            r matches Err(e) ==> e.offset matches Some(at) && at <= source@.body.len(),
    {
        proof {
            reveal(grammar::document);
            lemma_documents_are_well_formed(source@, options);
        }
        let mut lexer = Lexer::lex(source.clone());
        let token = lexer.next(None)?;
        let mut parser = Parser {
            lex_token: lexer,
            source: source,
            options: options,
            prev_end: 0,
            token: token,
        };
        proof {
            lemma_read_token(source@.body, 0);
        }
        parser.parse_document()
    }

    /// The location of a node that started at `start` and has just ended.
    fn loc(&self, start: usize) -> (l: Option<Location>)
        ensures
            view_of(l) == grammar::location(self.context(), start as int, self.cursor()),
    {
        if self.options.no_location {
            None
        } else if self.options.no_source {
            Some(Location { start: start, end: self.prev_end, source: None })
        } else {
            Some(Location { start: start, end: self.prev_end, source: Some(self.source.clone()) })
        }
    }

    /// Whether the current token is of the kind `kind`.
    fn peek(&self, kind: TokenKind) -> (r: bool)
        ensures
            r == (self.token@.kind == kind),
    {
        self.token.kind == kind
    }

    /// Whether the current token is the name `word`.
    fn peek_keyword(&self, word: &str) -> (r: bool)
        ensures
            r == grammar::is_keyword(self.token@, word@),
    {
        if self.token.kind == TokenKind::Name {
            match &self.token.value {
                Some(v) => text::same_text(v.as_str(), word),
                None => false,
            }
        } else {
            false
        }
    }

    /// Moves on to the next token.
    fn advance(&mut self) -> (r: Result<(), ParseError>)
        requires
            old(self).wf(),
        ensures
            final(self).wf(),
            final(self).context() == old(self).context(),
            match grammar::advance(old(self).context(), old(self).cursor()) {
                Ok(cur) => r is Ok && final(self).cursor() == cur,
                Err(e) => r matches Err(x) && x@ == e,
            },
            r is Ok && old(self).token.kind != TokenKind::EOF ==> Self::moved(
                *old(self),
                *final(self),
            ),
    {
        let prev_end = self.token.end;
        proof {
            lemma_read_token(self.source@.body, prev_end as int);
        }
        match self.lex_token.next(None) {
            Ok(token) => {
                self.prev_end = prev_end;
                self.token = token;
                Ok(())
            },
            Err(e) => Err(e),
        }
    }

    /// Consumes the current token if it is of the kind `kind`, and says
    /// whether it was.
    fn skip(&mut self, kind: TokenKind) -> (r: Result<bool, ParseError>)
        requires
            old(self).wf(),
        ensures
            Self::steps(
                *old(self),
                *final(self),
                r,
                grammar::skip(old(self).context(), old(self).cursor(), kind),
            ),
            r matches Ok(skipped) ==> kind != TokenKind::EOF ==> if skipped {
                Self::moved(*old(self), *final(self))
            } else {
                final(self).cursor() == old(self).cursor()
            },
    {
        if self.token.kind == kind {
            self.advance()?;
            Ok(true)
        } else {
            Ok(false)
        }
    }

    /// Consumes the current token, which must be the name `keyword`.
    fn expect_keyword(&mut self, keyword: &str) -> (r: Result<Token, ParseError>)
        requires
            old(self).wf(),
        ensures
            Self::steps(
                *old(self),
                *final(self),
                r,
                grammar::expect_keyword(old(self).context(), old(self).cursor(), keyword@),
            ),
            r is Ok ==> Self::moved(*old(self), *final(self)),
    {
        if self.peek_keyword(keyword) {
            let token = self.token.clone();
            self.advance()?;
            return Ok(token);
        }
        Err(missing_keyword(keyword, &self.token))
    }

    /// Consumes the current token, which must be of the kind `kind`.
    fn expect(&mut self, kind: TokenKind) -> (r: Result<Token, ParseError>)
        requires
            old(self).wf(),
        ensures
            Self::steps(
                *old(self),
                *final(self),
                r,
                grammar::expect(old(self).context(), old(self).cursor(), kind),
            ),
            r is Ok && kind != TokenKind::EOF ==> Self::moved(*old(self), *final(self)),
            r matches Ok(t) ==> t.kind == kind && t.start == old(self).token.start,
    {
        if self.token.kind == kind {
            let token = self.token.clone();
            self.advance()?;
            return Ok(token);
        }
        Err(unexpected(kind, &self.token))
    }

    /// `name := Name`
    fn parse_name(&mut self) -> (r: Result<Name, ParseError>)
        requires
            old(self).wf(),
        ensures
            Self::steps(
                *old(self),
                *final(self),
                r,
                grammar::name(old(self).context(), old(self).cursor()),
            ),
            r is Ok ==> Self::moved(*old(self), *final(self)),
    {
        let token = self.expect(TokenKind::Name)?;
        let loc = self.loc(token.start);
        let value = match token.value {
            Some(v) => v,
            None => String::new(),
        };
        Ok(Name { kind: Kinds::Name, value: value, loc: loc })
    }

    /// `fragmentName := Name`, but not `on`
    fn parse_fragment_name(&mut self) -> (r: Result<Name, ParseError>)
        requires
            old(self).wf(),
        ensures
            Self::steps(
                *old(self),
                *final(self),
                r,
                grammar::fragment_name(old(self).context(), old(self).cursor()),
            ),
            r is Ok ==> Self::moved(*old(self), *final(self)),
    {
        if self.peek_keyword("on") {
            return Err(
                text::failure_at("Unexpected 'on' in place of a fragment name", self.token.start),
            );
        }
        self.parse_name()
    }

    /// `namedType := Name`
    fn parse_named_type(&mut self) -> (r: Result<Type, ParseError>)
        requires
            old(self).wf(),
        ensures
            Self::steps(
                *old(self),
                *final(self),
                r,
                grammar::named_type(old(self).context(), old(self).cursor()),
            ),
            r is Ok ==> Self::moved(*old(self), *final(self)),
    {
        let start = self.token.start;
        let name = self.parse_name()?;
        let loc = self.loc(start);
        Ok(Type::Named { kind: Kinds::NamedType, name: name, loc: loc })
    }

    /// `type := ('[' type ']' | namedType) '!'?`
    fn parse_type(&mut self) -> (r: Result<Type, ParseError>)
        requires
            old(self).wf(),
        ensures
            Self::steps(
                *old(self),
                *final(self),
                r,
                grammar::type_reference(old(self).context(), old(self).cursor()),
            ),
            r is Ok ==> Self::moved(*old(self), *final(self)),
        decreases old(self).remaining(),
    {
        let start = self.token.start;
        let inner;
        if self.skip(TokenKind::BracketL)? {
            let item = self.parse_type()?;
            self.expect(TokenKind::BracketR)?;
            let loc = self.loc(start);
            inner = Type::List { kind: Kinds::ListType, t_type: Box::new(item), loc: loc };
        } else {
            inner = self.parse_named_type()?;
        }
        if self.skip(TokenKind::Bang)? {
            let loc = self.loc(start);
            let res = Type::NonNull { kind: Kinds::NonNullType, t_type: Box::new(inner), loc: loc };
            assert(res@ == (TypeView::NonNull {
                kind: Kinds::NonNullType,
                t_type: Box::new(inner@),
                loc: view_of(loc),
            }));
            return Ok(res);
        }
        Ok(inner)
    }

    /// `variable := '$' Name`
    fn parse_variable(&mut self) -> (r: Result<Value, ParseError>)
        requires
            old(self).wf(),
        ensures
            Self::steps(
                *old(self),
                *final(self),
                r,
                grammar::variable(old(self).context(), old(self).cursor()),
            ),
            r is Ok ==> Self::moved(*old(self), *final(self)),
    {
        let start = self.token.start;
        self.expect(TokenKind::Dollar)?;
        let name = self.parse_name()?;
        let loc = self.loc(start);
        Ok(Value::VariableValue { kind: Kinds::Variable, name: name, loc: loc })
    }

    /// Consumes the current token as a value of one token.
    fn parse_scalar(&mut self) -> (r: Result<Value, ParseError>)
        requires
            old(self).wf(),
            old(self).token.kind != TokenKind::EOF,
        ensures
            Self::steps(
                *old(self),
                *final(self),
                r,
                grammar::scalar(old(self).context(), old(self).cursor()),
            ),
            r is Ok ==> Self::moved(*old(self), *final(self)),
    {
        let token = self.token.clone();
        self.advance()?;
        let loc = self.loc(token.start);
        let kind = token.kind;
        let text = match token.value {
            Some(v) => v,
            None => String::new(),
        };
        match kind {
            TokenKind::Int => Ok(Value::IntValue { kind: Kinds::Int, value: text, loc: loc }),
            TokenKind::Float => Ok(Value::FloatValue { kind: Kinds::Float, value: text, loc: loc }),
            TokenKind::String => Ok(
                Value::StringValue { kind: Kinds::String, value: text, loc: loc },
            ),
            _ => {
                if text::same_text(text.as_str(), "true") {
                    Ok(Value::BooleanValue { kind: Kinds::Boolean, value: true, loc: loc })
                } else if text::same_text(text.as_str(), "false") {
                    Ok(Value::BooleanValue { kind: Kinds::Boolean, value: false, loc: loc })
                } else {
                    Ok(Value::EnumValue { kind: Kinds::Enum, value: text, loc: loc })
                }
            },
        }
    }

    /// `value := array | object | Int | Float | String | Name | variable`
    fn parse_value(&mut self, is_const: bool) -> (r: Result<Value, ParseError>)
        requires
            old(self).wf(),
        ensures
            Self::steps(
                *old(self),
                *final(self),
                r,
                grammar::value(old(self).context(), old(self).cursor(), is_const),
            ),
            r is Ok ==> Self::moved(*old(self), *final(self)),
        decreases old(self).remaining(), 1nat,
    {
        match self.token.kind {
            TokenKind::BracketL => self.parse_array(is_const),
            TokenKind::BraceL => self.parse_object(is_const),
            TokenKind::Int | TokenKind::Float | TokenKind::String => self.parse_scalar(),
            TokenKind::Name => {
                if text::same_text(value_of(&self.token), "null") {
                    Err(unexpected_token(&self.token))
                } else {
                    self.parse_scalar()
                }
            },
            TokenKind::Dollar => {
                if is_const {
                    Err(
                        text::failure_at(
                            "Unexpected variable in a constant value",
                            self.token.start,
                        ),
                    )
                } else {
                    self.parse_variable()
                }
            },
            _ => Err(unexpected_token(&self.token)),
        }
    }

    /// `array := '[' value* ']'`
    fn parse_array(&mut self, is_const: bool) -> (r: Result<Value, ParseError>)
        requires
            old(self).wf(),
        ensures
            Self::steps(
                *old(self),
                *final(self),
                r,
                grammar::array(old(self).context(), old(self).cursor(), is_const),
            ),
            r is Ok ==> Self::moved(*old(self), *final(self)),
        decreases old(self).remaining(), 0nat,
    {
        let start = self.token.start;
        self.expect(TokenKind::BracketL)?;
        let nodes: Vec<Value> = Vec::new();
        assert(views(nodes@) =~= Seq::<ValueView>::empty());
        let values = self.parse_values_until(is_const, nodes)?;
        let loc = self.loc(start);
        proof {
            lemma_array_view(Kinds::Array, values, loc);
        }
        Ok(Value::ArrayValue { kind: Kinds::Array, values: values, loc: loc })
    }

    /// The values `done`, then the values up to the closing bracket.
    fn parse_values_until(&mut self, is_const: bool, done: Vec<Value>) -> (r: Result<
        Vec<Value>,
        ParseError,
    >)
        requires
            old(self).wf(),
        ensures
            Self::steps_list(
                *old(self),
                *final(self),
                r,
                grammar::values_until(
                    old(self).context(),
                    old(self).cursor(),
                    is_const,
                    views(done@),
                ),
            ),
            r is Ok ==> Self::moved(*old(self), *final(self)),
        decreases old(self).remaining(), 2nat,
    {
        let mut nodes = done;
        loop
            invariant
                self.wf(),
                self.context() == old(self).context(),
                Self::kept(*old(self), *self),
                grammar::values_until(
                    old(self).context(),
                    old(self).cursor(),
                    is_const,
                    views(done@),
                ) == grammar::values_until(self.context(), self.cursor(), is_const, views(nodes@)),
            decreases self.remaining(),
        {
            if self.skip(TokenKind::BracketR)? {
                return Ok(nodes);
            }
            let v = self.parse_value(is_const)?;
            proof {
                lemma_views_push(nodes@, v);
            }
            nodes.push(v);
        }
    }

    /// Whether one of the fields `done` has the name `name`.
    fn has_field(done: &Vec<ObjectField>, name: &str) -> (r: bool)
        ensures
            r == grammar::has_field(views(done@), name@),
    {
        let mut i: usize = 0;
        while i < done.len()
            invariant
                i <= done.len(),
                forall|j: int| 0 <= j < i ==> (#[trigger] views(done@)[j]).name.value != name@,
            decreases done.len() - i,
        {
            if text::same_text(done[i].name.value.as_str(), name) {
                assert(views(done@)[i as int].name.value == name@);
                return true;
            }
            i += 1;
        }
        false
    }

    /// `object := '{' objectField* '}'`
    fn parse_object(&mut self, is_const: bool) -> (r: Result<Value, ParseError>)
        requires
            old(self).wf(),
        ensures
            Self::steps(
                *old(self),
                *final(self),
                r,
                grammar::object(old(self).context(), old(self).cursor(), is_const),
            ),
            r is Ok ==> Self::moved(*old(self), *final(self)),
        decreases old(self).remaining(), 0nat,
    {
        let start = self.token.start;
        self.expect(TokenKind::BraceL)?;
        let nodes: Vec<ObjectField> = Vec::new();
        assert(views(nodes@) =~= Seq::<ObjectFieldView>::empty());
        let fields = self.parse_fields_until(is_const, nodes)?;
        let loc = self.loc(start);
        proof {
            lemma_object_view(Kinds::Object, fields, loc);
        }
        Ok(Value::ObjectValue { kind: Kinds::Object, fields: fields, loc: loc })
    }

    /// The fields `done`, then the fields up to the closing brace.
    fn parse_fields_until(&mut self, is_const: bool, done: Vec<ObjectField>) -> (r: Result<
        Vec<ObjectField>,
        ParseError,
    >)
        requires
            old(self).wf(),
        ensures
            Self::steps_list(
                *old(self),
                *final(self),
                r,
                grammar::fields_until(
                    old(self).context(),
                    old(self).cursor(),
                    is_const,
                    views(done@),
                ),
            ),
            r is Ok ==> Self::moved(*old(self), *final(self)),
        decreases old(self).remaining(), 2nat,
    {
        let mut nodes = done;
        loop
            invariant
                self.wf(),
                self.context() == old(self).context(),
                Self::kept(*old(self), *self),
                grammar::fields_until(
                    old(self).context(),
                    old(self).cursor(),
                    is_const,
                    views(done@),
                ) == grammar::fields_until(self.context(), self.cursor(), is_const, views(nodes@)),
            decreases self.remaining(),
        {
            if self.skip(TokenKind::BraceR)? {
                return Ok(nodes);
            }
            let f = self.parse_object_field(is_const, &nodes)?;
            proof {
                lemma_views_push(nodes@, f);
            }
            nodes.push(f);
        }
    }

    /// `objectField := Name ':' value`, the name none of those of `done`
    fn parse_object_field(&mut self, is_const: bool, done: &Vec<ObjectField>) -> (r: Result<
        ObjectField,
        ParseError,
    >)
        requires
            old(self).wf(),
        ensures
            Self::steps(
                *old(self),
                *final(self),
                r,
                grammar::object_field(
                    old(self).context(),
                    old(self).cursor(),
                    is_const,
                    views(done@),
                ),
            ),
            r is Ok ==> Self::moved(*old(self), *final(self)),
        decreases old(self).remaining(), 1nat,
    {
        let start = self.token.start;
        let name = self.parse_name()?;
        if Self::has_field(done, name.value.as_str()) {
            return Err(duplicate_field(&name, start));
        }
        self.expect(TokenKind::Colon)?;
        let value = self.parse_value(is_const)?;
        let loc = self.loc(start);
        Ok(ObjectField { kind: Kinds::ObjectField, name: name, value: value, loc: loc })
    }

    /// `argument := Name ':' value`
    fn parse_argument(&mut self) -> (r: Result<Argument, ParseError>)
        requires
            old(self).wf(),
        ensures
            Self::steps(
                *old(self),
                *final(self),
                r,
                grammar::argument(old(self).context(), old(self).cursor()),
            ),
            r is Ok ==> Self::moved(*old(self), *final(self)),
    {
        proof {
            reveal(grammar::argument);
        }
        let start = self.token.start;
        let name = self.parse_name()?;
        self.expect(TokenKind::Colon)?;
        let value = self.parse_value(false)?;
        let loc = self.loc(start);
        Ok(Argument { kind: Kinds::Argument, name: name, value: value, loc: loc })
    }

    /// The arguments `done`, then the arguments up to the closing parenthesis.
    fn parse_arguments_until(&mut self, done: Vec<Argument>) -> (r: Result<
        Vec<Argument>,
        ParseError,
    >)
        requires
            old(self).wf(),
        ensures
            Self::steps_list(
                *old(self),
                *final(self),
                r,
                grammar::arguments_until(old(self).context(), old(self).cursor(), views(done@)),
            ),
            r is Ok ==> Self::moved(*old(self), *final(self)),
    {
        let mut nodes = done;
        loop
            invariant
                self.wf(),
                self.context() == old(self).context(),
                Self::kept(*old(self), *self),
                grammar::arguments_until(old(self).context(), old(self).cursor(), views(done@))
                    == grammar::arguments_until(self.context(), self.cursor(), views(nodes@)),
            decreases self.remaining(),
        {
            if self.skip(TokenKind::ParenR)? {
                return Ok(nodes);
            }
            let a = self.parse_argument()?;
            proof {
                lemma_views_push(nodes@, a);
            }
            nodes.push(a);
        }
    }

    /// `arguments := ('(' argument+ ')')?`
    fn parse_arguments(&mut self) -> (r: Result<Vec<Argument>, ParseError>)
        requires
            old(self).wf(),
        ensures
            Self::steps_list(
                *old(self),
                *final(self),
                r,
                grammar::arguments(old(self).context(), old(self).cursor()),
            ),
            r is Ok ==> Self::kept(*old(self), *final(self)),
    {
        proof {
            reveal(grammar::arguments);
        }
        if self.peek(TokenKind::ParenL) {
            self.expect(TokenKind::ParenL)?;
            let first = self.parse_argument()?;
            let mut nodes: Vec<Argument> = Vec::new();
            nodes.push(first);
            assert(views(nodes@) =~= seq![first@]);
            self.parse_arguments_until(nodes)
        } else {
            let nodes: Vec<Argument> = Vec::new();
            assert(views(nodes@) =~= Seq::<ArgumentView>::empty());
            Ok(nodes)
        }
    }

    /// `directive := '@' Name arguments`
    fn parse_directive(&mut self) -> (r: Result<Directive, ParseError>)
        requires
            old(self).wf(),
        ensures
            Self::steps(
                *old(self),
                *final(self),
                r,
                grammar::directive(old(self).context(), old(self).cursor()),
            ),
            r is Ok ==> Self::moved(*old(self), *final(self)),
    {
        proof {
            reveal(grammar::directive);
        }
        let start = self.token.start;
        self.expect(TokenKind::At)?;
        let name = self.parse_name()?;
        let arguments = self.parse_arguments()?;
        let loc = self.loc(start);
        Ok(Directive { kind: Kinds::Directive, name: name, arguments: Some(arguments), loc: loc })
    }

    /// `directives := directive*`
    fn parse_directives(&mut self) -> (r: Result<Vec<Directive>, ParseError>)
        requires
            old(self).wf(),
        ensures
            Self::steps_list(
                *old(self),
                *final(self),
                r,
                grammar::directives(old(self).context(), old(self).cursor()),
            ),
            r is Ok ==> Self::kept(*old(self), *final(self)),
    {
        let mut directives: Vec<Directive> = Vec::new();
        assert(views(directives@) =~= Seq::<DirectiveView>::empty());
        while self.peek(TokenKind::At)
            invariant
                self.wf(),
                self.context() == old(self).context(),
                Self::kept(*old(self), *self),
                grammar::directives(old(self).context(), old(self).cursor())
                    == grammar::directives_from(
                    self.context(),
                    self.cursor(),
                    views(directives@),
                ),
            decreases self.remaining(),
        {
            let d = self.parse_directive()?;
            proof {
                lemma_views_push(directives@, d);
            }
            directives.push(d);
        }
        Ok(directives)
    }

    /// `variableDefinition := variable ':' type ('=' value)?`
    fn parse_variable_definition(&mut self) -> (r: Result<VariableDefinition, ParseError>)
        requires
            old(self).wf(),
        ensures
            Self::steps(
                *old(self),
                *final(self),
                r,
                grammar::variable_definition(old(self).context(), old(self).cursor()),
            ),
            r is Ok ==> Self::moved(*old(self), *final(self)),
    {
        proof {
            reveal(grammar::variable_definition);
        }
        let start = self.token.start;
        let variable = self.parse_variable()?;
        self.expect(TokenKind::Colon)?;
        let var_type = self.parse_type()?;
        let default_value = if self.skip(TokenKind::Equals)? {
            Some(self.parse_value(true)?)
        } else {
            None
        };
        let loc = self.loc(start);
        Ok(
            VariableDefinition {
                kind: Kinds::VariableDefinition,
                variable: variable,
                var_type: var_type,
                default_value: default_value,
                loc: loc,
            },
        )
    }

    /// The definitions `done`, then the variable definitions up to the closing
    /// parenthesis.
    fn parse_variable_definitions_until(&mut self, done: Vec<VariableDefinition>) -> (r: Result<
        Vec<VariableDefinition>,
        ParseError,
    >)
        requires
            old(self).wf(),
        ensures
            Self::steps_list(
                *old(self),
                *final(self),
                r,
                grammar::variable_definitions_until(
                    old(self).context(),
                    old(self).cursor(),
                    views(done@),
                ),
            ),
            r is Ok ==> Self::moved(*old(self), *final(self)),
    {
        let mut nodes = done;
        loop
            invariant
                self.wf(),
                self.context() == old(self).context(),
                Self::kept(*old(self), *self),
                grammar::variable_definitions_until(
                    old(self).context(),
                    old(self).cursor(),
                    views(done@),
                ) == grammar::variable_definitions_until(
                    self.context(),
                    self.cursor(),
                    views(nodes@),
                ),
            decreases self.remaining(),
        {
            if self.skip(TokenKind::ParenR)? {
                return Ok(nodes);
            }
            let d = self.parse_variable_definition()?;
            proof {
                lemma_views_push(nodes@, d);
            }
            nodes.push(d);
        }
    }

    /// `variableDefinitions := ('(' variableDefinition+ ')')?`
    fn parse_variable_definitions(&mut self) -> (r: Result<Vec<VariableDefinition>, ParseError>)
        requires
            old(self).wf(),
        ensures
            Self::steps_list(
                *old(self),
                *final(self),
                r,
                grammar::variable_definitions(old(self).context(), old(self).cursor()),
            ),
            r is Ok ==> Self::kept(*old(self), *final(self)),
    {
        proof {
            reveal(grammar::variable_definitions);
        }
        if self.peek(TokenKind::ParenL) {
            self.expect(TokenKind::ParenL)?;
            let first = self.parse_variable_definition()?;
            let mut nodes: Vec<VariableDefinition> = Vec::new();
            nodes.push(first);
            assert(views(nodes@) =~= seq![first@]);
            self.parse_variable_definitions_until(nodes)
        } else {
            let nodes: Vec<VariableDefinition> = Vec::new();
            assert(views(nodes@) =~= Seq::<VariableDefinitionView>::empty());
            Ok(nodes)
        }
    }

    /// `selectionSet := '{' selection+ '}'`
    fn parse_selection_set(&mut self) -> (r: Result<SelectionSet, ParseError>)
        requires
            old(self).wf(),
        ensures
            Self::steps(
                *old(self),
                *final(self),
                r,
                grammar::selection_set(old(self).context(), old(self).cursor()),
            ),
            r is Ok ==> Self::moved(*old(self), *final(self)),
        decreases old(self).remaining(), 0nat,
    {
        let start = self.token.start;
        self.expect(TokenKind::BraceL)?;
        let first = self.parse_selection()?;
        let mut nodes: Vec<Selection> = Vec::new();
        nodes.push(first);
        assert(views(nodes@) =~= seq![first@]);
        let selections = self.parse_selections_until(nodes)?;
        let loc = self.loc(start);
        let set = SelectionSet { kind: Kinds::SelectionSet, selections: selections, loc: loc };
        proof {
            lemma_selection_set_view(set);
        }
        Ok(set)
    }

    /// The selections `done`, then the selections up to the closing brace.
    fn parse_selections_until(&mut self, done: Vec<Selection>) -> (r: Result<
        Vec<Selection>,
        ParseError,
    >)
        requires
            old(self).wf(),
        ensures
            Self::steps_list(
                *old(self),
                *final(self),
                r,
                grammar::selections_until(old(self).context(), old(self).cursor(), views(done@)),
            ),
            r is Ok ==> Self::moved(*old(self), *final(self)),
        decreases old(self).remaining(), 3nat,
    {
        let mut nodes = done;
        loop
            invariant
                self.wf(),
                self.context() == old(self).context(),
                Self::kept(*old(self), *self),
                grammar::selections_until(old(self).context(), old(self).cursor(), views(done@))
                    == grammar::selections_until(self.context(), self.cursor(), views(nodes@)),
            decreases self.remaining(),
        {
            if self.skip(TokenKind::BraceR)? {
                return Ok(nodes);
            }
            let s = self.parse_selection()?;
            proof {
                lemma_views_push(nodes@, s);
            }
            nodes.push(s);
        }
    }

    /// `selection := fragment | field`
    fn parse_selection(&mut self) -> (r: Result<Selection, ParseError>)
        requires
            old(self).wf(),
        ensures
            Self::steps(
                *old(self),
                *final(self),
                r,
                grammar::selection(old(self).context(), old(self).cursor()),
            ),
            r is Ok ==> Self::moved(*old(self), *final(self)),
        decreases old(self).remaining(), 2nat,
    {
        if self.peek(TokenKind::Spread) {
            self.parse_fragment()
        } else {
            self.parse_field()
        }
    }

    /// `fragment := '...' ('on' namedType directives selectionSet |
    /// fragmentName directives)`
    fn parse_fragment(&mut self) -> (r: Result<Selection, ParseError>)
        requires
            old(self).wf(),
        ensures
            Self::steps(
                *old(self),
                *final(self),
                r,
                grammar::fragment(old(self).context(), old(self).cursor()),
            ),
            r is Ok ==> Self::moved(*old(self), *final(self)),
        decreases old(self).remaining(), 1nat,
    {
        let start = self.token.start;
        self.expect(TokenKind::Spread)?;
        if self.peek_keyword("on") {
            self.advance()?;
            let type_condition = self.parse_named_type()?;
            let directives = self.parse_directives()?;
            let selection_set = self.parse_selection_set()?;
            let loc = self.loc(start);
            Ok(
                Selection::InlineFragment {
                    kind: Kinds::InlineFragment,
                    type_condition: type_condition,
                    directives: Some(directives),
                    selection_set: selection_set,
                    loc: loc,
                },
            )
        } else {
            let name = self.parse_fragment_name()?;
            let directives = self.parse_directives()?;
            let loc = self.loc(start);
            Ok(
                Selection::FragmentSpread {
                    kind: Kinds::FragmentSpread,
                    name: name,
                    directives: Some(directives),
                    loc: loc,
                },
            )
        }
    }

    /// `field := (Name ':')? Name arguments directives selectionSet?`
    fn parse_field(&mut self) -> (r: Result<Selection, ParseError>)
        requires
            old(self).wf(),
        ensures
            Self::steps(
                *old(self),
                *final(self),
                r,
                grammar::field(old(self).context(), old(self).cursor()),
            ),
            r is Ok ==> Self::moved(*old(self), *final(self)),
        decreases old(self).remaining(), 1nat,
    {
        let start = self.token.start;
        let name_or_alias = self.parse_name()?;
        let alias;
        let name;
        if self.skip(TokenKind::Colon)? {
            alias = Some(name_or_alias);
            name = self.parse_name()?;
        } else {
            alias = None;
            name = name_or_alias;
        }
        let arguments = self.parse_arguments()?;
        let directives = self.parse_directives()?;
        let selection_set = if self.peek(TokenKind::BraceL) {
            Some(self.parse_selection_set()?)
        } else {
            None
        };
        let loc = self.loc(start);
        Ok(
            Selection::Field {
                kind: Kinds::Field,
                alias: alias,
                name: name,
                arguments: arguments,
                directives: directives,
                selection_set: selection_set,
                loc: loc,
            },
        )
    }

    /// `operationDefinition := selectionSet | Name Name? variableDefinitions
    /// directives selectionSet`
    fn parse_operation_definition(&mut self) -> (r: Result<Definition, ParseError>)
        requires
            old(self).wf(),
        ensures
            Self::steps(
                *old(self),
                *final(self),
                r,
                grammar::operation_definition(old(self).context(), old(self).cursor()),
            ),
            r is Ok ==> Self::moved(*old(self), *final(self)),
    {
        proof {
            reveal(grammar::operation_definition);
        }
        let start = self.token.start;
        if self.peek(TokenKind::BraceL) {
            let selection_set = self.parse_selection_set()?;
            let loc = self.loc(start);
            let directives: Vec<Directive> = Vec::new();
            assert(views(directives@) =~= Seq::<DirectiveView>::empty());
            Ok(
                Definition::Operation {
                    kind: Kinds::OperationDefinition,
                    operation: "query".to_owned(),
                    name: None,
                    variable_definitions: None,
                    directives: directives,
                    selection_set: selection_set,
                    loc: loc,
                },
            )
        } else {
            let token = self.expect(TokenKind::Name)?;
            let operation = match token.value {
                Some(v) => v,
                None => String::new(),
            };
            let name = if self.peek(TokenKind::Name) {
                Some(self.parse_name()?)
            } else {
                None
            };
            let variable_definitions = self.parse_variable_definitions()?;
            let directives = self.parse_directives()?;
            let selection_set = self.parse_selection_set()?;
            let loc = self.loc(start);
            Ok(
                Definition::Operation {
                    kind: Kinds::OperationDefinition,
                    operation: operation,
                    name: name,
                    variable_definitions: Some(variable_definitions),
                    directives: directives,
                    selection_set: selection_set,
                    loc: loc,
                },
            )
        }
    }

    /// `fragmentDefinition := 'fragment' fragmentName 'on' namedType
    /// directives selectionSet`
    fn parse_fragment_definition(&mut self) -> (r: Result<Definition, ParseError>)
        requires
            old(self).wf(),
        ensures
            Self::steps(
                *old(self),
                *final(self),
                r,
                grammar::fragment_definition(old(self).context(), old(self).cursor()),
            ),
            r is Ok ==> Self::moved(*old(self), *final(self)),
    {
        proof {
            reveal(grammar::fragment_definition);
        }
        let start = self.token.start;
        self.expect_keyword("fragment")?;
        let name = self.parse_fragment_name()?;
        self.expect_keyword("on")?;
        let type_condition = self.parse_named_type()?;
        let directives = self.parse_directives()?;
        let selection_set = self.parse_selection_set()?;
        let loc = self.loc(start);
        Ok(
            Definition::Fragment {
                kind: Kinds::FragmentDefinition,
                name: name,
                type_condition: type_condition,
                directives: Some(directives),
                selection_set: selection_set,
                loc: loc,
            },
        )
    }

    /// `definition := operationDefinition | fragmentDefinition`
    fn parse_definition(&mut self) -> (r: Result<Definition, ParseError>)
        requires
            old(self).wf(),
        ensures
            Self::steps(
                *old(self),
                *final(self),
                r,
                grammar::definition(old(self).context(), old(self).cursor()),
            ),
            r is Ok ==> Self::moved(*old(self), *final(self)),
    {
        proof {
            reveal(grammar::definition);
        }
        if self.peek(TokenKind::BraceL) {
            self.parse_operation_definition()
        } else if self.peek(TokenKind::Name) {
            match self.token.name_kind_from_value() {
                Some(NameKind::Query) | Some(NameKind::Mutation) => {
                    self.parse_operation_definition()
                },
                Some(NameKind::Fragment) => self.parse_fragment_definition(),
                None => Err(
                    text::failure_at(
                        "Could not parse document, missing NameKind",
                        self.token.start,
                    ),
                ),
            }
        } else {
            Err(text::failure_at("Expected a BraceL or a Name", self.token.start))
        }
    }

    /// `document := definition+ EOF`
    fn parse_document(&mut self) -> (r: Result<Document, ParseError>)
        requires
            old(self).wf(),
        ensures
            outcome(r) == grammar::document_from(old(self).context(), old(self).cursor()),
    {
        proof {
            reveal(grammar::document_from);
        }
        let start = self.token.start;
        let mut definitions: Vec<Definition> = Vec::new();
        assert(views(definitions@) =~= Seq::<DefinitionView>::empty());
        loop
            invariant
                self.wf(),
                self.context() == old(self).context(),
                start == old(self).token.start,
                grammar::definitions(
                    old(self).context(),
                    old(self).cursor(),
                    Seq::<DefinitionView>::empty(),
                ) == grammar::definitions(self.context(), self.cursor(), views(definitions@)),
            decreases self.remaining(),
        {
            proof {
                reveal(grammar::document_from);
            }
            let definition = self.parse_definition()?;
            proof {
                lemma_views_push(definitions@, definition);
            }
            definitions.push(definition);
            if self.skip(TokenKind::EOF)? {
                let loc = self.loc(start);
                return Ok(Document { kind: Kinds::Document, loc: loc, definitions: definitions });
            }
        }
    }
}

} // verus!
