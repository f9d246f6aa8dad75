use graphql::language::ast::{
    Argument, Definition, Directive, Document, Location, Name, ObjectField, Selection,
    SelectionSet, Type, Value, VariableDefinition,
};
use graphql::language::errors::ParseError;
use graphql::language::kinds::Kinds;
use graphql::language::lexer::Source;
use graphql::language::parser::{ParseOptions, Parser};

const KITCHEN_SINK: &str = "
query queryName($foo: ComplexType, $site: Site = MOBILE) {
  whoever123is: node(id: [123, 456]) {
    id ,
    ... on User @defer {
      field2 {
        id ,
        alias: field1(first:10, after:$foo,) @include(if: $foo) {
          id,
          ...frag
        }
      }
    }
  }
}

mutation likeStory {
  like(story: 123) @defer {
    story {
      id
    }
  }
}

fragment frag on Friend {
  foo(size: $size, bar: $b, obj: {key: \"value\", list: [1.5, -2e3, [], {}]})
}

{
  unnamed(truthy: true, falsey: false),
  query
}
";

fn parse(text: &str) -> Result<Document, ParseError> {
    Parser::parse(Source::new(text), ParseOptions::no_source())
}

fn parse_bare(text: &str) -> Result<Document, ParseError> {
    Parser::parse(Source::new(text), ParseOptions::no_location())
}

fn failure(text: &str) -> ParseError {
    parse(text).err().unwrap()
}

fn at(start: usize, end: usize) -> Option<Location> {
    Some(Location { start: start, end: end, source: None })
}

fn name(value: &str, start: usize, end: usize) -> Name {
    Name { kind: Kinds::Name, value: value.to_string(), loc: at(start, end) }
}

fn bare_name(value: &str) -> Name {
    Name { kind: Kinds::Name, value: value.to_string(), loc: None }
}

fn print_name(out: &mut String, n: &Name) {
    out.push_str(&n.value);
}

fn print_type(out: &mut String, t: &Type) {
    match t {
        Type::Named { name, .. } => print_name(out, name),
        Type::List { t_type, .. } => {
            out.push('[');
            print_type(out, t_type);
            out.push(']');
        }
        Type::NonNull { t_type, .. } => {
            print_type(out, t_type);
            out.push('!');
        }
    }
}

fn print_string(out: &mut String, text: &str) {
    out.push('"');
    for c in text.chars() {
        match c {
            '"' => out.push_str("\\\""),
            '\\' => out.push_str("\\\\"),
            '\n' => out.push_str("\\n"),
            '\r' => out.push_str("\\r"),
            _ => out.push(c),
        }
    }
    out.push('"');
}

fn print_value(out: &mut String, v: &Value) {
    match v {
        Value::IntValue { value, .. } => out.push_str(value),
        Value::FloatValue { value, .. } => out.push_str(value),
        Value::StringValue { value, .. } => print_string(out, value),
        Value::BooleanValue { value, .. } => out.push_str(if *value { "true" } else { "false" }),
        Value::EnumValue { value, .. } => out.push_str(value),
        Value::ArrayValue { values, .. } => {
            out.push('[');
            for item in values {
                print_value(out, item);
                out.push(' ');
            }
            out.push(']');
        }
        Value::ObjectValue { fields, .. } => {
            out.push('{');
            for f in fields {
                print_name(out, &f.name);
                out.push(':');
                print_value(out, &f.value);
                out.push(' ');
            }
            out.push('}');
        }
        Value::VariableValue { name, .. } => {
            out.push('$');
            print_name(out, name);
        }
    }
}

fn print_arguments(out: &mut String, arguments: &Vec<Argument>) {
    if !arguments.is_empty() {
        out.push('(');
        for a in arguments {
            print_name(out, &a.name);
            out.push(':');
            print_value(out, &a.value);
            out.push(' ');
        }
        out.push(')');
    }
}

fn print_directives(out: &mut String, directives: &Vec<Directive>) {
    for d in directives {
        out.push('@');
        print_name(out, &d.name);
        if let Some(arguments) = &d.arguments {
            print_arguments(out, arguments);
        }
        out.push(' ');
    }
}

fn print_variable_definitions(out: &mut String, definitions: &Vec<VariableDefinition>) {
    if !definitions.is_empty() {
        out.push('(');
        for d in definitions {
            print_value(out, &d.variable);
            out.push(':');
            print_type(out, &d.var_type);
            if let Some(v) = &d.default_value {
                out.push('=');
                print_value(out, v);
            }
            out.push(' ');
        }
        out.push(')');
    }
}

fn print_selection_set(out: &mut String, set: &SelectionSet) {
    out.push('{');
    for s in &set.selections {
        match s {
            Selection::Field { alias, name, arguments, directives, selection_set, .. } => {
                if let Some(a) = alias {
                    print_name(out, a);
                    out.push(':');
                }
                print_name(out, name);
                print_arguments(out, arguments);
                out.push(' ');
                print_directives(out, directives);
                if let Some(inner) = selection_set {
                    print_selection_set(out, inner);
                }
            }
            Selection::FragmentSpread { name, directives, .. } => {
                out.push_str("...");
                print_name(out, name);
                out.push(' ');
                if let Some(ds) = directives {
                    print_directives(out, ds);
                }
            }
            Selection::InlineFragment { type_condition, directives, selection_set, .. } => {
                out.push_str("... on ");
                print_type(out, type_condition);
                out.push(' ');
                if let Some(ds) = directives {
                    print_directives(out, ds);
                }
                print_selection_set(out, selection_set);
            }
        }
        out.push(' ');
    }
    out.push('}');
}

fn print_document(d: &Document) -> String {
    let mut out = String::new();
    for definition in &d.definitions {
        match definition {
            Definition::Operation {
                operation,
                name,
                variable_definitions,
                directives,
                selection_set,
                ..
            } => {
                if let Some(vars) = variable_definitions {
                    out.push_str(operation);
                    out.push(' ');
                    if let Some(n) = name {
                        print_name(&mut out, n);
                    }
                    print_variable_definitions(&mut out, vars);
                    out.push(' ');
                }
                print_directives(&mut out, directives);
                print_selection_set(&mut out, selection_set);
            }
            Definition::Fragment { name, type_condition, directives, selection_set, .. } => {
                out.push_str("fragment ");
                print_name(&mut out, name);
                out.push_str(" on ");
                print_type(&mut out, type_condition);
                out.push(' ');
                if let Some(ds) = directives {
                    print_directives(&mut out, ds);
                }
                print_selection_set(&mut out, selection_set);
            }
        }
        out.push('\n');
    }
    out
}

fn check_span(loc: &Option<Location>, outer: (usize, usize)) -> (usize, usize) {
    let l = loc.as_ref().unwrap();
    assert!(l.start <= l.end);
    assert!(outer.0 <= l.start && l.end <= outer.1);
    assert!(l.source.is_none());
    (l.start, l.end)
}

fn value_end(v: &Value) -> usize {
    let loc = match v {
        Value::IntValue { loc, .. } => loc,
        Value::FloatValue { loc, .. } => loc,
        Value::StringValue { loc, .. } => loc,
        Value::BooleanValue { loc, .. } => loc,
        Value::EnumValue { loc, .. } => loc,
        Value::ArrayValue { loc, .. } => loc,
        Value::ObjectValue { loc, .. } => loc,
        Value::VariableValue { loc, .. } => loc,
    };
    loc.as_ref().unwrap().end
}

fn selection_end(s: &Selection) -> usize {
    let loc = match s {
        Selection::Field { loc, .. } => loc,
        Selection::FragmentSpread { loc, .. } => loc,
        Selection::InlineFragment { loc, .. } => loc,
    };
    loc.as_ref().unwrap().end
}

fn definition_end(d: &Definition) -> usize {
    let loc = match d {
        Definition::Operation { loc, .. } => loc,
        Definition::Fragment { loc, .. } => loc,
    };
    loc.as_ref().unwrap().end
}

fn check_name(n: &Name, outer: (usize, usize)) {
    assert_eq!(n.kind, Kinds::Name);
    assert!(!n.value.is_empty());
    check_span(&n.loc, outer);
}

fn check_type(t: &Type, outer: (usize, usize)) {
    match t {
        Type::Named { kind, name, loc } => {
            assert_eq!(*kind, Kinds::NamedType);
            let span = check_span(loc, outer);
            check_name(name, span);
        }
        Type::List { kind, t_type, loc } => {
            assert_eq!(*kind, Kinds::ListType);
            let span = check_span(loc, outer);
            check_type(t_type, span);
        }
        Type::NonNull { kind, t_type, loc } => {
            assert_eq!(*kind, Kinds::NonNullType);
            let span = check_span(loc, outer);
            assert!(!matches!(**t_type, Type::NonNull { .. }));
            check_type(t_type, span);
        }
    }
}

fn check_value(v: &Value, outer: (usize, usize)) {
    match v {
        Value::IntValue { kind, loc, .. } => {
            assert_eq!(*kind, Kinds::Int);
            check_span(loc, outer);
        }
        Value::FloatValue { kind, loc, .. } => {
            assert_eq!(*kind, Kinds::Float);
            check_span(loc, outer);
        }
        Value::StringValue { kind, loc, .. } => {
            assert_eq!(*kind, Kinds::String);
            check_span(loc, outer);
        }
        Value::BooleanValue { kind, loc, .. } => {
            assert_eq!(*kind, Kinds::Boolean);
            check_span(loc, outer);
        }
        Value::EnumValue { kind, loc, value } => {
            assert_eq!(*kind, Kinds::Enum);
            assert!(value != "true" && value != "false" && value != "null");
            check_span(loc, outer);
        }
        Value::ArrayValue { kind, values, loc } => {
            assert_eq!(*kind, Kinds::Array);
            let span = check_span(loc, outer);
            let mut from = span.0;
            for item in values {
                check_value(item, (from, span.1));
                from = value_end(item);
            }
        }
        Value::ObjectValue { kind, fields, loc } => {
            assert_eq!(*kind, Kinds::Object);
            let span = check_span(loc, outer);
            let mut i = 0;
            let mut from = span.0;
            while i < fields.len() {
                let f: &ObjectField = &fields[i];
                assert_eq!(f.kind, Kinds::ObjectField);
                let inner = check_span(&f.loc, (from, span.1));
                from = inner.1;
                check_name(&f.name, inner);
                check_value(&f.value, inner);
                let mut j = 0;
                while j < i {
                    assert_ne!(fields[j].name.value, f.name.value);
                    j += 1;
                }
                i += 1;
            }
        }
        Value::VariableValue { kind, name, loc } => {
            assert_eq!(*kind, Kinds::Variable);
            let span = check_span(loc, outer);
            check_name(name, span);
        }
    }
}

fn check_arguments(arguments: &Vec<Argument>, outer: (usize, usize)) {
    let mut from = outer.0;
    for a in arguments {
        assert_eq!(a.kind, Kinds::Argument);
        let span = check_span(&a.loc, (from, outer.1));
        from = span.1;
        check_name(&a.name, span);
        check_value(&a.value, span);
    }
}

fn check_directives(directives: &Vec<Directive>, outer: (usize, usize)) {
    let mut from = outer.0;
    for d in directives {
        assert_eq!(d.kind, Kinds::Directive);
        let span = check_span(&d.loc, (from, outer.1));
        from = span.1;
        check_name(&d.name, span);
        check_arguments(d.arguments.as_ref().unwrap(), span);
    }
}

fn check_selection_set(set: &SelectionSet, outer: (usize, usize)) {
    assert_eq!(set.kind, Kinds::SelectionSet);
    assert!(set.selections.len() >= 1);
    let whole = check_span(&set.loc, outer);
    let mut from = whole.0;
    for s in &set.selections {
        let span = (from, whole.1);
        from = selection_end(s);
        match s {
            Selection::Field { kind, alias, name, arguments, directives, selection_set, loc } => {
                assert_eq!(*kind, Kinds::Field);
                let inner = check_span(loc, span);
                if let Some(a) = alias {
                    check_name(a, inner);
                }
                check_name(name, inner);
                check_arguments(arguments, inner);
                check_directives(directives, inner);
                if let Some(nested) = selection_set {
                    check_selection_set(nested, inner);
                }
            }
            Selection::FragmentSpread { kind, name, directives, loc } => {
                assert_eq!(*kind, Kinds::FragmentSpread);
                let inner = check_span(loc, span);
                check_name(name, inner);
                assert_ne!(name.value, "on");
                check_directives(directives.as_ref().unwrap(), inner);
            }
            Selection::InlineFragment { kind, type_condition, directives, selection_set, loc } => {
                assert_eq!(*kind, Kinds::InlineFragment);
                let inner = check_span(loc, span);
                check_type(type_condition, inner);
                check_directives(directives.as_ref().unwrap(), inner);
                check_selection_set(selection_set, inner);
            }
        }
    }
}

fn check_document(d: &Document, length: usize) {
    assert_eq!(d.kind, Kinds::Document);
    assert!(d.definitions.len() >= 1);
    let whole = check_span(&d.loc, (0, length));
    assert_eq!(whole.1, length);
    let mut from = whole.0;
    for definition in &d.definitions {
        let span = (from, whole.1);
        from = definition_end(definition);
        match definition {
            Definition::Operation {
                kind,
                operation,
                name,
                variable_definitions,
                directives,
                selection_set,
                loc,
            } => {
                assert_eq!(*kind, Kinds::OperationDefinition);
                assert!(operation == "query" || operation == "mutation");
                let inner = check_span(loc, span);
                if let Some(n) = name {
                    check_name(n, inner);
                }
                match variable_definitions {
                    Some(vars) => {
                        for v in vars {
                            assert_eq!(v.kind, Kinds::VariableDefinition);
                            let s = check_span(&v.loc, inner);
                            assert!(matches!(v.variable, Value::VariableValue { .. }));
                            check_value(&v.variable, s);
                            check_type(&v.var_type, s);
                            if let Some(value) = &v.default_value {
                                check_value(value, s);
                            }
                        }
                    }
                    None => {
                        assert_eq!(operation, "query");
                        assert!(name.is_none());
                        assert!(directives.is_empty());
                    }
                }
                check_directives(directives, inner);
                check_selection_set(selection_set, inner);
            }
            Definition::Fragment { kind, name, type_condition, directives, selection_set, loc } => {
                assert_eq!(*kind, Kinds::FragmentDefinition);
                let inner = check_span(loc, span);
                check_name(name, inner);
                assert_ne!(name.value, "on");
                assert!(matches!(type_condition, Type::Named { .. }));
                check_type(type_condition, inner);
                check_directives(directives.as_ref().unwrap(), inner);
                check_selection_set(selection_set, inner);
            }
        }
    }
}

#[test]
fn parses_a_full_document() {
    let document = Parser::parse(Source::new(KITCHEN_SINK), ParseOptions::new()).unwrap();
    assert_eq!(document.definitions.len(), 4);
    match &document.definitions[0] {
        Definition::Operation { operation, name, variable_definitions, selection_set, .. } => {
            assert_eq!(operation, "query");
            assert_eq!(name.as_ref().unwrap().value, "queryName");
            let vars = variable_definitions.as_ref().unwrap();
            assert_eq!(vars.len(), 2);
            assert!(vars[0].default_value.is_none());
            assert!(matches!(
                &vars[1].default_value,
                Some(Value::EnumValue { value, .. }) if value == "MOBILE"
            ));
            assert_eq!(selection_set.selections.len(), 1);
            match &selection_set.selections[0] {
                Selection::Field { alias, name, arguments, selection_set, .. } => {
                    assert_eq!(alias.as_ref().unwrap().value, "whoever123is");
                    assert_eq!(name.value, "node");
                    assert_eq!(arguments.len(), 1);
                    assert!(matches!(
                        &arguments[0].value,
                        Value::ArrayValue { values, .. } if values.len() == 2
                    ));
                    let nested = selection_set.as_ref().unwrap();
                    assert_eq!(nested.selections.len(), 2);
                    assert!(matches!(
                        &nested.selections[1],
                        Selection::InlineFragment { directives: Some(ds), .. } if ds.len() == 1
                    ));
                }
                _ => panic!("a field was expected"),
            }
        }
        _ => panic!("an operation was expected"),
    }
    assert!(matches!(
        &document.definitions[1],
        Definition::Operation { operation, name: Some(n), variable_definitions: Some(vars), .. }
            if operation == "mutation" && n.value == "likeStory" && vars.is_empty()
    ));
    assert!(matches!(
        &document.definitions[2],
        Definition::Fragment { name, type_condition: Type::Named { name: on, .. }, .. }
            if name.value == "frag" && on.value == "Friend"
    ));
    assert!(matches!(
        &document.definitions[3],
        Definition::Operation { operation, name: None, variable_definitions: None, .. }
            if operation == "query"
    ));
}

#[test]
fn a_printed_document_parses_to_the_same_tree() {
    let first = parse_bare(KITCHEN_SINK).unwrap();
    let printed = print_document(&first);
    let second = parse_bare(&printed).unwrap();
    assert_eq!(first, second);
    let third = parse_bare(&print_document(&second)).unwrap();
    assert_eq!(second, third);
}

#[test]
fn parsed_documents_are_well_formed() {
    let document = parse(KITCHEN_SINK).unwrap();
    check_document(&document, KITCHEN_SINK.len());
    let text = "query ($a: [[Int!]]!) { f }";
    check_document(&parse(text).unwrap(), text.len());
    let text = "{ a(x: {b: [{c: $d}], e: \"s\"}) @x(y: z) }   ";
    check_document(&parse(text).unwrap(), text.len());
}

#[test]
fn locations_can_be_left_out() {
    let goal = Document {
        kind: Kinds::Document,
        loc: None,
        definitions: vec![Definition::Operation {
            kind: Kinds::OperationDefinition,
            loc: None,
            operation: "query".to_string(),
            name: None,
            variable_definitions: None,
            directives: vec![],
            selection_set: SelectionSet {
                kind: Kinds::SelectionSet,
                loc: None,
                selections: vec![Selection::Field {
                    kind: Kinds::Field,
                    loc: None,
                    alias: Some(bare_name("a")),
                    name: bare_name("b"),
                    arguments: vec![],
                    directives: vec![],
                    selection_set: None,
                }],
            },
        }],
    };
    assert_eq!(parse_bare("{ a: b }").unwrap(), goal);
    let mut options = ParseOptions::no_location();
    options.set_source(true);
    assert_eq!(Parser::parse(Source::new("{a:b}"), options).unwrap(), goal);
}

#[test]
fn locations_carry_the_source_by_default() {
    let source = Source::new("{ a }");
    let document = Parser::parse(source.clone(), ParseOptions::new()).unwrap();
    assert_eq!(
        document.loc,
        Some(Location { start: 0, end: 5, source: Some(source.clone()) })
    );
    let mut options = ParseOptions::new();
    options.set_source(true);
    let document = Parser::parse(source, options).unwrap();
    assert_eq!(document.loc, at(0, 5));
}

#[test]
fn operations_may_go_without_a_name() {
    let goal = Document {
        kind: Kinds::Document,
        loc: at(0, 11),
        definitions: vec![Definition::Operation {
            kind: Kinds::OperationDefinition,
            loc: at(0, 11),
            operation: "query".to_string(),
            name: None,
            variable_definitions: Some(vec![]),
            directives: vec![],
            selection_set: SelectionSet {
                kind: Kinds::SelectionSet,
                loc: at(6, 11),
                selections: vec![Selection::Field {
                    kind: Kinds::Field,
                    loc: at(8, 9),
                    alias: None,
                    name: name("a", 8, 9),
                    arguments: vec![],
                    directives: vec![],
                    selection_set: None,
                }],
            },
        }],
    };
    assert_eq!(parse("query { a }").unwrap(), goal);
}

#[test]
fn types_nest_lists_and_non_null() {
    let document = parse("query ($a: [[Int!]]!) { f }").unwrap();
    let goal = VariableDefinition {
        kind: Kinds::VariableDefinition,
        variable: Value::VariableValue {
            kind: Kinds::Variable,
            name: name("a", 8, 9),
            loc: at(7, 9),
        },
        var_type: Type::NonNull {
            kind: Kinds::NonNullType,
            loc: at(11, 20),
            t_type: Box::new(Type::List {
                kind: Kinds::ListType,
                loc: at(11, 19),
                t_type: Box::new(Type::List {
                    kind: Kinds::ListType,
                    loc: at(12, 18),
                    t_type: Box::new(Type::NonNull {
                        kind: Kinds::NonNullType,
                        loc: at(13, 17),
                        t_type: Box::new(Type::Named {
                            kind: Kinds::NamedType,
                            name: name("Int", 13, 16),
                            loc: at(13, 16),
                        }),
                    }),
                }),
            }),
        },
        default_value: None,
        loc: at(7, 20),
    };
    match &document.definitions[0] {
        Definition::Operation { variable_definitions: Some(vars), loc, .. } => {
            assert_eq!(vars.len(), 1);
            assert_eq!(vars[0], goal);
            assert_eq!(*loc, at(0, 27));
        }
        _ => panic!("an operation with variables was expected"),
    }
    assert_eq!(goal.var_type.clone(), goal.var_type);
    assert_eq!(failure("query ($a: Int!!) { f }").description, "Expected Dollar, found Bang");
    assert_eq!(failure("query ($a: [Int) { f }").description, "Expected BracketR, found ParenR");
}

#[test]
fn values_of_every_kind() {
    let document = parse("{ f(a: 1, b: -2.5, c: \"s\", d: true, e: false, g: RED, h: $v) }").unwrap();
    let arguments = match &document.definitions[0] {
        Definition::Operation { selection_set, .. } => match &selection_set.selections[0] {
            Selection::Field { arguments, .. } => arguments,
            _ => panic!("a field was expected"),
        },
        _ => panic!("an operation was expected"),
    };
    assert_eq!(arguments.len(), 7);
    assert_eq!(
        arguments[0],
        Argument {
            kind: Kinds::Argument,
            name: name("a", 4, 5),
            value: Value::IntValue { kind: Kinds::Int, value: "1".to_string(), loc: at(7, 8) },
            loc: at(4, 8),
        }
    );
    assert_eq!(
        arguments[1].value,
        Value::FloatValue { kind: Kinds::Float, value: "-2.5".to_string(), loc: at(13, 17) }
    );
    assert_eq!(
        arguments[2].value,
        Value::StringValue { kind: Kinds::String, value: "s".to_string(), loc: at(22, 25) }
    );
    assert_eq!(
        arguments[3].value,
        Value::BooleanValue { kind: Kinds::Boolean, value: true, loc: at(30, 34) }
    );
    assert_eq!(
        arguments[4].value,
        Value::BooleanValue { kind: Kinds::Boolean, value: false, loc: at(39, 44) }
    );
    assert_eq!(
        arguments[5].value,
        Value::EnumValue { kind: Kinds::Enum, value: "RED".to_string(), loc: at(49, 52) }
    );
    assert_eq!(
        arguments[6].value,
        Value::VariableValue { kind: Kinds::Variable, name: name("v", 58, 59), loc: at(57, 59) }
    );
}

#[test]
fn lists_and_objects_nest() {
    let document = parse("{ f(a: [1, [2]], b: {c: {d: []}}) }").unwrap();
    let arguments = match &document.definitions[0] {
        Definition::Operation { selection_set, .. } => match &selection_set.selections[0] {
            Selection::Field { arguments, .. } => arguments,
            _ => panic!("a field was expected"),
        },
        _ => panic!("an operation was expected"),
    };
    assert_eq!(
        arguments[0].value,
        Value::ArrayValue {
            kind: Kinds::Array,
            loc: at(7, 15),
            values: vec![
                Value::IntValue { kind: Kinds::Int, value: "1".to_string(), loc: at(8, 9) },
                Value::ArrayValue {
                    kind: Kinds::Array,
                    loc: at(11, 14),
                    values: vec![Value::IntValue {
                        kind: Kinds::Int,
                        value: "2".to_string(),
                        loc: at(12, 13)
                    }],
                },
            ],
        }
    );
    assert_eq!(
        arguments[1].value,
        Value::ObjectValue {
            kind: Kinds::Object,
            loc: at(20, 32),
            fields: vec![ObjectField {
                kind: Kinds::ObjectField,
                name: name("c", 21, 22),
                loc: at(21, 31),
                value: Value::ObjectValue {
                    kind: Kinds::Object,
                    loc: at(24, 31),
                    fields: vec![ObjectField {
                        kind: Kinds::ObjectField,
                        name: name("d", 25, 26),
                        loc: at(25, 30),
                        value: Value::ArrayValue { kind: Kinds::Array, values: vec![], loc: at(28, 30) },
                    }],
                },
            }],
        }
    );
}

#[test]
fn fragments_spread_and_inline() {
    let document = parse("{ ...F @a ... on T { x } on }").unwrap();
    let selections = match &document.definitions[0] {
        Definition::Operation { selection_set, .. } => &selection_set.selections,
        _ => panic!("an operation was expected"),
    };
    assert_eq!(selections.len(), 3);
    assert_eq!(
        selections[0],
        Selection::FragmentSpread {
            kind: Kinds::FragmentSpread,
            name: name("F", 5, 6),
            directives: Some(vec![Directive {
                kind: Kinds::Directive,
                name: name("a", 8, 9),
                arguments: Some(vec![]),
                loc: at(7, 9),
            }]),
            loc: at(2, 9),
        }
    );
    assert_eq!(
        selections[1],
        Selection::InlineFragment {
            kind: Kinds::InlineFragment,
            type_condition: Type::Named {
                kind: Kinds::NamedType,
                name: name("T", 17, 18),
                loc: at(17, 18)
            },
            directives: Some(vec![]),
            selection_set: SelectionSet {
                kind: Kinds::SelectionSet,
                selections: vec![Selection::Field {
                    kind: Kinds::Field,
                    alias: None,
                    name: name("x", 21, 22),
                    arguments: vec![],
                    directives: vec![],
                    selection_set: None,
                    loc: at(21, 22),
                }],
                loc: at(19, 24),
            },
            loc: at(10, 24),
        }
    );
    assert!(matches!(&selections[2], Selection::Field { name, .. } if name.value == "on"));
}

#[test]
fn fragment_definitions() {
    let document = parse("fragment F on T @d(a: 1) { x }").unwrap();
    assert_eq!(
        document.definitions[0],
        Definition::Fragment {
            kind: Kinds::FragmentDefinition,
            name: name("F", 9, 10),
            type_condition: Type::Named {
                kind: Kinds::NamedType,
                name: name("T", 14, 15),
                loc: at(14, 15)
            },
            directives: Some(vec![Directive {
                kind: Kinds::Directive,
                name: name("d", 17, 18),
                arguments: Some(vec![Argument {
                    kind: Kinds::Argument,
                    name: name("a", 19, 20),
                    value: Value::IntValue { kind: Kinds::Int, value: "1".to_string(), loc: at(22, 23) },
                    loc: at(19, 23),
                }]),
                loc: at(16, 24),
            }]),
            selection_set: SelectionSet {
                kind: Kinds::SelectionSet,
                selections: vec![Selection::Field {
                    kind: Kinds::Field,
                    alias: None,
                    name: name("x", 27, 28),
                    arguments: vec![],
                    directives: vec![],
                    selection_set: None,
                    loc: at(27, 28),
                }],
                loc: at(25, 30),
            },
            loc: at(0, 30),
        }
    );
}

#[test]
fn keywords_are_names_elsewhere() {
    let document = parse_bare("{ query mutation fragment on true false null }").unwrap();
    match &document.definitions[0] {
        Definition::Operation { selection_set, .. } => {
            assert_eq!(selection_set.selections.len(), 7);
        }
        _ => panic!("an operation was expected"),
    }
    assert!(parse("query query { query(query: query) }").is_ok());
    assert!(parse("fragment fragment on on { on }").is_ok());
    assert!(parse("mutation { a } query { b } { c }").is_ok());
}

#[test]
fn repeated_object_fields_are_failures() {
    let e = failure("{ field(arg: { a: 1, a: 2 }) }");
    assert_eq!(e.description, "Duplicate input object field \"a\" at location 21");
    assert_eq!(e.offset, Some(21));
    let e = failure("{ f(x: {a: {a: 1}, b: 2, c: [{b: 1}], b: 3}) }");
    assert_eq!(e.description, "Duplicate input object field \"b\" at location 38");
    assert!(parse("{ f(x: {a: 1}, y: {a: 2}) }").is_ok());
}

#[test]
fn unexpected_tokens_are_failures() {
    let e = failure("");
    assert_eq!(e.description, "Expected a BraceL or a Name at location 0");
    assert_eq!(e.offset, Some(0));
    assert_eq!(failure("   ").description, "Expected a BraceL or a Name at location 3");
    assert_eq!(failure("{ a } 1").description, "Expected a BraceL or a Name at location 6");
    let e = failure("{ a } b { c }");
    assert_eq!(e.description, "Could not parse document, missing NameKind at location 6");
    assert_eq!(e.offset, Some(6));
    let e = failure("{ }");
    assert_eq!(e.description, "Expected Name, found BraceR");
    assert_eq!(e.offset, Some(2));
    let e = failure("{ field(");
    assert_eq!(e.description, "Expected Name, found EOF");
    assert_eq!(e.offset, Some(8));
    assert_eq!(failure("{ a").description, "Expected Name, found EOF");
    assert_eq!(failure("{ f() }").description, "Expected Name, found ParenR");
    assert_eq!(failure("{ f(a 1) }").description, "Expected Colon, found Int");
    assert_eq!(failure("{ a: }").description, "Expected Name, found BraceR");
    assert_eq!(failure("{ a @ }").description, "Expected Name, found BraceR");
    assert_eq!(failure("query").description, "Expected BraceL, found EOF");
    assert_eq!(failure("query Q ()").description, "Expected Dollar, found ParenR");
    assert_eq!(failure("query Q ($a Int) { f }").description, "Expected Colon, found Name");
    assert_eq!(failure("{ ... }").description, "Expected Name, found BraceR");
    assert_eq!(failure("{ ... on }").description, "Expected Name, found BraceR");
    assert_eq!(failure("{ ... on T }").description, "Expected BraceL, found BraceR");
    assert_eq!(failure("{ f(a: $) }").description, "Expected Name, found ParenR");
}

#[test]
fn missing_keywords_are_failures() {
    let e = failure("fragment F T { a }");
    assert_eq!(e.description, "Expected 'on' and got 'T'");
    assert_eq!(e.offset, Some(11));
    assert_eq!(failure("fragment F { a }").description, "Expected 'on' and got ''");
    assert_eq!(failure("fragment F \"on\" T { a }").description, "Expected 'on' and got 'on'");
}

#[test]
fn fragments_cannot_be_named_on() {
    let e = failure("fragment on on Type { a }");
    assert_eq!(e.description, "Unexpected 'on' in place of a fragment name at location 9");
    assert_eq!(e.offset, Some(9));
}

#[test]
fn constant_values_hold_no_variable() {
    let e = failure("query ($a: Int = $b) { f }");
    assert_eq!(e.description, "Unexpected variable in a constant value at location 17");
    assert_eq!(e.offset, Some(17));
    assert_eq!(
        failure("query ($a: T = {x: [1, $b]}) { f }").description,
        "Unexpected variable in a constant value at location 23"
    );
    assert!(parse("query ($a: T = {x: [1, B]}) { f(y: [$a]) }").is_ok());
}

#[test]
fn tokens_that_open_no_value_are_failures() {
    let e = failure("{ f(a: null) }");
    assert_eq!(e.description, "Unexpected Name at location 7");
    assert_eq!(e.offset, Some(7));
    assert_eq!(failure("{ f(a: !) }").description, "Unexpected Bang at location 7");
    assert_eq!(failure("{ f(a: ) }").description, "Unexpected ParenR at location 7");
    assert_eq!(failure("{ f(a: [1 ").description, "Unexpected EOF at location 10");
    assert_eq!(failure("{ f(a: {b: ...}) }").description, "Unexpected Spread at location 11");
    assert!(parse("{ f(a: nulls) }").is_ok());
}

#[test]
fn lexical_failures_end_the_parse() {
    let e = failure("{ f(a: 01) }");
    assert_eq!(e.description, "Invalid number at location 8");
    assert_eq!(e.offset, Some(8));
    assert_eq!(failure("?").description, "Unexpected character at location 0");
    assert_eq!(failure("{ a ..b }").description, "Malformed spread at location 4");
    assert_eq!(failure("{ f(a: \"x) }").description, "Unterminated string at location 12");
    assert_eq!(
        failure("{ f(a: \"\\q\") }").description,
        "Invalid character escape sequence at location 8"
    );
    assert_eq!(failure("{ a } %").description, "Unexpected character at location 6");
}

#[test]
fn unknown_definitions_are_failures_at_their_start() {
    let e = failure("notanoperation Foo { field }");
    assert_eq!(e.description, "Could not parse document, missing NameKind at location 0");
    assert_eq!(e.offset, Some(0));
    let e = failure("\n{ ...MissingOn }\nfragment MissingOn Type\n");
    assert_eq!(e.description, "Expected 'on' and got 'Type'");
    assert_eq!(e.offset, Some(37));
}

#[test]
fn locations_describe_their_span() {
    assert_eq!(Location { start: 0, end: 9, source: None }.describe(), "(0, 9)");
    assert_eq!(
        Location { start: 7, end: 120, source: Some(Source::new("x")) }.describe(),
        "(7, 120)"
    );
    let document = parse("  { a }").unwrap();
    assert_eq!(document.loc.unwrap().describe(), "(2, 7)");
}

#[test]
fn it_parses_the_kitchen_sink() {
    let source = Source::new(KITCHEN_SINK.trim());
    assert!(Parser::parse(source, ParseOptions::new()).is_ok());
}
