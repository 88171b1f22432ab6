use minilua::ast::{self, Stmt};
use minilua::lexer::Lexer;
use minilua::parser::Parser;
use minilua::resolution::{self, process_type, Error, NType, Prototypes, Type};
use minilua::source::{Source, Span, Spanned};

fn parse(text: &str) -> Vec<Spanned<Stmt>> {
    let source = Source::new(String::new(), text);
    let mut lexer = Lexer::new(&source);
    let tokens = lexer.tokenize().unwrap();
    let mut parser = Parser::new(&source, tokens);
    parser.parse().unwrap()
}

fn check(text: &str) -> Result<Prototypes, Error> {
    resolution::run(&parse(text))
}

fn plain(inner: Type) -> NType {
    NType { nesting: 0, inner }
}

#[test]
fn struct_fields_get_offsets_in_order() {
    let protos = check("struct P x: int y: str end").unwrap();
    assert_eq!(protos.size(&"P".to_string()), Some(2));
    assert_eq!(protos.offset(&"P".to_string(), &"x".to_string()), Some(0));
    assert_eq!(protos.offset(&"P".to_string(), &"y".to_string()), Some(1));
    assert_eq!(protos.offset(&"P".to_string(), &"z".to_string()), None);
    assert_eq!(protos.size(&"Q".to_string()), None);
}

#[test]
fn well_typed_program_checks() {
    assert!(check("local x = 1\nx = 2\nprint(x)").is_ok());
}

#[test]
fn assigning_another_type_is_a_mismatch() {
    match check("local x = 1\nx = true") {
        Err(Error::Mismatch { .. }) => {}
        other => panic!("unexpected {other:?}"),
    }
}

#[test]
fn unbound_name_is_reported() {
    match check("y = 1") {
        Err(Error::Unbound { ident, .. }) => assert_eq!(ident, "y"),
        other => panic!("unexpected {other:?}"),
    }
}

#[test]
fn binding_twice_in_one_scope_is_refused() {
    match check("local x = 1\nlocal x = 2") {
        Err(Error::Rejected { .. }) => {}
        other => panic!("unexpected {other:?}"),
    }
}

#[test]
fn type_defined_twice_is_refused() {
    match check("struct P x: int end\nstruct P y: int end") {
        Err(Error::Rejected { message, .. }) => assert_eq!(message, "a type is defined twice"),
        other => panic!("unexpected {other:?}"),
    }
}

#[test]
fn coercion_between_numbers_and_to_any() {
    assert!(plain(Type::Integer).can_coerce(&plain(Type::Float)));
    assert!(plain(Type::Float).can_coerce(&plain(Type::Integer)));
    assert!(plain(Type::Any).can_coerce(&plain(Type::String)));
    assert!(plain(Type::String).can_coerce(&plain(Type::String)));
    assert!(!plain(Type::Boolean).can_coerce(&plain(Type::Integer)));
    assert!(!plain(Type::Integer).can_coerce(&NType { nesting: 1, inner: Type::Integer }));
}

#[test]
fn written_types_become_checker_types() {
    let mut names: Vec<String> = Vec::new();
    let int = ast::Type::Named { nesting: 0, name: Span { start: 0, end: 3 }.attach("int".to_string()) };
    let t = process_type(&mut names, &int);
    assert_eq!(t.nesting, 0);
    assert!(matches!(t.inner, Type::Integer));
    assert!(names.is_empty());
    let list_of_p = ast::Type::Named { nesting: 2, name: Span { start: 0, end: 1 }.attach("P".to_string()) };
    let t = process_type(&mut names, &list_of_p);
    assert_eq!(t.nesting, 2);
    assert!(matches!(t.inner, Type::Struct(0)));
    assert_eq!(names, vec!["P".to_string()]);
    let q = ast::Type::Named { nesting: 0, name: Span { start: 0, end: 1 }.attach("Q".to_string()) };
    assert!(matches!(process_type(&mut names, &q).inner, Type::Struct(1)));
    assert!(matches!(process_type(&mut names, &list_of_p).inner, Type::Struct(0)));
}

#[test]
fn layouts_hold_every_field_once() {
    let protos = check("struct Q end struct P x: Q end").unwrap();
    let mut sizes: Vec<(String, usize)> = protos.sizes.clone();
    sizes.sort();
    assert_eq!(sizes, vec![("P".to_string(), 1), ("Q".to_string(), 0)]);
    assert_eq!(protos.offsets, vec![(("P".to_string(), "x".to_string()), 0)]);
}

#[test]
fn a_missing_field_type_is_reported() {
    match check("struct P x: Q end") {
        Err(Error::MissingTypeDefinition { name }) => assert_eq!(name, "Q"),
        other => panic!("unexpected {other:?}"),
    }
}
