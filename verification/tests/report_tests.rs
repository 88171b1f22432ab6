use minilua::ast::{BinOp, UnOp};
use minilua::interpreter::{self, Value};
use minilua::lexer::{self, Token};
use minilua::parser;
use minilua::resolution::{self, NType, Type};
use minilua::source::{Source, Span};

fn plain(inner: Type) -> NType {
    NType { nesting: 0, inner }
}

#[test]
fn print_span_shows_the_line_and_carets() {
    let s = Source::new("f.lua".to_string(), "local x = 1\ny = 2");
    assert_eq!(s.print_span(Span { start: 12, end: 13 }), " --> f.lua:2:1\n  | y = 2\n  | ^\n");
    assert_eq!(s.print_span(Span { start: 6, end: 11 }), " --> f.lua:1:7\n  | local x = 1\n  |       ^^^^^\n");
    assert_eq!(s.print_span(Span { start: 4, end: 40 }), " --> f.lua:1:5\n  | local x = 1\n  |     ^^^^^^^\n");
    assert_eq!(s.print_span(Span { start: 17, end: 17 }), " --> f.lua:2:6\n  | y = 2\n  |      ^\n");
}

#[test]
fn lexing_error_report() {
    let s = Source::new("m".to_string(), "x = @");
    let e = lexer::Error::Unexpected(Span { start: 4, end: 5 });
    assert_eq!(e.pretty_print(&s), "error: Unexpected character `@`\n --> m:1:5\n  | x = @\n  |     ^\n");
}

#[test]
fn parse_error_reports() {
    let s = Source::new("m".to_string(), "x = )");
    let found = Span { start: 4, end: 5 }.attach(Token::RParen);
    let e = parser::Error::Unexpected {
        message: Some("expression"),
        expected: vec!["LParen".to_string(), "Nil".to_string()],
        found: found.clone(),
        started: Some(Span { start: 0, end: 1 }),
    };
    assert_eq!(
        e.pretty_print(&s),
        "error: Expected expression (tokens [\"LParen\", \"Nil\"]), but found token `RParen`\n --> m:1:5\n  | x = )\n  |     ^\nnote: Started by\n --> m:1:1\n  | x = )\n  | ^\n"
    );
    let e = parser::Error::Unexpected {
        message: None,
        expected: vec!["End".to_string()],
        found,
        started: None,
    };
    assert_eq!(e.pretty_print(&s), "error: Expected token `End`, but found token `RParen`\n --> m:1:5\n  | x = )\n  |     ^\n");
    let e = parser::Error::Todo { message: "later", span: Span { start: 0, end: 1 } };
    assert_eq!(e.pretty_print(&s), "todo: later\n --> m:1:1\n  | x = )\n  | ^\n");
}

#[test]
fn types_as_written() {
    assert_eq!(plain(Type::Integer).text(), "int");
    assert_eq!(NType { nesting: 2, inner: Type::String }.text(), "[[str]]");
    assert_eq!(plain(Type::Struct(3)).text(), "#3");
    assert_eq!(plain(Type::Any).text(), "*");
    let f = NType {
        nesting: 1,
        inner: Type::Func { args: vec![plain(Type::Integer), plain(Type::String)], ret: Box::new(plain(Type::Nil)) },
    };
    assert_eq!(f.text(), "[fn(int,str)]");
    let g = plain(Type::Func { args: vec![], ret: Box::new(plain(Type::Boolean)) });
    assert_eq!(g.text(), "fn():bool");
}

#[test]
fn checking_error_reports() {
    let s = Source::new("m".to_string(), "x = y");
    let e = resolution::Error::Mismatch {
        expected: plain(Type::Integer),
        found: plain(Type::Boolean),
        span: Span { start: 4, end: 5 },
    };
    assert_eq!(e.pretty_print(&s), "error: expected `int`, found `bool`\n --> m:1:5\n  | x = y\n  |     ^\n");
    let e = resolution::Error::MissingTypeDefinition { name: "P".to_string() };
    assert_eq!(e.pretty_print(&s), "error: missing type definition for `P`\n");
    let e = resolution::Error::InvalidTypeForUnOp {
        op: UnOp::Neg,
        expr: Span { start: 4, end: 5 }.attach(plain(Type::String)),
    };
    assert_eq!(e.pretty_print(&s), "error: cannot apply `Neg` on type `str`\n --> m:1:5\n  | x = y\n  |     ^\n");
    let e = resolution::Error::InvalidTypeForBinOp {
        op: BinOp::Sub,
        lhs: Span { start: 0, end: 1 }.attach(plain(Type::String)),
        rhs: Span { start: 4, end: 5 }.attach(plain(Type::Integer)),
    };
    assert_eq!(
        e.pretty_print(&s),
        "error: cannot apply `Sub` between type `str` and type `int`\n --> m:1:1\n  | x = y\n  | ^\n --> m:1:5\n  | x = y\n  |     ^\n"
    );
    let e = resolution::Error::WrongNumberOfElements { expected: 2, found: 1, span: Span { start: 0, end: 5 } };
    assert_eq!(e.pretty_print(&s), "error: expected 2 elements, but found 1\n --> m:1:1\n  | x = y\n  | ^^^^^\n");
}

#[test]
fn runtime_error_reports() {
    let s = Source::new("m".to_string(), "f(1)");
    let e = interpreter::Error::NotAFunction { span: Span { start: 0, end: 1 }, found: Value::String("a".to_string()) };
    assert_eq!(
        e.pretty_print(&s),
        "error: expected this expression to be a function\n --> m:1:1\n  | f(1)\n  | ^\nbut found:\n\"a\""
    );
    let e = interpreter::Error::OutOfBound { len: 2, index: -1, span: Span { start: 2, end: 3 } };
    assert_eq!(e.pretty_print(&s), "error: index -1 out of bounds 0..2 --> m:1:3\n  | f(1)\n  |   ^\n");
    let e = interpreter::Error::FFI("ffi::test");
    assert_eq!(e.pretty_print(&s), "error: extern function `ffi::test` internal error");
    let e = interpreter::Error::Exit { span: Span { start: 0, end: 4 } };
    assert_eq!(e.pretty_print(&s), "exit\n --> m:1:1\n  | f(1)\n  | ^^^^\n");
    let e = interpreter::Error::TypeMismatch { expected: "int", found: Value::List(0), span: Span { start: 2, end: 3 } };
    assert_eq!(e.pretty_print(&s), "error: type mismatch, expected: int\n --> m:1:3\n  | f(1)\n  |   ^\nbut found:\n[…]");
}

#[test]
fn operator_names() {
    assert_eq!(BinOp::Shl.name(), "Shl");
    assert_eq!(UnOp::Not.name(), "Not");
}
