use minilua::ast::{BinOp, Expr, Stmt};
use minilua::lexer::{Lexer, Token};
use minilua::parser::{Error, Parser};
use minilua::source::{Source, Span, Spanned};

fn parse(text: &str) -> Result<Vec<Spanned<Stmt>>, Error> {
    let source = Source::new(String::new(), text);
    let mut lexer = Lexer::new(&source);
    let tokens = lexer.tokenize().unwrap();
    let mut parser = Parser::new(&source, tokens);
    parser.parse()
}

#[test]
fn binding_with_precedence() {
    let stmts = parse("local x = 1 + 2 * 3").unwrap();
    assert_eq!(stmts.len(), 1);
    assert_eq!(stmts[0].span, Span { start: 0, end: 19 });
    match &stmts[0].data {
        Stmt::Binding { lhs, rhs } => {
            assert_eq!(lhs.data.len(), 1);
            assert_eq!(lhs.data[0].data, "x");
            assert_eq!(rhs.data.len(), 1);
            match &rhs.data[0].data {
                Expr::BinOp { lhs, rhs, op } => {
                    assert_eq!(op.data, BinOp::Add);
                    assert!(matches!(lhs.data, Expr::Integer(1)));
                    match &rhs.data {
                        Expr::BinOp { op, .. } => assert_eq!(op.data, BinOp::Mul),
                        other => panic!("unexpected {other:?}"),
                    }
                }
                other => panic!("unexpected {other:?}"),
            }
        }
        other => panic!("unexpected {other:?}"),
    }
}

#[test]
fn call_statement() {
    let stmts = parse("print(1, \"a\")").unwrap();
    match &stmts[0].data {
        Stmt::Call { expr, args } => {
            assert!(matches!(&expr.data, Expr::Identifier(x) if x == "print"));
            assert_eq!(args.data.len(), 2);
        }
        other => panic!("unexpected {other:?}"),
    }
    assert_eq!(stmts[0].data.label(), "FunctionCall");
}

#[test]
fn function_and_if() {
    let text = "function f(a: int): int\n  if a then return 1 elseif b then return 2 else return 3 end\nend";
    let stmts = parse(text).unwrap();
    assert_eq!(stmts.len(), 1);
    match &stmts[0].data {
        Stmt::FuncDef { is_local, name, body } => {
            assert!(!is_local);
            assert_eq!(name.data, "f");
            assert_eq!(body.args.data.len(), 1);
            assert!(body.ret.is_some());
            assert_eq!(body.body.data.len(), 1);
            match &body.body.data[0].data {
                Stmt::If { else_if_blocks, else_block, .. } => {
                    assert_eq!(else_if_blocks.len(), 1);
                    assert!(else_block.is_some());
                }
                other => panic!("unexpected {other:?}"),
            }
        }
        other => panic!("unexpected {other:?}"),
    }
}

#[test]
fn struct_definition() {
    let stmts = parse("struct P x: int y: str end").unwrap();
    match &stmts[0].data {
        Stmt::TypeDef { name, fields } => {
            assert_eq!(name.data, "P");
            assert_eq!(fields.data.len(), 2);
            assert_eq!(fields.data[1].data.name.data, "y");
        }
        other => panic!("unexpected {other:?}"),
    }
}

#[test]
fn assignment_and_member_access() {
    let stmts = parse("p.x = 4\nt[1] = 2").unwrap();
    assert_eq!(stmts.len(), 2);
    assert_eq!(stmts[0].data.label(), "Assign");
    match &stmts[0].data {
        Stmt::Assign { lhs, .. } => {
            assert_eq!(lhs.data[0].data.label(), "MemberAccess");
            assert!(lhs.data[0].data.is_lvalue());
        }
        other => panic!("unexpected {other:?}"),
    }
    match &stmts[1].data {
        Stmt::Assign { lhs, .. } => assert_eq!(lhs.data[0].data.label(), "IndexAccess"),
        other => panic!("unexpected {other:?}"),
    }
}

#[test]
fn comments_are_skipped() {
    let stmts = parse("// first\nlocal a = 1 // second\n").unwrap();
    assert_eq!(stmts.len(), 1);
}

#[test]
fn empty_program() {
    assert_eq!(parse("").unwrap().len(), 0);
}

#[test]
fn missing_name_in_binding_is_unexpected() {
    match parse("local = 3") {
        Err(Error::Unexpected { found, .. }) => assert_eq!(found.data, Token::Assign),
        other => panic!("unexpected {other:?}"),
    }
}

#[test]
fn expression_that_is_not_a_statement_is_refused() {
    match parse("1 + 2") {
        Err(Error::Unexpected { message, .. }) => assert_eq!(message, Some("lvalue or function call")),
        other => panic!("unexpected {other:?}"),
    }
}

#[test]
fn brace_after_an_expression_is_not_handled() {
    match parse("x = 1 {") {
        Err(Error::Todo { .. }) => {}
        other => panic!("unexpected {other:?}"),
    }
}

#[test]
fn token_names() {
    assert_eq!(Token::End.name(), "End");
    assert_eq!(Token::RParen.name(), "RParen");
}

#[test]
fn parsing_stops_at_the_first_end_of_input() {
    let source = Source::new(String::new(), "x");
    let tokens = vec![
        Spanned { data: Token::Eof, span: Span { start: 0, end: 0 } },
        Spanned { data: Token::Identifier("x".to_string()), span: Span { start: 0, end: 1 } },
        Spanned { data: Token::Eof, span: Span { start: 1, end: 1 } },
    ];
    let mut parser = Parser::new(&source, tokens);
    assert!(parser.parse().unwrap().is_empty());
}
