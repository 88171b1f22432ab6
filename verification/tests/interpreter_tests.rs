use minilua::ast::Stmt;
use minilua::interpreter::{self, Context, Error, Host, Value};
use minilua::lexer::Lexer;
use minilua::parser::Parser;
use minilua::resolution::Prototypes;
use minilua::source::{Source, Span, Spanned};

struct RecordingHost {
    calls: Vec<Vec<String>>,
}

impl Host for RecordingHost {
    fn exec(&mut self, args: Vec<String>) -> String {
        self.calls.push(args.clone());
        format!("ran {}", args.join(" "))
    }
}

fn parse(text: &str) -> Vec<Spanned<Stmt>> {
    let source = Source::new(String::new(), text);
    let mut lexer = Lexer::new(&source);
    let tokens = lexer.tokenize().unwrap();
    let mut parser = Parser::new(&source, tokens);
    parser.parse().unwrap()
}

fn no_protos() -> Prototypes {
    Prototypes { offsets: Vec::new(), sizes: Vec::new() }
}

fn integer_of<'a>(ctx: &mut Context<'a>, name: &str) -> i64 {
    match ctx.get(&name.to_string(), Span { start: 0, end: 0 }) {
        Ok(Value::Integer(n)) => n,
        other => panic!("unexpected {other:?}"),
    }
}

#[test]
fn arithmetic_follows_precedence() {
    let stmts = parse("local x = 1 + 2 * 3 - 4 / 2");
    let mut host = RecordingHost { calls: Vec::new() };
    let mut ctx = interpreter::run(no_protos(), &stmts, &mut host).unwrap();
    assert_eq!(integer_of(&mut ctx, "x"), 5);
}

#[test]
fn functions_are_called_with_their_arguments() {
    let stmts = parse("function f(a: int): int return a * 2 end\nlocal y = f(21)");
    let mut host = RecordingHost { calls: Vec::new() };
    let mut ctx = interpreter::run(no_protos(), &stmts, &mut host).unwrap();
    assert_eq!(integer_of(&mut ctx, "y"), 42);
}

#[test]
fn conditions_choose_a_branch() {
    let stmts = parse("local x = 0\nif 0 then x = 1 elseif 2 < 1 then x = 2 else x = 3 end");
    let mut host = RecordingHost { calls: Vec::new() };
    let mut ctx = interpreter::run(no_protos(), &stmts, &mut host).unwrap();
    assert_eq!(integer_of(&mut ctx, "x"), 3);
}

#[test]
fn exec_hands_the_words_to_the_host() {
    let stmts = parse("local r = exec(\"echo\", 1, true, nil, \"x\")");
    let mut host = RecordingHost { calls: Vec::new() };
    let mut ctx = interpreter::run(no_protos(), &stmts, &mut host).unwrap();
    assert_eq!(host.calls, vec![vec!["echo".to_string(), "1".to_string(), "true".to_string(), "x".to_string()]]);
    match ctx.get(&"r".to_string(), Span { start: 0, end: 0 }) {
        Ok(Value::String(s)) => assert_eq!(s, "ran echo 1 true x"),
        other => panic!("unexpected {other:?}"),
    }
}

#[test]
fn strings_join_with_the_text_of_values() {
    let stmts = parse("local s = \"n=\" + 4");
    let mut host = RecordingHost { calls: Vec::new() };
    let mut ctx = interpreter::run(no_protos(), &stmts, &mut host).unwrap();
    match ctx.get(&"s".to_string(), Span { start: 0, end: 0 }) {
        Ok(Value::String(s)) => assert_eq!(s, "n=4"),
        other => panic!("unexpected {other:?}"),
    }
}

#[test]
fn exit_stops_the_program() {
    let stmts = parse("exit()");
    let mut host = RecordingHost { calls: Vec::new() };
    match interpreter::run(no_protos(), &stmts, &mut host) {
        Err(Error::Exit { span }) => assert_eq!(span, Span { start: 0, end: 4 }),
        Err(other) => panic!("unexpected {other:?}"),
        Ok(_) => panic!("the program ran to its end"),
    }
}

#[test]
fn division_by_zero_is_refused() {
    let stmts = parse("local z = 1 / 0");
    let mut host = RecordingHost { calls: Vec::new() };
    match interpreter::run(no_protos(), &stmts, &mut host) {
        Err(Error::Rejected { .. }) => {}
        Err(other) => panic!("unexpected {other:?}"),
        Ok(_) => panic!("the program ran to its end"),
    }
}

#[test]
fn unbound_name_is_a_runtime_error() {
    let stmts = parse("local z = w");
    let mut host = RecordingHost { calls: Vec::new() };
    match interpreter::run(no_protos(), &stmts, &mut host) {
        Err(Error::Unbound { ident, .. }) => assert_eq!(ident, "w"),
        Err(other) => panic!("unexpected {other:?}"),
        Ok(_) => panic!("the program ran to its end"),
    }
}

#[test]
fn get_after_set_gives_the_value() {
    let stmts = parse("local a = 1");
    let mut host = RecordingHost { calls: Vec::new() };
    let mut ctx = interpreter::run(no_protos(), &stmts, &mut host).unwrap();
    ctx.set(&"a".to_string(), Value::Integer(9), Span { start: 0, end: 0 }).unwrap();
    ctx.set(&"b".to_string(), Value::Boolean(true), Span { start: 0, end: 0 }).unwrap();
    assert_eq!(integer_of(&mut ctx, "a"), 9);
    assert!(matches!(ctx.get(&"b".to_string(), Span { start: 0, end: 0 }), Ok(Value::Boolean(true))));
}

#[test]
fn truthiness_of_values() {
    let stmts = parse("local a = 1");
    let mut host = RecordingHost { calls: Vec::new() };
    let ctx = interpreter::run(no_protos(), &stmts, &mut host).unwrap();
    assert!(!Value::Nil.truthy(&ctx));
    assert!(!Value::Integer(0).truthy(&ctx));
    assert!(Value::Integer(-2).truthy(&ctx));
    assert!(!Value::String(String::new()).truthy(&ctx));
    assert!(Value::Boolean(true).truthy(&ctx));
}

fn run_error(text: &str) -> String {
    let stmts = parse(text);
    let mut host = RecordingHost { calls: Vec::new() };
    match interpreter::run(no_protos(), &stmts, &mut host) {
        Err(e) => format!("{e:?}"),
        Ok(_) => panic!("the program ran to its end"),
    }
}

#[test]
fn list_index_out_of_bounds_is_reported() {
    let stmts = parse("local l = [1, 2]\nlocal z = l[5]");
    let mut host = RecordingHost { calls: Vec::new() };
    match interpreter::run(no_protos(), &stmts, &mut host) {
        Err(Error::OutOfBound { len, index, .. }) => {
            assert_eq!(len, 2);
            assert_eq!(index, 5);
        },
        Err(other) => panic!("unexpected {other:?}"),
        Ok(_) => panic!("the program ran to its end"),
    }
}

#[test]
fn list_elements_are_read_by_index() {
    let stmts = parse("local l = [10, 20, 30]\nlocal z = l[1]");
    let mut host = RecordingHost { calls: Vec::new() };
    let mut ctx = interpreter::run(no_protos(), &stmts, &mut host).unwrap();
    assert_eq!(integer_of(&mut ctx, "z"), 20);
}

#[test]
fn calling_a_number_is_refused() {
    let stmts = parse("local x = 1\nx()");
    let mut host = RecordingHost { calls: Vec::new() };
    match interpreter::run(no_protos(), &stmts, &mut host) {
        Err(Error::NotAFunction { found: Value::Integer(1), .. }) => {},
        Err(other) => panic!("unexpected {other:?}"),
        Ok(_) => panic!("the program ran to its end"),
    }
}

#[test]
fn test_needs_a_function_and_a_count() {
    assert!(run_error("test(1)").contains("ffi::test"));
}

#[test]
fn member_of_a_number_is_a_type_mismatch() {
    let stmts = parse("local x = 1\nlocal y = x.a");
    let mut host = RecordingHost { calls: Vec::new() };
    match interpreter::run(no_protos(), &stmts, &mut host) {
        Err(Error::TypeMismatch { expected, .. }) => assert_eq!(expected, "Struct"),
        Err(other) => panic!("unexpected {other:?}"),
        Ok(_) => panic!("the program ran to its end"),
    }
}

#[test]
fn break_inside_a_function_is_malformed() {
    let stmts = parse("function f() break end\nf()");
    let mut host = RecordingHost { calls: Vec::new() };
    match interpreter::run(no_protos(), &stmts, &mut host) {
        Err(Error::MalformedControlFlow { .. }) => {},
        Err(other) => panic!("unexpected {other:?}"),
        Ok(_) => panic!("the program ran to its end"),
    }
}

#[test]
fn return_at_top_level_stops_with_its_value() {
    let stmts = parse("return 3");
    let mut host = RecordingHost { calls: Vec::new() };
    match interpreter::run(no_protos(), &stmts, &mut host) {
        Err(Error::Return { value: Value::Integer(3), .. }) => {},
        Err(other) => panic!("unexpected {other:?}"),
        Ok(_) => panic!("the program ran to its end"),
    }
}

#[test]
fn negating_the_smallest_integer_is_refused() {
    let stmts = parse("local x = -(0 - 9223372036854775807 - 1)");
    let mut host = RecordingHost { calls: Vec::new() };
    match interpreter::run(no_protos(), &stmts, &mut host) {
        Err(Error::Rejected { message, .. }) => assert_eq!(message, "integer overflow"),
        Err(other) => panic!("unexpected {other:?}"),
        Ok(_) => panic!("the program ran to its end"),
    }
}

#[test]
fn tables_hold_named_and_numbered_entries() {
    let stmts = parse("local t = {a = 5, 7}\nlocal x = t.a\nlocal y = t[0]");
    let mut host = RecordingHost { calls: Vec::new() };
    let mut ctx = interpreter::run(no_protos(), &stmts, &mut host).unwrap();
    assert_eq!(integer_of(&mut ctx, "x"), 5);
    assert_eq!(integer_of(&mut ctx, "y"), 7);
}

#[test]
fn or_gives_the_first_true_operand() {
    let stmts = parse("local a = true or false\nlocal b = false or 7\nlocal c = 3 or 4\nlocal d = true and 5");
    let mut host = RecordingHost { calls: Vec::new() };
    let mut ctx = interpreter::run(no_protos(), &stmts, &mut host).unwrap();
    match ctx.get(&"a".to_string(), Span { start: 0, end: 0 }) {
        Ok(Value::Boolean(true)) => {},
        other => panic!("unexpected {other:?}"),
    }
    assert_eq!(integer_of(&mut ctx, "b"), 7);
    assert_eq!(integer_of(&mut ctx, "c"), 3);
    assert_eq!(integer_of(&mut ctx, "d"), 5);
}
