use minilua::editor::{
    ast_path_at, lex_error_info, pad, parser_error_info, token_color, BasePane, Color, Editor,
    EditorPane, KeyCode, KeyInput, KeyOutcome, LogsPane, TextPane,
};
use minilua::lexer::{self, token_debug_text, Lexer, Token};
use minilua::parser::{self, Parser};
use minilua::source::{Source, Span};

fn key(code: KeyCode) -> KeyInput {
    KeyInput { code, shift: false, ctrl: false, alt: false }
}

fn alt(code: KeyCode) -> KeyInput {
    KeyInput { code, shift: false, ctrl: false, alt: true }
}

fn ctrl(code: KeyCode) -> KeyInput {
    KeyInput { code, shift: false, ctrl: true, alt: false }
}

fn labels(editor: &Editor) -> Vec<&'static str> {
    editor.ctx.ast_path.iter().map(|n| n.label).collect()
}

#[test]
fn token_colors_by_kind() {
    assert_eq!(token_color(&Token::Comment), Color::Cyan);
    assert_eq!(token_color(&Token::Integer(3)), Color::DarkRed);
    assert_eq!(token_color(&Token::Identifier("a".to_string())), Color::DarkMagenta);
    assert_eq!(token_color(&Token::Function), Color::AnsiValue(130));
    assert_eq!(token_color(&Token::Add), Color::DarkGreen);
    assert_eq!(token_color(&Token::LParen), Color::AnsiValue(236));
    assert_eq!(token_color(&Token::Do), Color::AnsiValue(236));
}

#[test]
fn pad_fills_or_cuts() {
    assert_eq!(pad("abc", 5), "abc  ");
    assert_eq!(pad("abcdef", 4), "abc…");
    assert_eq!(pad("ab", 2), "a…");
    assert_eq!(pad("", 0), "…");
    assert_eq!(pad("é", 3), "é  ");
    for w in 1..8 {
        assert_eq!(pad("hello", w).chars().count(), w);
    }
}

#[test]
fn debug_text_of_tokens() {
    assert_eq!(token_debug_text(&Token::Eof), "Eof");
    assert_eq!(token_debug_text(&Token::Integer(42)), "Integer(42)");
    assert_eq!(token_debug_text(&Token::Identifier("x".to_string())), "Identifier(\"x\")");
    assert_eq!(token_debug_text(&Token::String("a\"b".to_string())), "String(\"a\\\"b\")");
}

#[test]
fn lexing_errors_are_unexpected_characters() {
    let (span, message) = lex_error_info(&lexer::Error::Unexpected(Span { start: 3, end: 4 }));
    assert_eq!(span, Span { start: 3, end: 4 });
    assert_eq!(message, "Unexpected character");
}

#[test]
fn parse_error_messages() {
    let found = Span { start: 5, end: 6 }.attach(Token::Integer(3));
    let e = parser::Error::Unexpected {
        message: Some("type name"),
        expected: vec!["Identifier".to_string()],
        found: found.clone(),
        started: None,
    };
    assert_eq!(
        parser_error_info(&e),
        (Span { start: 5, end: 6 }, "Expected type name (\"Identifier\"), found Integer(3)".to_string())
    );
    let e = parser::Error::Unexpected { message: Some("x"), expected: vec![], found: found.clone(), started: None };
    assert_eq!(parser_error_info(&e).1, "Expected x, found Integer(3)");
    let e = parser::Error::Unexpected {
        message: None,
        expected: vec!["End".to_string()],
        found: found.clone(),
        started: None,
    };
    assert_eq!(parser_error_info(&e).1, "Expected \"End\", found Integer(3)");
    let e = parser::Error::Unexpected { message: None, expected: vec![], found, started: None };
    assert_eq!(parser_error_info(&e).1, "Unexpected Integer(3)");
    let e = parser::Error::Todo { message: "later", span: Span { start: 1, end: 2 } };
    assert_eq!(parser_error_info(&e), (Span { start: 1, end: 2 }, "later".to_string()));
}

#[test]
fn new_editor_compiles_and_finds_the_path() {
    let editor = Editor::new("local x = 1", (80, 24));
    assert!(editor.ctx.output.errors.is_empty());
    assert_eq!(editor.ctx.version, 1);
    assert_eq!(labels(&editor), vec!["Program", "Binding"]);
    assert_eq!(editor.ctx.ast_path[0].span, Span { start: 0, end: 11 });
    assert!(editor.ctx.ast_path[0].weak);
    assert!(!editor.ctx.ast_path[1].weak);
    assert_eq!(editor.ctx.output.tokens().len(), 5);
    assert_eq!(editor.pane_count(), 6);
    let names: Vec<&str> = (0..6).map(|i| editor.pane_label(i)).collect();
    assert_eq!(names, vec!["Editor", "Logs", "Lexer", "Parser", "Resolution", "Exec"]);
}

#[test]
fn path_reaches_the_node_under_the_cursor() {
    let source = Source::new(String::new(), "local x = f(1 + y)");
    let mut lexer = Lexer::new(&source);
    let tokens = lexer.tokenize().unwrap();
    let stmts = Parser::new(&source, tokens).parse().unwrap();
    let path: Vec<&str> = ast_path_at(&stmts, 16).iter().map(|n| n.label).collect();
    assert_eq!(
        path,
        vec![
            "Program",
            "Binding",
            "ExpressionList",
            "FunctionCall",
            "ExpressionList",
            "Binary Operation",
            "Identifier",
        ]
    );
    let path: Vec<&str> = ast_path_at(&stmts, 6).iter().map(|n| n.label).collect();
    assert_eq!(path, vec!["Program", "Binding", "IdentifierList", "Identifier"]);
    let path: Vec<&str> = ast_path_at(&stmts, 10).iter().map(|n| n.label).collect();
    assert_eq!(path, vec!["Program", "Binding", "ExpressionList", "FunctionCall", "FunctionName"]);
    let path: Vec<&str> = ast_path_at(&stmts, 40).iter().map(|n| n.label).collect();
    assert_eq!(path, vec!["Program"]);
}

#[test]
fn path_into_blocks_and_types() {
    let text = "struct P x: int end\nfunction f(): int\n  if a then return 1 else return 2 end\nend";
    let source = Source::new(String::new(), text);
    let mut lexer = Lexer::new(&source);
    let stmts = Parser::new(&source, lexer.tokenize().unwrap()).parse().unwrap();
    let path: Vec<&str> = ast_path_at(&stmts, 9).iter().map(|n| n.label).collect();
    assert_eq!(path, vec!["Program", "TypeDef", "TypeFields", "TypeField", "FieldName"]);
    let offset = text.find("return 2").unwrap();
    let path: Vec<&str> = ast_path_at(&stmts, offset).iter().map(|n| n.label).collect();
    assert_eq!(path, vec!["Program", "FunctionDef", "StatementList", "If/Else", "StatementList", "Return"]);
}

#[test]
fn typing_and_deleting() {
    let mut editor = Editor::new("x = 1", (80, 24));
    assert_eq!(editor.handle_key(key(KeyCode::Char('y'))), KeyOutcome::Continue);
    assert_eq!(editor.ctx.source.content(), "yx = 1");
    assert_eq!(editor.editor_pane.0.cursor, 1);
    assert_eq!(editor.ctx.version, 2);
    assert!(editor.ctx.output.errors.is_empty());
    editor.handle_key(key(KeyCode::Backspace));
    assert_eq!(editor.ctx.source.content(), "x = 1");
    assert_eq!(editor.editor_pane.0.cursor, 0);
    editor.handle_key(key(KeyCode::Delete));
    assert_eq!(editor.ctx.source.content(), " = 1");
    assert_eq!(editor.ctx.output.errors.len(), 1);
    editor.handle_key(key(KeyCode::Tab));
    assert_eq!(editor.ctx.source.content(), "     = 1");
    assert_eq!(editor.editor_pane.0.cursor, 4);
    editor.handle_key(key(KeyCode::Enter));
    assert_eq!(editor.ctx.source.content(), "    \n = 1");
    assert_eq!(editor.editor_pane.0.cursor, 5);
}

#[test]
fn moving_by_character_line_and_token() {
    let mut editor = Editor::new("ab = 1\nc = 22", (80, 24));
    editor.handle_key(key(KeyCode::End));
    assert_eq!(editor.editor_pane.0.cursor, 6);
    editor.handle_key(key(KeyCode::Down));
    assert_eq!(editor.editor_pane.0.cursor, 13);
    editor.handle_key(key(KeyCode::Home));
    assert_eq!(editor.editor_pane.0.cursor, 7);
    editor.handle_key(key(KeyCode::Right));
    assert_eq!(editor.editor_pane.0.cursor, 8);
    editor.handle_key(ctrl(KeyCode::Right));
    assert_eq!(editor.editor_pane.0.cursor, 9);
    editor.handle_key(ctrl(KeyCode::Right));
    assert_eq!(editor.editor_pane.0.cursor, 11);
    editor.handle_key(ctrl(KeyCode::Left));
    assert_eq!(editor.editor_pane.0.cursor, 9);
    editor.handle_key(key(KeyCode::Up));
    assert_eq!(editor.editor_pane.0.cursor, 2);
    editor.handle_key(key(KeyCode::Left));
    editor.handle_key(key(KeyCode::Left));
    editor.handle_key(key(KeyCode::Left));
    assert_eq!(editor.editor_pane.0.cursor, 0);
}

#[test]
fn ctrl_backspace_deletes_a_token() {
    let mut editor = Editor::new("abc = 12", (80, 24));
    editor.handle_key(key(KeyCode::End));
    editor.handle_key(ctrl(KeyCode::Backspace));
    assert_eq!(editor.ctx.source.content(), "abc = ");
    assert_eq!(editor.editor_pane.0.cursor, 6);
}

#[test]
fn selecting_and_deleting_a_node() {
    let mut editor = Editor::new("x = 1\ny = 2", (80, 24));
    editor.handle_key(key(KeyCode::Down));
    assert_eq!(labels(&editor), vec!["Program", "Assign", "ExpressionList", "Identifier"]);
    editor.handle_key(alt(KeyCode::Up));
    assert_eq!(editor.ctx.ast_cursor, Some(3));
    editor.handle_key(alt(KeyCode::Up));
    editor.handle_key(alt(KeyCode::Up));
    assert_eq!(editor.ctx.ast_cursor, Some(1));
    editor.handle_key(alt(KeyCode::Down));
    assert_eq!(editor.ctx.ast_cursor, Some(2));
    editor.handle_key(alt(KeyCode::Up));
    editor.handle_key(key(KeyCode::Delete));
    assert_eq!(editor.ctx.source.content(), "x = 1\n");
    assert_eq!(editor.editor_pane.0.cursor, 6);
    assert_eq!(editor.ctx.ast_cursor, None);
}

#[test]
fn alt_arrows_jump_to_node_bounds() {
    let mut editor = Editor::new("x = 10", (80, 24));
    for _ in 0..5 {
        editor.handle_key(key(KeyCode::Right));
    }
    assert_eq!(editor.editor_pane.0.cursor, 5);
    assert_eq!(labels(&editor), vec!["Program", "Assign", "ExpressionList", "Integer"]);
    editor.handle_key(alt(KeyCode::Left));
    assert_eq!(editor.editor_pane.0.cursor, 4);
    editor.handle_key(alt(KeyCode::Right));
    assert_eq!(editor.editor_pane.0.cursor, 5);
    editor.handle_key(alt(KeyCode::Up));
    editor.handle_key(alt(KeyCode::Up));
    assert_eq!(editor.ctx.ast_cursor, Some(2));
    editor.handle_key(alt(KeyCode::Right));
    assert_eq!(editor.editor_pane.0.cursor, 6);
}

#[test]
fn editor_status_line() {
    let editor = Editor::new("local x = 1", (80, 24));
    assert_eq!(
        editor.editor_pane.status(&editor.ctx),
        " 1:1 │ Spanned { data: Local, span: Span { start: 0, end: 5 } } │ AST: Binding │ ✓ "
    );
    let mut editor = Editor::new("x = ", (80, 24));
    editor.handle_key(key(KeyCode::End));
    editor.handle_key(alt(KeyCode::Up));
    assert_eq!(editor.editor_pane.status(&editor.ctx), " 1:5 │ — │ AST: — │  ");
}

#[test]
fn status_of_a_selected_node() {
    let mut editor = Editor::new("y = 2", (80, 24));
    editor.handle_key(alt(KeyCode::Up));
    assert_eq!(editor.editor_pane.status(&editor.ctx), " 1:1 │ Spanned { data: Identifier(\"y\"), span: Span { start: 0, end: 1 } } │ AST [4/4] Identifier  0..1 │ ✓ ");
}

#[test]
fn switching_panes_and_quitting() {
    let mut editor = Editor::new("x = 1", (80, 24));
    assert_eq!(editor.handle_key(alt(KeyCode::Char('3'))), KeyOutcome::Switched(2));
    assert_eq!(editor.active, 2);
    assert_eq!(editor.handle_key(alt(KeyCode::Char('3'))), KeyOutcome::Continue);
    assert_eq!(editor.handle_key(alt(KeyCode::Char('9'))), KeyOutcome::Continue);
    assert_eq!(editor.handle_key(alt(KeyCode::Char('0'))), KeyOutcome::Switched(0));
    assert_eq!(editor.handle_key(alt(KeyCode::Char('2'))), KeyOutcome::Switched(1));
    editor.handle_key(key(KeyCode::Enter));
    assert_eq!(editor.log.content(), "\n");
    assert_eq!(editor.logs_pane.0.cursor, 1);
    assert_eq!(editor.ctx.source.content(), "x = 1");
    assert_eq!(editor.handle_key(ctrl(KeyCode::Char('c'))), KeyOutcome::Quit);
}

#[test]
fn text_panes_refresh_when_stale() {
    let mut pane = TextPane::new("Lexer");
    assert!(pane.needs_refresh(1));
    pane.on_focus(1, "line one\nline two");
    assert!(!pane.needs_refresh(1));
    assert_eq!(pane.source.content(), "line one\nline two");
    let ctx = Editor::new("", (80, 24)).ctx;
    pane.on_key(&ctx, key(KeyCode::Down));
    assert_eq!(pane.base.cursor, 9);
    assert_eq!(pane.status(), " 2:1 │ 17");
    pane.on_focus(1, "other");
    assert_eq!(pane.source.content(), "line one\nline two");
    pane.on_focus(2, "ab");
    assert_eq!(pane.base.cursor, 2);
}

#[test]
fn read_only_pane_scrolls_to_the_cursor() {
    let text: String = (0..30).map(|i| format!("line {i}\n")).collect();
    let source = Source::new(String::new(), &text);
    let mut base = BasePane::new();
    base.on_key(&source, key(KeyCode::PageDown), 10);
    assert_eq!(source.index_to_position(base.cursor).row, 20);
    assert_eq!(base.scroll_row, 11);
    base.on_key(&source, key(KeyCode::PageDown), 10);
    assert_eq!(source.index_to_position(base.cursor).row, 30);
    assert_eq!(base.scroll_row, 21);
    base.on_key(&source, key(KeyCode::PageUp), 10);
    assert_eq!(base.scroll_row, 10);
    base.move_cursor_by(&source, -1000);
    assert_eq!(base.cursor, 0);
    base.move_cursor_by(&source, 1000);
    assert_eq!(base.cursor, source.len());
    assert_eq!(base.status(&source), format!(" 31:1 │ {}", source.len()));
}

#[test]
fn logs_pane_jumps_to_the_end_on_focus() {
    let ctx = Editor::new("", (80, 24)).ctx;
    let log = Source::new(String::new(), "a\nb\n");
    let mut pane = LogsPane::new();
    pane.on_focus(&ctx, &log);
    assert_eq!(pane.0.cursor, 4);
    assert_eq!(pane.status(&log), " 3:1 │ 4");
    assert_eq!(pane.label(), "Logs");
}

#[test]
fn diagnostics_take_rows() {
    let editor = Editor::new("x = ", (80, 24));
    assert_eq!(editor.ctx.diagnostic_line_count(), 2);
    assert_eq!(editor.ctx.content_rows(), 20);
    let editor = Editor::new("x = 1", (80, 1));
    assert_eq!(editor.ctx.content_rows(), 0);
    assert!(editor.ctx.output.errors.is_empty());
}

#[test]
fn a_stalling_numeral_is_reported_as_unexpected() {
    let editor = Editor::new("x = ²", (80, 24));
    assert_eq!(editor.ctx.output.errors.len(), 1);
    assert_eq!(editor.ctx.output.errors[0].span, Span { start: 4, end: 5 });
    assert_eq!(editor.ctx.output.errors[0].message, "Unexpected character");
    assert!(matches!(editor.ctx.output.result, Err(lexer::Error::Unexpected(_))));
}

#[test]
fn the_last_strong_node() {
    let mut editor = Editor::new("x = 1", (80, 24));
    assert_eq!(editor.ctx.last_strong().map(|n| n.label), Some("Identifier"));
    editor.handle_key(key(KeyCode::Right));
    editor.handle_key(key(KeyCode::Right));
    assert_eq!(editor.ctx.last_strong().map(|n| n.label), Some("Assign"));
    let empty = Editor::new("", (80, 24));
    assert_eq!(empty.ctx.last_strong().map(|n| n.label), None);
    let pane = EditorPane::new();
    assert_eq!(pane.label(), "Editor");
}

#[test]
fn the_source_name_survives_editing() {
    let mut editor = Editor::from_source(Source::new("prog.lua".to_string(), "x = 1"), (80, 24));
    assert_eq!(editor.ctx.source.name, "prog.lua");
    editor.handle_key(key(KeyCode::Char('y')));
    editor.handle_key(key(KeyCode::Backspace));
    assert_eq!(editor.ctx.source.name, "prog.lua");
}
