use minilua::editor::{BasePane, Color, Editor, KeyCode, KeyInput};
use minilua::render::Cell;
use minilua::source::Source;

fn key(code: KeyCode) -> KeyInput {
    KeyInput { code, shift: false, ctrl: false, alt: false }
}

#[test]
fn tab_bar_lists_the_panes() {
    let editor = Editor::new("", (80, 24));
    let pieces: Vec<(String, bool)> = editor.tab_bar(80).into_iter().map(|p| (p.text, p.active)).collect();
    let texts: Vec<&str> = pieces.iter().map(|p| p.0.as_str()).collect();
    assert_eq!(
        texts,
        vec![
            "  │",
            " 1-Editor ",
            "│",
            " 2-Logs ",
            "│",
            " 3-Lexer ",
            "│",
            " 4-Parser ",
            "│",
            " 5-Resolution ",
            "│",
            " 6-Exec ",
            "│",
            "            ",
        ]
    );
    assert!(pieces[1].1);
    assert!(!pieces[3].1);
}

#[test]
fn tab_bar_is_cut_to_the_width() {
    let editor = Editor::new("", (20, 24));
    let texts: Vec<String> = editor.tab_bar(20).into_iter().map(|p| p.text).collect();
    assert_eq!(texts, vec!["  │", " 1-Editor ", "│", " 2-Lo…"]);
}

#[test]
fn diagnostic_rows_show_header_and_errors() {
    let editor = Editor::new("x = ", (80, 24));
    let rows = editor.ctx.diagnostic_rows(30, 3);
    assert_eq!(rows.len(), 2);
    assert_eq!(rows[0], format!("{:<30}", " 1 error"));
    assert!(rows[1].starts_with("  1:5 — "));
    assert_eq!(rows[1].chars().count(), 30);
    assert!(editor.ctx.diagnostic_rows(30, 0).is_empty());
    let clean = Editor::new("x = 1", (80, 24));
    assert_eq!(clean.ctx.diagnostic_rows(12, 2), vec![" 0 errors   ".to_string()]);
}

#[test]
fn read_only_rows_show_numbered_lines() {
    let source = Source::new(String::new(), "a\nbb\nccc");
    let pane = BasePane { cursor: 3, scroll_row: 1 };
    let rows = pane.visible_rows(&source, 5, 6);
    assert_eq!(rows.len(), 2);
    assert_eq!(rows[0].gutter, "  2 ");
    assert_eq!(rows[0].text, "bb");
    assert!(rows[0].current);
    assert_eq!(rows[1].gutter, "  3 ");
    assert_eq!(rows[1].text, "cc");
    assert!(!rows[1].current);
    let rows = pane.visible_rows(&source, 1, 10);
    assert_eq!(rows.len(), 1);
    assert_eq!(rows[0].text, "bb    ");
}

#[test]
fn editor_rows_color_tokens_and_mark_the_cursor() {
    let editor = Editor::new("x = 1", (80, 24));
    let rows = editor.editor_pane.visible_rows(&editor.ctx, 3, 12);
    assert_eq!(rows.len(), 1);
    assert_eq!(rows[0].gutter, "  1 ");
    let cells = &rows[0].cells;
    assert_eq!(cells.len(), 8);
    assert_eq!(cells[0], Cell { ch: 'x', fg: Some(Color::White), bg: Some(Color::DarkMagenta) });
    assert_eq!(cells[1], Cell { ch: ' ', fg: Some(Color::DarkGrey), bg: None });
    assert_eq!(cells[2], Cell { ch: '=', fg: Some(Color::AnsiValue(236)), bg: None });
    assert_eq!(cells[4], Cell { ch: '1', fg: Some(Color::DarkRed), bg: None });
    assert_eq!(cells[5], Cell { ch: ' ', fg: None, bg: None });
}

#[test]
fn cursor_at_the_end_of_a_line_is_a_block() {
    let mut editor = Editor::new("x = 1", (80, 24));
    editor.handle_key(key(KeyCode::End));
    let rows = editor.editor_pane.visible_rows(&editor.ctx, 3, 12);
    let cells = &rows[0].cells;
    assert_eq!(cells[0], Cell { ch: 'x', fg: Some(Color::DarkMagenta), bg: None });
    assert_eq!(cells[5], Cell { ch: ' ', fg: None, bg: Some(Color::Black) });
    assert_eq!(cells.len(), 8);
    editor.ctx.is_focus = false;
    let rows = editor.editor_pane.visible_rows(&editor.ctx, 3, 12);
    assert_eq!(rows[0].cells[5], Cell { ch: ' ', fg: None, bg: None });
}

#[test]
fn errors_are_marked_in_red() {
    let mut editor = Editor::new("x = @", (80, 24));
    editor.ctx.is_focus = false;
    let rows = editor.editor_pane.visible_rows(&editor.ctx, 3, 12);
    assert_eq!(rows[0].cells[4], Cell { ch: '@', fg: Some(Color::White), bg: Some(Color::Red) });
}
