use vstd::prelude::*;

use crate::ast::{expr_label, stmt_label, ArgDef, Element, Expr, FieldConstructor, Stmt};
use crate::lexer::{
    self, token_debug, token_debug_text, law_token_spans_ordered, law_tokens_end_with_eof, lemma_stall_inside, lexed, lexing_stops,
    run_from, stall_pos, tokenized, Lexer, Token,
};
use crate::grammar::{program_res, program_s};
use crate::parser::{self, skip_comments, Parser};
use crate::source::{
    index_at, lemma_index_at_inside, lemma_line_end_bounds, lemma_line_start_bounds, lemma_newlines_bound,
    line_end, line_start, newlines_before, Source, Span, Spanned,
};
use crate::text::{debug_str, decimal, push_str, str_debug, usize_to_string};

verus! {

// ---------------------------------------------------------------------------
// Palette
// ---------------------------------------------------------------------------

/// The colours the editor paints with.
#[derive(Debug, Clone, Copy, PartialEq, Eq, Structural)]
pub enum Color {
    Black,
    White,
    Grey,
    DarkGrey,
    Red,
    DarkRed,
    DarkGreen,
    DarkBlue,
    DarkMagenta,
    Cyan,
    AnsiValue(u8),
}

/// The foreground colour of a token: comments, literals, names, keywords,
/// operators, and everything else.
pub open spec fn token_color_spec(t: Token) -> Color {
    match t {
        Token::Comment => Color::Cyan,
        Token::Nil | Token::True | Token::False | Token::Integer(_) | Token::String(_) => Color::DarkRed,
        Token::Identifier(_) | Token::DoubleColon => Color::DarkMagenta,
        Token::Break | Token::For | Token::In | Token::End | Token::If | Token::Then | Token::Else
        | Token::ElseIf | Token::Function | Token::Local | Token::Return | Token::Struct => {
            Color::AnsiValue(130)
        },
        Token::Not | Token::And | Token::Or | Token::Add | Token::Minus | Token::Times
        | Token::Divide | Token::Modulo | Token::BitAnd | Token::BitOr | Token::BitXor
        | Token::LShift | Token::RShift | Token::EQ | Token::NE | Token::GT | Token::LT | Token::GE
        | Token::LE => Color::DarkGreen,
        _ => Color::AnsiValue(236),
    }
}

pub fn token_color(kind: &Token) -> (c: Color)
    ensures
        c == token_color_spec(*kind),
{
    match kind {
        Token::Comment => Color::Cyan,
        Token::Nil | Token::True | Token::False | Token::Integer(_) | Token::String(_) => Color::DarkRed,
        Token::Identifier(_) | Token::DoubleColon => Color::DarkMagenta,
        Token::Break | Token::For | Token::In | Token::End | Token::If | Token::Then | Token::Else
        | Token::ElseIf | Token::Function | Token::Local | Token::Return | Token::Struct => {
            Color::AnsiValue(130)
        },
        Token::Not | Token::And | Token::Or | Token::Add | Token::Minus | Token::Times
        | Token::Divide | Token::Modulo | Token::BitAnd | Token::BitOr | Token::BitXor
        | Token::LShift | Token::RShift | Token::EQ | Token::NE | Token::GT | Token::LT | Token::GE
        | Token::LE => Color::DarkGreen,
        _ => Color::AnsiValue(236),
    }
}

// ---------------------------------------------------------------------------
// Keys
// ---------------------------------------------------------------------------

/// The keys the editor reacts to; every other key is `Other`.
#[derive(Debug, Clone, Copy, PartialEq, Eq, Structural)]
pub enum KeyCode {
    Left,
    Right,
    Up,
    Down,
    Home,
    End,
    PageUp,
    PageDown,
    Tab,
    Enter,
    Backspace,
    Delete,
    Char(char),
    Other,
}

/// A key press with its modifiers.
#[derive(Debug, Clone, Copy, PartialEq, Eq, Structural)]
pub struct KeyInput {
    pub code: KeyCode,
    pub shift: bool,
    pub ctrl: bool,
    pub alt: bool,
}

// ---------------------------------------------------------------------------
// Diagnostics
// ---------------------------------------------------------------------------

/// An error shown under the text, at its span.
#[derive(Debug, Clone)]
pub struct Diagnostic {
    pub span: Span,
    pub message: String,
}

/// The diagnostic for a lexing error.
pub fn lex_error_info(error: &lexer::Error) -> (r: (Span, String))
    ensures
        match *error {
            lexer::Error::Unexpected(span) => r.0 == span && r.1@ == "Unexpected character"@,
        },
{
    match error {
        lexer::Error::Unexpected(span) => (*span, "Unexpected character".to_owned()),
    }
}

/// The message for a parse error that met an unexpected token.
pub open spec fn unexpected_message(
    message: Option<&'static str>,
    expected: Seq<String>,
    found: Token,
) -> Seq<char> {
    match message {
        Some(m) => if expected.len() > 0 {
            "Expected "@ + m@ + " ("@ + str_debug(expected[0]@) + "), found "@ + token_debug(found)
        } else {
            "Expected "@ + m@ + ", found "@ + token_debug(found)
        },
        None => if expected.len() > 0 {
            "Expected "@ + str_debug(expected[0]@) + ", found "@ + token_debug(found)
        } else {
            "Unexpected "@ + token_debug(found)
        },
    }
}

/// The span and message of the diagnostic for a parse error.
pub open spec fn parser_error_spec(e: parser::Error) -> (Span, Seq<char>) {
    match e {
        parser::Error::Todo { message, span } => (span, message@),
        parser::Error::Unexpected { message, expected, found, .. } => (
            found.span,
            unexpected_message(message, expected@, found.data),
        ),
    }
}

/// The diagnostic for a parse error.
pub fn parser_error_info(error: &parser::Error) -> (r: (Span, String))
    ensures
        (r.0, r.1@) == parser_error_spec(*error),
{
    match error {
        parser::Error::Todo { message, span } => (*span, (*message).to_owned()),
        parser::Error::Unexpected { message, expected, found, .. } => {
            let found_text = token_debug_text(&found.data);
            let mut msg: String;
            if let Some(m) = message {
                msg = "Expected ".to_owned();
                push_str(&mut msg, m);
                if expected.len() > 0 {
                    push_str(&mut msg, " (");
                    push_str(&mut msg, debug_str(expected[0].as_str()).as_str());
                    push_str(&mut msg, "), found ");
                } else {
                    push_str(&mut msg, ", found ");
                }
            } else if expected.len() > 0 {
                msg = "Expected ".to_owned();
                push_str(&mut msg, debug_str(expected[0].as_str()).as_str());
                push_str(&mut msg, ", found ");
            } else {
                msg = "Unexpected ".to_owned();
            }
            push_str(&mut msg, found_text.as_str());
            (found.span, msg)
        },
    }
}

// ---------------------------------------------------------------------------
// Padding
// ---------------------------------------------------------------------------

/// `n` spaces.
pub open spec fn spaces(n: nat) -> Seq<char> {
    Seq::new(n, |i: int| ' ')
}

/// `s` fitted to `width` characters: cut to one less and ended by an
/// ellipsis when it does not fit, else filled out with spaces.
pub open spec fn pad_spec(s: Seq<char>, width: nat) -> Seq<char> {
    if s.len() >= width {
        s.take(if width >= 1 { width - 1 } else { 0 }) + seq!['…']
    } else {
        s + spaces((width - s.len()) as nat)
    }
}

/// Fits `s` to `width` characters.
pub fn pad(s: &str, width: usize) -> (r: String)
    ensures
        r@ == pad_spec(s@, width as nat),
{
    let chars = crate::text::chars_of_str(s);
    let count = chars.len();
    let mut out: Vec<char> = Vec::new();
    if count >= width {
        let keep = if width >= 1 { width - 1 } else { 0 };
        let mut i: usize = 0;
        while i < keep
            invariant
                i <= keep <= count,
                count == chars@.len(),
                chars@ == s@,
                out@ == s@.take(i as int),
            decreases keep - i,
        {
            out.push(chars[i]);
            i += 1;
            assert(out@ =~= s@.take(i as int));
        }
        out.push('…');
        assert(out@ =~= pad_spec(s@, width as nat));
    } else {
        let mut i: usize = 0;
        while i < count
            invariant
                i <= count,
                count == chars@.len(),
                chars@ == s@,
                out@ == s@.take(i as int),
            decreases count - i,
        {
            out.push(chars[i]);
            i += 1;
            assert(out@ =~= s@.take(i as int));
        }
        let mut k: usize = count;
        while k < width
            invariant
                count <= k <= width,
                count == s@.len(),
                out@ == s@ + spaces((k - count) as nat),
            decreases width - k,
        {
            out.push(' ');
            k += 1;
            assert(out@ =~= s@ + spaces((k - count) as nat));
        }
        assert(s@.take(count as int) =~= s@);
    }
    crate::text::string_from_chars(&out)
}

/// A padded string has exactly `width` characters, and one when `width` is 0.
pub proof fn law_pad_width(s: Seq<char>, width: nat)
    ensures
        pad_spec(s, width).len() == if width >= 1 { width } else { 1 },
{
}


// ---------------------------------------------------------------------------
// Lightweight AST cursor
// ---------------------------------------------------------------------------

/// A node on the path from the program down to the cursor: a strong node is a
/// statement or an expression, a weak one a part of it (a name, a list).
#[derive(Debug, Clone, Copy)]
pub struct AstNode {
    pub label: &'static str,
    pub span: Span,
    pub weak: bool,
}

/// A node as label text, span and weakness.
pub type NodeView = (Seq<char>, Span, bool);

impl View for AstNode {
    type V = NodeView;

    open spec fn view(&self) -> NodeView {
        (self.label@, self.span, self.weak)
    }
}

pub open spec fn node(label: Seq<char>, span: Span, weak: bool) -> NodeView {
    (label, span, weak)
}

/// The nodes of a path, as views.
pub open spec fn path_view(p: Seq<AstNode>) -> Seq<NodeView> {
    p.map_values(|n: AstNode| n@)
}

pub open spec fn at(span: Span, c: int) -> bool {
    span.spec_contains(c)
}

/// The path into a statement that holds the cursor `c`.
pub open spec fn stmt_path(s: Spanned<Stmt>, c: int) -> Seq<NodeView>
    decreases s, 0int,
{
    seq![node(stmt_label(s.data), s.span, false)] + match s.data {
        Stmt::Break => Seq::empty(),
        Stmt::Return { expr } => match expr {
            Some(e) => if at(e.span, c) { expr_path(e, c) } else { Seq::empty() },
            None => Seq::empty(),
        },
        Stmt::Call { expr, args } => if at(expr.span, c) {
            seq![node("FunctionName"@, expr.span, true)]
        } else if at(args.span, c) {
            exprs_path(args, c)
        } else {
            Seq::empty()
        },
        Stmt::Binding { lhs, rhs } => if at(lhs.span, c) {
            idents_path(lhs, c)
        } else if at(rhs.span, c) {
            exprs_path(rhs, c)
        } else {
            Seq::empty()
        },
        Stmt::Assign { lhs, rhs } => if at(lhs.span, c) {
            exprs_path(lhs, c)
        } else if at(rhs.span, c) {
            exprs_path(rhs, c)
        } else {
            Seq::empty()
        },
        Stmt::If { condition, then_block, else_if_blocks, else_block } => if at(condition.span, c) {
            expr_path(*condition, c)
        } else if at(then_block.span, c) {
            stmts_path(then_block, c)
        } else {
            match else_ifs_path(else_if_blocks, c, 0) {
                Some(p) => p,
                None => match else_block {
                    Some(b) => if at(b.span, c) { stmts_path(b, c) } else { Seq::empty() },
                    None => Seq::empty(),
                },
            }
        },
        Stmt::ForNum { .. } => Seq::empty(),
        Stmt::TypeDef { name, fields } => if at(name.span, c) {
            seq![node("TypeName"@, name.span, true)]
        } else if at(fields.span, c) {
            seq![node("TypeFields"@, fields.span, true)] + type_fields_path(fields.data@, c, 0)
        } else {
            Seq::empty()
        },
        Stmt::FuncDef { name, body, .. } => if at(name.span, c) {
            seq![node("FunctionName"@, name.span, true)]
        } else if at(body.body.span, c) {
            stmts_path(body.body, c)
        } else {
            Seq::empty()
        },
    }
}

/// The path into the first `else if` clause, from the `i`-th on, whose
/// condition or block holds the cursor.
pub open spec fn else_ifs_path(
    v: Vec<(Spanned<Expr>, Spanned<Vec<Spanned<Stmt>>>)>,
    c: int,
    i: int,
) -> Option<Seq<NodeView>>
    decreases v, v.len() - i,
{
    if i < 0 || i >= v.len() {
        None
    } else {
        proof {
            vstd::std_specs::vec::axiom_vec_index_decreases(v, i);
        }
        if at(v[i].0.span, c) {
            Some(expr_path(v[i].0, c))
        } else if at(v[i].1.span, c) {
            Some(stmts_path(v[i].1, c))
        } else {
            else_ifs_path(v, c, i + 1)
        }
    }
}

/// The path into a block: the list, then the first statement holding the cursor.
pub open spec fn stmts_path(b: Spanned<Vec<Spanned<Stmt>>>, c: int) -> Seq<NodeView>
    decreases b, 0int,
{
    seq![node("StatementList"@, b.span, true)] + first_stmt_path(b.data, c, 0)
}

/// The path into the first statement, from the `i`-th on, that holds the cursor.
pub open spec fn first_stmt_path(v: Vec<Spanned<Stmt>>, c: int, i: int) -> Seq<NodeView>
    decreases v, v.len() - i,
{
    if i < 0 || i >= v.len() {
        Seq::empty()
    } else {
        proof {
            vstd::std_specs::vec::axiom_vec_index_decreases(v, i);
        }
        if at(v[i].span, c) {
            stmt_path(v[i], c)
        } else {
            first_stmt_path(v, c, i + 1)
        }
    }
}

/// The path into an expression list: the list, then the first expression
/// holding the cursor.
pub open spec fn exprs_path(l: Spanned<Vec<Spanned<Expr>>>, c: int) -> Seq<NodeView>
    decreases l, 0int,
{
    seq![node("ExpressionList"@, l.span, true)] + first_expr_path(l.data, c, 0)
}

/// The path into the first expression, from the `i`-th on, that holds the cursor.
pub open spec fn first_expr_path(v: Vec<Spanned<Expr>>, c: int, i: int) -> Seq<NodeView>
    decreases v, v.len() - i,
{
    if i < 0 || i >= v.len() {
        Seq::empty()
    } else {
        proof {
            vstd::std_specs::vec::axiom_vec_index_decreases(v, i);
        }
        if at(v[i].span, c) {
            expr_path(v[i], c)
        } else {
            first_expr_path(v, c, i + 1)
        }
    }
}

/// The path into a table's entries from the `i`-th on. An entry whose name
/// holds the cursor adds its name and lets the search go on.
pub open spec fn table_path(v: Vec<Spanned<Element>>, c: int, i: int) -> Seq<NodeView>
    decreases v, v.len() - i,
{
    if i < 0 || i >= v.len() {
        Seq::empty()
    } else {
        proof {
            vstd::std_specs::vec::axiom_vec_index_decreases(v, i);
        }
        if at(v[i].span, c) {
            match v[i].data {
                Element::Indexed(x) => expr_path(x, c),
                Element::Named { name, expr } => if at(name.span, c) {
                    seq![
                        node("TableEntry"@, v[i].span, true),
                        node("EntryName"@, name.span, true),
                    ] + table_path(v, c, i + 1)
                } else {
                    seq![node("TableEntry"@, v[i].span, true)] + if at(expr.span, c) {
                        expr_path(expr, c)
                    } else {
                        Seq::empty()
                    }
                },
            }
        } else {
            table_path(v, c, i + 1)
        }
    }
}

/// The path into the first field of a constructor, from the `i`-th on, that
/// holds the cursor.
pub open spec fn ctor_fields_path(v: Vec<Spanned<FieldConstructor>>, c: int, i: int) -> Seq<
    NodeView,
>
    decreases v, v.len() - i,
{
    if i < 0 || i >= v.len() {
        Seq::empty()
    } else {
        proof {
            vstd::std_specs::vec::axiom_vec_index_decreases(v, i);
        }
        if at(v[i].span, c) {
            match v[i].data {
                FieldConstructor::Implicit(_) => seq![
                    node("ImplicitFieldConstructor"@, v[i].span, true),
                ],
                FieldConstructor::Explicit { name, expr } => seq![
                    node("ExplicitFieldConstructor"@, v[i].span, true),
                ] + if at(name.span, c) {
                    seq![node("FieldConstructorName"@, name.span, true)]
                } else if at(expr.span, c) {
                    seq![node("FieldConstructorExpression"@, expr.span, true)] + expr_path(expr, c)
                } else {
                    Seq::empty()
                },
            }
        } else {
            ctor_fields_path(v, c, i + 1)
        }
    }
}

/// The path into an expression that holds the cursor `c`.
pub open spec fn expr_path(e: Spanned<Expr>, c: int) -> Seq<NodeView>
    decreases e, 0int,
{
    seq![node(expr_label(e.data), e.span, false)] + match e.data {
        Expr::Table { elements } => table_path(elements, c, 0),
        Expr::List { elements } => if at(elements.span, c) {
            exprs_path(elements, c)
        } else {
            Seq::empty()
        },
        Expr::TypeConstructor { name, fields } => if at(name.span, c) {
            seq![node("TypeName"@, name.span, true)]
        } else if at(fields.span, c) {
            seq![node("FieldConstructorList"@, fields.span, true)] + ctor_fields_path(fields.data, c, 0)
        } else {
            Seq::empty()
        },
        Expr::Call { expr, args } => if at(expr.span, c) {
            seq![node("FunctionName"@, expr.span, true)]
        } else if at(args.span, c) {
            exprs_path(args, c)
        } else {
            Seq::empty()
        },
        Expr::Member { expr, member } => if at(expr.span, c) {
            expr_path(*expr, c)
        } else if at(member.span, c) {
            seq![node("Member"@, member.span, true)]
        } else {
            Seq::empty()
        },
        Expr::Index { expr, index } => if at(expr.span, c) {
            expr_path(*expr, c)
        } else if at(index.span, c) {
            expr_path(*index, c)
        } else {
            Seq::empty()
        },
        Expr::UnOp { expr, .. } => if at(expr.span, c) {
            expr_path(*expr, c)
        } else {
            Seq::empty()
        },
        Expr::BinOp { rhs, lhs, .. } => if at(lhs.span, c) {
            expr_path(*lhs, c)
        } else if at(rhs.span, c) {
            expr_path(*rhs, c)
        } else {
            Seq::empty()
        },
        _ => Seq::empty(),
    }
}

/// The field of a type definition that holds the cursor, from the `i`-th on,
/// with its name or type where they hold it.
pub open spec fn type_fields_path(v: Seq<Spanned<ArgDef>>, c: int, i: int) -> Seq<NodeView>
    decreases v.len() - i,
{
    if i < 0 || i >= v.len() {
        Seq::empty()
    } else if at(v[i].span, c) {
        seq![node("TypeField"@, v[i].span, true)] + (if at(v[i].data.name.span, c) {
            seq![node("FieldName"@, v[i].data.name.span, true)]
        } else {
            Seq::empty()
        }) + (if at(v[i].data.typ.span, c) {
            seq![node("FieldType"@, v[i].data.typ.span, true)]
        } else {
            Seq::empty()
        })
    } else {
        type_fields_path(v, c, i + 1)
    }
}

/// The identifier list, then the first identifier, from the `i`-th on, that
/// holds the cursor.
pub open spec fn first_ident_path(v: Seq<Spanned<String>>, c: int, i: int) -> Seq<NodeView>
    decreases v.len() - i,
{
    if i < 0 || i >= v.len() {
        Seq::empty()
    } else if at(v[i].span, c) {
        seq![node("Identifier"@, v[i].span, true)]
    } else {
        first_ident_path(v, c, i + 1)
    }
}

pub open spec fn idents_path(l: Spanned<Vec<Spanned<String>>>, c: int) -> Seq<NodeView> {
    seq![node("IdentifierList"@, l.span, true)] + first_ident_path(l.data@, c, 0)
}

/// The span of a whole program: from the start of its first statement to the
/// end of its last, or empty at 0.
pub open spec fn program_span(stmts: Seq<Spanned<Stmt>>) -> Span {
    Span {
        start: if stmts.len() > 0 { stmts[0].span.start } else { 0 },
        end: if stmts.len() > 0 { stmts.last().span.end } else { 0 },
    }
}

/// The path from the program down to the cursor `c`.
pub open spec fn program_path(stmts: Vec<Spanned<Stmt>>, c: int) -> Seq<NodeView> {
    seq![node("Program"@, program_span(stmts@), true)] + first_stmt_path(stmts, c, 0)
}


proof fn lemma_path_view_push(p: Seq<AstNode>, n: AstNode)
    ensures
        path_view(p.push(n)) == path_view(p) + seq![n@],
{
    assert(path_view(p.push(n)) =~= path_view(p) + seq![n@]);
}

fn push_node(path: &mut Vec<AstNode>, label: &'static str, span: Span, weak: bool)
    ensures
        path_view(final(path)@) == path_view(old(path)@) + seq![node(label@, span, weak)],
{
    let n = AstNode { label, span, weak };
    proof {
        lemma_path_view_push(path@, n);
    }
    path.push(n);
}

/// Builds the path from the program down to the node under the cursor.
#[verifier::loop_isolation(false)]
pub fn ast_path_at(stmts: &Vec<Spanned<Stmt>>, cursor: usize) -> (path: Vec<AstNode>)
    ensures
        path_view(path@) == program_path(*stmts, cursor as int),
{
    let mut path: Vec<AstNode> = Vec::new();
    let start = if stmts.len() > 0 { stmts[0].span.start } else { 0 };
    let end = if stmts.len() > 0 { stmts[stmts.len() - 1].span.end } else { 0 };
    push_node(&mut path, "Program", Span { start, end }, true);
    let ghost head = path_view(path@);
    assert(head =~= seq![node("Program"@, program_span(stmts@), true)]);
    let mut i: usize = 0;
    while i < stmts.len()
        invariant
            i <= stmts@.len(),
            path_view(path@) == head,
            first_stmt_path(*stmts, cursor as int, i as int) == first_stmt_path(
                *stmts,
                cursor as int,
                0,
            ),
        decreases stmts@.len() - i,
    {
        if stmts[i].contains(cursor) {
            visit_stmt(&stmts[i], cursor, &mut path);
            return path;
        }
        i += 1;
    }
    assert(head + first_stmt_path(*stmts, cursor as int, 0) =~= head);
    path
}

fn visit_stmt(stmt: &Spanned<Stmt>, cursor: usize, path: &mut Vec<AstNode>)
    ensures
        path_view(final(path)@) == path_view(old(path)@) + stmt_path(*stmt, cursor as int),
    decreases stmt,
{
    let ghost c = cursor as int;
    let ghost p0 = path_view(path@);
    push_node(path, stmt.data.label(), stmt.span, false);
    let ghost p1 = path_view(path@);
    let ghost rest = stmt_path(*stmt, c).drop_first();
    assert(stmt_path(*stmt, c) =~= seq![node(stmt_label(stmt.data), stmt.span, false)] + rest);
    assert(p1 + rest =~= p0 + stmt_path(*stmt, c));
    match &stmt.data {
        Stmt::Break => {
            assert(p1 =~= p1 + rest);
        },
        Stmt::Return { expr } => {
            if let Some(expr) = expr {
                if expr.contains(cursor) {
                    visit_expr(expr, cursor, path);
                    return;
                }
            }
            assert(p1 =~= p1 + rest);
        },
        Stmt::Call { expr, args } => {
            if expr.contains(cursor) {
                push_node(path, "FunctionName", expr.span, true);
                return;
            }
            if args.contains(cursor) {
                visit_exprs(args, cursor, path);
                return;
            }
            assert(p1 =~= p1 + rest);
        },
        Stmt::Binding { lhs, rhs } => {
            if lhs.contains(cursor) {
                visit_idents(lhs, cursor, path);
                return;
            }
            if rhs.contains(cursor) {
                visit_exprs(rhs, cursor, path);
                return;
            }
            assert(p1 =~= p1 + rest);
        },
        Stmt::Assign { lhs, rhs } => {
            if lhs.contains(cursor) {
                visit_exprs(lhs, cursor, path);
                return;
            }
            if rhs.contains(cursor) {
                visit_exprs(rhs, cursor, path);
                return;
            }
            assert(p1 =~= p1 + rest);
        },
        Stmt::ForNum { .. } => {
            // the parts of a numeric for loop are not entered
            assert(p1 =~= p1 + rest);
        },
        Stmt::If { condition, then_block, else_if_blocks, else_block } => {
            if condition.contains(cursor) {
                visit_expr(condition, cursor, path);
                return;
            }
            if then_block.contains(cursor) {
                visit_stmts(then_block, cursor, path);
                return;
            }
            if visit_else_ifs(else_if_blocks, cursor, path) {
                return;
            }
            if let Some(else_block) = else_block {
                if else_block.contains(cursor) {
                    visit_stmts(else_block, cursor, path);
                    return;
                }
            }
            assert(p1 =~= p1 + rest);
        },
        Stmt::TypeDef { name, fields } => {
            if name.contains(cursor) {
                push_node(path, "TypeName", name.span, true);
                return;
            }
            if fields.contains(cursor) {
                push_node(path, "TypeFields", fields.span, true);
                let ghost p2 = path_view(path@);
                visit_type_fields(&fields.data, cursor, path);
                assert(p2 + type_fields_path(fields.data@, c, 0) =~= p1 + rest);
                return;
            }
            assert(p1 =~= p1 + rest);
        },
        Stmt::FuncDef { name, body, .. } => {
            if name.contains(cursor) {
                push_node(path, "FunctionName", name.span, true);
                return;
            }
            if body.body.contains(cursor) {
                visit_stmts(&body.body, cursor, path);
                return;
            }
            assert(p1 =~= p1 + rest);
        },
    }
}

/// Visits the first `else if` clause whose condition or block holds the
/// cursor, and tells whether there was one.
#[verifier::loop_isolation(false)]
fn visit_else_ifs(
    blocks: &Vec<(Spanned<Expr>, Spanned<Vec<Spanned<Stmt>>>)>,
    cursor: usize,
    path: &mut Vec<AstNode>,
) -> (found: bool)
    ensures
        match else_ifs_path(*blocks, cursor as int, 0) {
            Some(p) => found && path_view(final(path)@) == path_view(old(path)@) + p,
            None => !found && final(path)@ == old(path)@,
        },
    decreases blocks,
{
    let mut i: usize = 0;
    while i < blocks.len()
        invariant
            i <= blocks@.len(),
            path@ == old(path)@,
            else_ifs_path(*blocks, cursor as int, i as int) == else_ifs_path(
                *blocks,
                cursor as int,
                0,
            ),
        decreases blocks@.len() - i,
    {
        proof {
            vstd::std_specs::vec::axiom_vec_index_decreases(*blocks, i as int);
        }
        let (condition, block) = &blocks[i];
        if condition.contains(cursor) {
            visit_expr(condition, cursor, path);
            return true;
        }
        if block.contains(cursor) {
            visit_stmts(block, cursor, path);
            return true;
        }
        i += 1;
    }
    false
}

/// Visits the field of a type definition that holds the cursor.
#[verifier::loop_isolation(false)]
fn visit_type_fields(fields: &Vec<Spanned<ArgDef>>, cursor: usize, path: &mut Vec<AstNode>)
    ensures
        path_view(final(path)@) == path_view(old(path)@) + type_fields_path(fields@, cursor as int, 0),
{
    let ghost c = cursor as int;
    let ghost p0 = path_view(path@);
    let mut i: usize = 0;
    while i < fields.len()
        invariant
            i <= fields@.len(),
            path@ == old(path)@,
            type_fields_path(fields@, c, i as int) == type_fields_path(fields@, c, 0),
        decreases fields@.len() - i,
    {
        let field = &fields[i];
        if field.contains(cursor) {
            push_node(path, "TypeField", field.span, true);
            if field.data.name.contains(cursor) {
                push_node(path, "FieldName", field.data.name.span, true);
            }
            if field.data.typ.contains(cursor) {
                push_node(path, "FieldType", field.data.typ.span, true);
            }
            assert(path_view(path@) =~= p0 + type_fields_path(fields@, c, i as int));
            return;
        }
        i += 1;
    }
    assert(p0 =~= p0 + type_fields_path(fields@, c, 0));
}

fn visit_expr(expr: &Spanned<Expr>, cursor: usize, path: &mut Vec<AstNode>)
    ensures
        path_view(final(path)@) == path_view(old(path)@) + expr_path(*expr, cursor as int),
    decreases expr,
{
    let ghost c = cursor as int;
    let ghost p0 = path_view(path@);
    push_node(path, expr.data.label(), expr.span, false);
    let ghost p1 = path_view(path@);
    let ghost rest = expr_path(*expr, c).drop_first();
    assert(expr_path(*expr, c) =~= seq![node(expr_label(expr.data), expr.span, false)] + rest);
    assert(p1 + rest =~= p0 + expr_path(*expr, c));
    match &expr.data {
        Expr::Table { elements } => {
            visit_table(elements, cursor, path);
        },
        Expr::List { elements } => {
            if elements.contains(cursor) {
                visit_exprs(elements, cursor, path);
                return;
            }
            assert(p1 =~= p1 + rest);
        },
        Expr::TypeConstructor { name, fields } => {
            if name.contains(cursor) {
                push_node(path, "TypeName", name.span, true);
                return;
            }
            if fields.contains(cursor) {
                push_node(path, "FieldConstructorList", fields.span, true);
                let ghost p2 = path_view(path@);
                visit_ctor_fields(&fields.data, cursor, path);
                assert(p2 + ctor_fields_path(fields.data, c, 0) =~= p1 + rest);
                return;
            }
            assert(p1 =~= p1 + rest);
        },
        Expr::Call { expr, args } => {
            if expr.contains(cursor) {
                push_node(path, "FunctionName", expr.span, true);
                return;
            }
            if args.contains(cursor) {
                visit_exprs(args, cursor, path);
                return;
            }
            assert(p1 =~= p1 + rest);
        },
        Expr::Member { expr, member } => {
            if expr.contains(cursor) {
                visit_expr(expr, cursor, path);
                return;
            }
            if member.contains(cursor) {
                push_node(path, "Member", member.span, true);
                return;
            }
            assert(p1 =~= p1 + rest);
        },
        Expr::Index { expr, index } => {
            if expr.contains(cursor) {
                visit_expr(expr, cursor, path);
                return;
            }
            if index.contains(cursor) {
                visit_expr(index, cursor, path);
                return;
            }
            assert(p1 =~= p1 + rest);
        },
        Expr::UnOp { expr, .. } => {
            if expr.contains(cursor) {
                visit_expr(expr, cursor, path);
                return;
            }
            assert(p1 =~= p1 + rest);
        },
        Expr::BinOp { rhs, lhs, .. } => {
            if lhs.contains(cursor) {
                visit_expr(lhs, cursor, path);
                return;
            }
            if rhs.contains(cursor) {
                visit_expr(rhs, cursor, path);
                return;
            }
            assert(p1 =~= p1 + rest);
        },
        _ => {
            // literals and names have no parts; a function expression is not entered
            assert(p1 =~= p1 + rest);
        },
    }
}

/// Visits the entries of a table that hold the cursor.
#[verifier::loop_isolation(false)]
fn visit_table(elements: &Vec<Spanned<Element>>, cursor: usize, path: &mut Vec<AstNode>)
    ensures
        path_view(final(path)@) == path_view(old(path)@) + table_path(*elements, cursor as int, 0),
    decreases elements,
{
    let ghost c = cursor as int;
    let ghost p0 = path_view(path@);
    let mut i: usize = 0;
    while i < elements.len()
        invariant
            i <= elements@.len(),
            path_view(path@) + table_path(*elements, c, i as int) == p0 + table_path(
                *elements,
                c,
                0,
            ),
        decreases elements@.len() - i,
    {
        proof {
            vstd::std_specs::vec::axiom_vec_index_decreases(*elements, i as int);
        }
        let e = &elements[i];
        if e.contains(cursor) {
            let ghost before = path_view(path@);
            match &e.data {
                Element::Indexed(x) => {
                    visit_expr(x, cursor, path);
                    return;
                },
                Element::Named { name, expr } => {
                    push_node(path, "TableEntry", e.span, true);
                    if name.contains(cursor) {
                        push_node(path, "EntryName", name.span, true);
                        i += 1;
                        assert(path_view(path@) + table_path(*elements, c, i as int) =~= before
                            + table_path(*elements, c, (i - 1) as int));
                        continue;
                    }
                    if expr.contains(cursor) {
                        let ghost mid = path_view(path@);
                        visit_expr(expr, cursor, path);
                        assert(mid + expr_path(*expr, c) =~= before + table_path(
                            *elements,
                            c,
                            i as int,
                        ));
                        return;
                    }
                    assert(path_view(path@) =~= before + table_path(*elements, c, i as int));
                    return;
                },
            }
        }
        i += 1;
    }
    assert(path_view(path@) =~= path_view(path@) + table_path(*elements, c, i as int));
}

/// Visits the field of a constructor that holds the cursor.
#[verifier::loop_isolation(false)]
fn visit_ctor_fields(fields: &Vec<Spanned<FieldConstructor>>, cursor: usize, path: &mut Vec<AstNode>)
    ensures
        path_view(final(path)@) == path_view(old(path)@) + ctor_fields_path(*fields, cursor as int, 0),
    decreases fields,
{
    let ghost c = cursor as int;
    let ghost p0 = path_view(path@);
    let mut i: usize = 0;
    while i < fields.len()
        invariant
            i <= fields@.len(),
            path@ == old(path)@,
            ctor_fields_path(*fields, c, i as int) == ctor_fields_path(*fields, c, 0),
        decreases fields@.len() - i,
    {
        proof {
            vstd::std_specs::vec::axiom_vec_index_decreases(*fields, i as int);
        }
        let field = &fields[i];
        if field.contains(cursor) {
            match &field.data {
                FieldConstructor::Implicit(_) => {
                    push_node(path, "ImplicitFieldConstructor", field.span, true);
                },
                FieldConstructor::Explicit { name, expr } => {
                    push_node(path, "ExplicitFieldConstructor", field.span, true);
                    let ghost p1 = path_view(path@);
                    if name.contains(cursor) {
                        push_node(path, "FieldConstructorName", name.span, true);
                        assert(path_view(path@) =~= p0 + ctor_fields_path(*fields, c, i as int));
                        return;
                    }
                    if expr.contains(cursor) {
                        push_node(path, "FieldConstructorExpression", expr.span, true);
                        let ghost p2 = path_view(path@);
                        visit_expr(expr, cursor, path);
                        assert(p2 + expr_path(*expr, c) =~= p0 + ctor_fields_path(
                            *fields,
                            c,
                            i as int,
                        ));
                        return;
                    }
                    assert(p1 =~= p0 + ctor_fields_path(*fields, c, i as int));
                },
            }
            return;
        }
        i += 1;
    }
    assert(p0 =~= p0 + ctor_fields_path(*fields, c, 0));
}

#[verifier::loop_isolation(false)]
fn visit_idents(idents: &Spanned<Vec<Spanned<String>>>, cursor: usize, path: &mut Vec<AstNode>)
    ensures
        path_view(final(path)@) == path_view(old(path)@) + idents_path(*idents, cursor as int),
{
    let ghost c = cursor as int;
    let ghost p0 = path_view(path@);
    push_node(path, "IdentifierList", idents.span, true);
    let ghost p1 = path_view(path@);
    let mut i: usize = 0;
    while i < idents.data.len()
        invariant
            i <= idents.data@.len(),
            path_view(path@) == p1,
            first_ident_path(idents.data@, c, i as int) == first_ident_path(idents.data@, c, 0),
        decreases idents.data@.len() - i,
    {
        let ident = &idents.data[i];
        if ident.contains(cursor) {
            push_node(path, "Identifier", ident.span, true);
            assert(path_view(path@) =~= p0 + idents_path(*idents, c));
            return;
        }
        i += 1;
    }
    assert(path_view(path@) =~= p0 + idents_path(*idents, c));
}

#[verifier::loop_isolation(false)]
fn visit_exprs(exprs: &Spanned<Vec<Spanned<Expr>>>, cursor: usize, path: &mut Vec<AstNode>)
    ensures
        path_view(final(path)@) == path_view(old(path)@) + exprs_path(*exprs, cursor as int),
    decreases exprs,
{
    let ghost c = cursor as int;
    let ghost p0 = path_view(path@);
    push_node(path, "ExpressionList", exprs.span, true);
    let ghost p1 = path_view(path@);
    let mut i: usize = 0;
    while i < exprs.data.len()
        invariant
            i <= exprs.data@.len(),
            path_view(path@) == p1,
            first_expr_path(exprs.data, c, i as int) == first_expr_path(exprs.data, c, 0),
        decreases exprs.data@.len() - i,
    {
        proof {
            vstd::std_specs::vec::axiom_vec_index_decreases(exprs.data, i as int);
        }
        if exprs.data[i].contains(cursor) {
            visit_expr(&exprs.data[i], cursor, path);
            assert(p1 + first_expr_path(exprs.data, c, 0) =~= p0 + exprs_path(*exprs, c));
            return;
        }
        i += 1;
    }
    assert(path_view(path@) =~= p0 + exprs_path(*exprs, c));
}

#[verifier::loop_isolation(false)]
fn visit_stmts(stmts: &Spanned<Vec<Spanned<Stmt>>>, cursor: usize, path: &mut Vec<AstNode>)
    ensures
        path_view(final(path)@) == path_view(old(path)@) + stmts_path(*stmts, cursor as int),
    decreases stmts,
{
    let ghost c = cursor as int;
    let ghost p0 = path_view(path@);
    push_node(path, "StatementList", stmts.span, true);
    let ghost p1 = path_view(path@);
    let mut i: usize = 0;
    while i < stmts.data.len()
        invariant
            i <= stmts.data@.len(),
            path_view(path@) == p1,
            first_stmt_path(stmts.data, c, i as int) == first_stmt_path(stmts.data, c, 0),
        decreases stmts.data@.len() - i,
    {
        proof {
            vstd::std_specs::vec::axiom_vec_index_decreases(stmts.data, i as int);
        }
        if stmts.data[i].contains(cursor) {
            visit_stmt(&stmts.data[i], cursor, path);
            assert(p1 + first_stmt_path(stmts.data, c, 0) =~= p0 + stmts_path(*stmts, c));
            return;
        }
        i += 1;
    }
    assert(path_view(path@) =~= p0 + stmts_path(*stmts, c));
}


// ---------------------------------------------------------------------------
// Compiler output
// ---------------------------------------------------------------------------

/// What compiling the text gave: the tokens and the statements, or the first
/// error met, with its diagnostic.
pub struct CompilerOutput {
    pub errors: Vec<Diagnostic>,
    pub result: Result<
        (Vec<Spanned<Token>>, Result<Vec<Spanned<Stmt>>, parser::Error>),
        lexer::Error,
    >,
}

pub open spec fn tokens_of(
    r: Result<(Vec<Spanned<Token>>, Result<Vec<Spanned<Stmt>>, parser::Error>), lexer::Error>,
) -> Seq<Spanned<Token>> {
    match r {
        Ok((t, _)) => t@,
        Err(_) => Seq::empty(),
    }
}

impl CompilerOutput {
    /// The tokens, or none when lexing failed.
    pub fn tokens(&self) -> (r: &[Spanned<Token>])
        ensures
            r@ == tokens_of(self.result),
    {
        match &self.result {
            Ok((tokens, _)) => tokens.as_slice(),
            Err(_) => &[],
        }
    }
}

/// The error that lexing `s` stops on: where the lexer would be caught on a
/// token that takes no character, the character there is refused.
pub open spec fn lex_failure(s: Seq<char>, e: lexer::Error) -> bool {
    ||| !lexing_stops(s, 0) && e == lexer::Error::Unexpected(
        Span { start: stall_pos(s, 0) as usize, end: (stall_pos(s, 0) + 1) as usize },
    )
    ||| run_from(s, 0) matches Some((false, p)) && exists|q: int| lexed(s, p, Err(e), q)
}

/// `out` is what compiling the text `s` gives.
pub open spec fn compiled(s: Seq<char>, out: CompilerOutput) -> bool {
    &&& match out.result {
        Err(e) => lex_failure(s, e),
        Ok((toks, r)) => {
            &&& run_from(s, 0) matches Some((true, _))
            &&& tokenized(s, 0, toks@)
            &&& program_res(r) == program_s(toks@, skip_comments(toks@, 0), Seq::empty()).0
        },
    }
    &&& match out.result {
        Err(lexer::Error::Unexpected(span)) => {
            &&& out.errors@.len() == 1
            &&& out.errors@[0].span == span
            &&& out.errors@[0].message@ == "Unexpected character"@
        },
        Ok((_, Err(e))) => {
            &&& out.errors@.len() == 1
            &&& (out.errors@[0].span, out.errors@[0].message@) == parser_error_spec(e)
        },
        Ok((_, Ok(_))) => out.errors@.len() == 0,
    }
}

/// The tokens of a text lie inside it.
pub open spec fn tokens_inside(toks: Seq<Spanned<Token>>, len: int) -> bool {
    forall|i: int|
        0 <= i < toks.len() ==> (#[trigger] toks[i]).span.start <= toks[i].span.end <= len
}

pub proof fn lemma_compiled_tokens_inside(s: Seq<char>, out: CompilerOutput)
    requires
        compiled(s, out),
    ensures
        tokens_inside(tokens_of(out.result), s.len() as int),
{
    if let Ok((toks, _)) = out.result {
        law_token_spans_ordered(s, 0, toks@);
    }
}

fn duplicate_tokens(tokens: &Vec<Spanned<Token>>) -> (r: Vec<Spanned<Token>>)
    ensures
        r@ == tokens@,
{
    let mut out: Vec<Spanned<Token>> = Vec::new();
    let mut i: usize = 0;
    while i < tokens.len()
        invariant
            i <= tokens@.len(),
            out@ == tokens@.take(i as int),
        decreases tokens@.len() - i,
    {
        out.push(tokens[i].duplicate());
        i += 1;
        assert(out@ =~= tokens@.take(i as int));
    }
    assert(tokens@.take(i as int) =~= tokens@);
    out
}

/// Lexes and parses the text, stopping at the first error.
fn compile(source: &Source) -> (out: CompilerOutput)
    ensures
        compiled(source@, out),
{
    let mut errors: Vec<Diagnostic> = Vec::new();
    let n = source.len();
    let mut lexer = Lexer::new(source);
    let res = lexer.try_tokenize();
    assert(res is Err ==> !lexing_stops(source@, 0));
    let tokens = match res {
        Err(p) => {
            proof {
                lemma_stall_inside(source@, 0);
            }
            assert(p < n);
            let error = lexer::Error::Unexpected(Span { start: p, end: p + 1 });
            let (span, message) = lex_error_info(&error);
            errors.push(Diagnostic { span, message });
            return CompilerOutput { errors, result: Err(error) };
        },
        Ok(Err(error)) => {
            let (span, message) = lex_error_info(&error);
            errors.push(Diagnostic { span, message });
            return CompilerOutput { errors, result: Err(error) };
        },
        Ok(Ok(tokens)) => tokens,
    };
    proof {
        law_tokens_end_with_eof(source@, 0, tokens@);
    }
    let mut parser = Parser::new(source, duplicate_tokens(&tokens));
    match parser.parse() {
        Ok(stmts) => CompilerOutput { errors, result: Ok((tokens, Ok(stmts))) },
        Err(error) => {
            let (span, message) = parser_error_info(&error);
            errors.push(Diagnostic { span, message });
            CompilerOutput { errors, result: Ok((tokens, Err(error))) }
        },
    }
}

// ---------------------------------------------------------------------------
// Editor state
// ---------------------------------------------------------------------------

/// What the panes share: the text, what compiling it gave, and the path from
/// the program down to the cursor with the node selected on it.
pub struct EditorContext {
    pub version: u64,
    pub source: Source,
    pub is_focus: bool,
    pub output: CompilerOutput,
    pub ast_path: Vec<AstNode>,
    pub ast_cursor: Option<usize>,
    pub term_size: (u16, u16),
}

/// Index of the last strong node of a path, or -1.
pub open spec fn last_strong_index(p: Seq<AstNode>, n: int) -> int
    decreases n,
{
    if n <= 0 {
        -1
    } else if !p[n - 1].weak {
        n - 1
    } else {
        last_strong_index(p, n - 1)
    }
}

/// The selection one node up the path (towards the program).
pub open spec fn navigated_up(cursor: Option<usize>, len: int) -> Option<usize> {
    if len == 0 {
        None
    } else {
        match cursor {
            Some(i) => Some(if i >= 1 { (i - 1) as usize } else { 0 }),
            None => Some((len - 1) as usize),
        }
    }
}

/// The selection one node down the path (towards the cursor).
pub open spec fn navigated_down(cursor: Option<usize>, len: int) -> Option<usize> {
    if len == 0 {
        None
    } else {
        match cursor {
            Some(i) => Some(if i + 1 <= len - 1 { (i + 1) as usize } else { (len - 1) as usize }),
            None => Some((len - 1) as usize),
        }
    }
}

/// Lines that the diagnostics take under the text: a header and one line per
/// error, six at most.
pub open spec fn diagnostic_lines(errors: int) -> int {
    if errors == 0 {
        0
    } else if 1 + errors <= 6 {
        1 + errors
    } else {
        6
    }
}

impl EditorContext {
    /// What holds of every state the editor is in.
    pub open spec fn wf(&self) -> bool {
        &&& compiled(self.source@, self.output)
        &&& self.ast_cursor matches Some(i) ==> i < self.ast_path@.len()
    }

    /// The last strong node of the path: the innermost statement or
    /// expression under the cursor.
    pub fn last_strong(&self) -> (r: Option<&AstNode>)
        ensures
            match r {
                Some(n) => last_strong_index(self.ast_path@, self.ast_path@.len() as int) >= 0
                    && *n == self.ast_path@[last_strong_index(
                    self.ast_path@,
                    self.ast_path@.len() as int,
                )],
                None => last_strong_index(self.ast_path@, self.ast_path@.len() as int) == -1,
            },
    {
        let mut i = self.ast_path.len();
        while i > 0
            invariant
                i <= self.ast_path@.len(),
                last_strong_index(self.ast_path@, i as int) == last_strong_index(
                    self.ast_path@,
                    self.ast_path@.len() as int,
                ),
            decreases i,
        {
            if !self.ast_path[i - 1].weak {
                return Some(&self.ast_path[i - 1]);
            }
            i -= 1;
        }
        None
    }

    pub fn ast_navigate_up(&mut self)
        ensures
            final(self).ast_cursor == navigated_up(old(self).ast_cursor, old(self).ast_path@.len() as int),
            final(self).ast_path == old(self).ast_path,
            final(self).source == old(self).source,
            final(self).output == old(self).output,
            final(self).version == old(self).version,
            final(self).is_focus == old(self).is_focus,
            final(self).term_size == old(self).term_size,
    {
        let len = self.ast_path.len();
        self.ast_cursor = if len == 0 {
            None
        } else {
            match self.ast_cursor {
                Some(i) => Some(if i >= 1 { i - 1 } else { 0 }),
                None => Some(len - 1),
            }
        };
    }

    pub fn ast_navigate_down(&mut self)
        ensures
            final(self).ast_cursor == navigated_down(old(self).ast_cursor, old(self).ast_path@.len() as int),
            final(self).ast_path == old(self).ast_path,
            final(self).source == old(self).source,
            final(self).output == old(self).output,
            final(self).version == old(self).version,
            final(self).is_focus == old(self).is_focus,
            final(self).term_size == old(self).term_size,
    {
        let len = self.ast_path.len();
        self.ast_cursor = if len == 0 {
            None
        } else {
            match self.ast_cursor {
                Some(i) => Some(if i < len - 1 { i + 1 } else { len - 1 }),
                None => Some(len - 1),
            }
        };
    }

    /// Compiles the text again.
    pub fn recompile(&mut self)
        ensures
            compiled(final(self).source@, final(self).output),
            final(self).source == old(self).source,
            final(self).ast_path == old(self).ast_path,
            final(self).ast_cursor == old(self).ast_cursor,
            final(self).version == old(self).version,
            final(self).is_focus == old(self).is_focus,
            final(self).term_size == old(self).term_size,
    {
        self.output = compile(&self.source);
    }

    /// Rows left for the active pane: the terminal less the tab bar, the
    /// status line and the diagnostics.
    pub fn content_rows(&self) -> (r: u16)
        ensures
            r as int == if self.term_size.1 >= 2 + diagnostic_lines(self.output.errors@.len() as int) {
                self.term_size.1 - 2 - diagnostic_lines(self.output.errors@.len() as int)
            } else {
                0
            },
    {
        let reserved = 2u16 + self.diagnostic_line_count() as u16;
        self.term_size.1.saturating_sub(reserved)
    }

    pub fn diagnostic_line_count(&self) -> (r: usize)
        ensures
            r == diagnostic_lines(self.output.errors@.len() as int),
    {
        let n = self.output.errors.len();
        if n == 0 {
            0
        } else if n <= 5 {
            1 + n
        } else {
            6
        }
    }
}


// ---------------------------------------------------------------------------
// Panes
// ---------------------------------------------------------------------------

pub open spec fn clamp(x: int, lo: int, hi: int) -> int {
    if x < lo {
        lo
    } else if x > hi {
        hi
    } else {
        x
    }
}

/// The offset `delta` characters from `cursor`, kept within the text.
pub open spec fn moved_by(len: int, cursor: int, delta: int) -> int {
    clamp(cursor + delta, 0, len)
}

/// The offset `delta` rows from `cursor`, in the same column where the line
/// is long enough, the row kept within the text.
pub open spec fn moved_line(s: Seq<char>, cursor: int, delta: int) -> int {
    let row = clamp(
        newlines_before(s, cursor) + delta,
        0,
        newlines_before(s, s.len() as int) as int,
    );
    index_at(s, row as nat, (cursor - line_start(s, cursor)) as nat)
}

/// Where a key moves the cursor of a read-only pane.
pub open spec fn key_cursor(s: Seq<char>, cursor: int, code: KeyCode) -> int {
    match code {
        KeyCode::Left => moved_by(s.len() as int, cursor, -1),
        KeyCode::Right => moved_by(s.len() as int, cursor, 1),
        KeyCode::Up => moved_line(s, cursor, -1),
        KeyCode::Down => moved_line(s, cursor, 1),
        KeyCode::Home => line_start(s, cursor),
        KeyCode::End => line_end(s, cursor),
        KeyCode::Enter => moved_line(s, cursor, 1),
        KeyCode::Backspace => moved_line(s, cursor, -1),
        KeyCode::PageUp => moved_line(s, cursor, -20),
        KeyCode::PageDown => moved_line(s, cursor, 20),
        _ => cursor,
    }
}

/// The first row shown once the row of `cursor` is brought into a view of
/// `rows` rows that started at `scroll`.
pub open spec fn scrolled(s: Seq<char>, cursor: int, scroll: int, rows: int) -> int {
    let row = newlines_before(s, cursor) as int;
    if row < scroll {
        row
    } else if row >= scroll + rows {
        row + 1 - rows
    } else {
        scroll
    }
}

/// The status of a pane: row and column of the cursor, counted from 1, and
/// the length of the text.
pub open spec fn base_status(s: Seq<char>, cursor: int) -> Seq<char> {
    " "@ + decimal(newlines_before(s, cursor) + 1int) + ":"@ + decimal(cursor - line_start(s, cursor) + 1)
        + " │ "@ + decimal(s.len() as int)
}

/// A cursor over a text and the first row shown of it.
pub struct BasePane {
    pub cursor: usize,
    pub scroll_row: usize,
}

impl BasePane {
    pub fn new() -> (r: BasePane)
        ensures
            r.cursor == 0,
            r.scroll_row == 0,
    {
        BasePane { cursor: 0, scroll_row: 0 }
    }

    pub fn status(&self, source: &Source) -> (r: String)
        requires
            self.cursor <= source@.len() < usize::MAX,
        ensures
            r@ == base_status(source@, self.cursor as int),
    {
        let pos = source.index_to_position(self.cursor);
        proof {
            lemma_newlines_bound(source@, self.cursor as int);
            lemma_line_start_bounds(source@, self.cursor as int);
        }
        let mut out = " ".to_owned();
        push_str(&mut out, usize_to_string(pos.row + 1).as_str());
        push_str(&mut out, ":");
        push_str(&mut out, usize_to_string(pos.col + 1).as_str());
        push_str(&mut out, " │ ");
        push_str(&mut out, usize_to_string(source.len()).as_str());
        out
    }

    /// Moves the cursor for a key and brings it into view.
    pub fn on_key(&mut self, source: &Source, key: KeyInput, rows: usize)
        requires
            old(self).cursor <= source@.len() < usize::MAX,
        ensures
            final(self).cursor == key_cursor(source@, old(self).cursor as int, key.code),
            final(self).scroll_row == scrolled(
                source@,
                final(self).cursor as int,
                old(self).scroll_row as int,
                rows as int,
            ),
            final(self).cursor <= source@.len(),
    {
        match key.code {
            KeyCode::Left => self.move_cursor_by(source, -1),
            KeyCode::Right => self.move_cursor_by(source, 1),
            KeyCode::Up => self.move_cursor_line(source, -1),
            KeyCode::Down => self.move_cursor_line(source, 1),
            KeyCode::Home => self.move_cursor_home(source),
            KeyCode::End => self.move_cursor_end(source),
            KeyCode::Enter => self.move_cursor_line(source, 1),
            KeyCode::Backspace => self.move_cursor_line(source, -1),
            KeyCode::PageUp => self.move_cursor_line(source, -20),
            KeyCode::PageDown => self.move_cursor_line(source, 20),
            _ => {},
        }
        self.update_scroll(source, rows);
    }

    /// Scrolls so that the row of the cursor is one of the `rows` rows shown.
    pub fn update_scroll(&mut self, source: &Source, rows: usize)
        requires
            old(self).cursor <= source@.len() < usize::MAX,
        ensures
            final(self).cursor == old(self).cursor,
            final(self).scroll_row == scrolled(
                source@,
                old(self).cursor as int,
                old(self).scroll_row as int,
                rows as int,
            ),
    {
        let row = source.index_to_position(self.cursor).row;
        proof {
            lemma_newlines_bound(source@, self.cursor as int);
        }
        if row < self.scroll_row {
            self.scroll_row = row;
        } else if row - self.scroll_row >= rows {
            self.scroll_row = row - rows + 1;
        }
    }

    pub fn move_cursor_by(&mut self, source: &Source, delta: isize)
        requires
            old(self).cursor <= source@.len(),
        ensures
            final(self).cursor == moved_by(source@.len() as int, old(self).cursor as int, delta as int),
            final(self).cursor <= source@.len(),
            final(self).scroll_row == old(self).scroll_row,
    {
        let target: i128 = self.cursor as i128 + delta as i128;
        let len = source.len();
        self.cursor = if target < 0 {
            0
        } else if target > len as i128 {
            len
        } else {
            target as usize
        };
    }

    pub fn move_cursor_line(&mut self, source: &Source, delta: isize)
        requires
            old(self).cursor <= source@.len() < usize::MAX,
        ensures
            final(self).cursor == moved_line(source@, old(self).cursor as int, delta as int),
            final(self).cursor <= source@.len(),
            final(self).scroll_row == old(self).scroll_row,
    {
        let pos = source.index_to_position(self.cursor);
        let last = source.line_count() - 1;
        proof {
            lemma_newlines_bound(source@, self.cursor as int);
            lemma_line_start_bounds(source@, self.cursor as int);
        }
        let target: i128 = pos.row as i128 + delta as i128;
        let row: usize = if target < 0 {
            0
        } else if target > last as i128 {
            last
        } else {
            target as usize
        };
        self.cursor = source.position_to_index(row, pos.col);
        proof {
            lemma_index_at_inside(source@, row as nat, pos.col as nat);
        }
    }

    pub fn move_cursor_home(&mut self, source: &Source)
        requires
            old(self).cursor <= source@.len(),
        ensures
            final(self).cursor == line_start(source@, old(self).cursor as int),
            final(self).cursor <= source@.len(),
            final(self).scroll_row == old(self).scroll_row,
    {
        proof {
            lemma_line_start_bounds(source@, self.cursor as int);
        }
        self.cursor = source.index_to_position(self.cursor).line_start;
    }

    pub fn move_cursor_end(&mut self, source: &Source)
        requires
            old(self).cursor <= source@.len(),
        ensures
            final(self).cursor == line_end(source@, old(self).cursor as int),
            final(self).cursor <= source@.len(),
            final(self).scroll_row == old(self).scroll_row,
    {
        proof {
            lemma_line_end_bounds(source@, self.cursor as int);
        }
        self.cursor = source.index_to_position(self.cursor).line_end;
    }
}

/// Where the cursor stays within the text, every key keeps it there.
pub proof fn law_key_keeps_cursor_inside(s: Seq<char>, cursor: int, code: KeyCode)
    requires
        0 <= cursor <= s.len(),
    ensures
        0 <= key_cursor(s, cursor, code) <= s.len(),
{
    lemma_line_start_bounds(s, cursor);
    lemma_line_end_bounds(s, cursor);
    let nb = newlines_before(s, cursor) as int;
    let last = newlines_before(s, s.len() as int) as int;
    let col = (cursor - line_start(s, cursor)) as nat;
    lemma_index_at_inside(s, clamp(nb + 1, 0, last) as nat, col);
    lemma_index_at_inside(s, clamp(nb - 1, 0, last) as nat, col);
    lemma_index_at_inside(s, clamp(nb + 20, 0, last) as nat, col);
    lemma_index_at_inside(s, clamp(nb - 20, 0, last) as nat, col);
}

/// After scrolling, the row of the cursor is among the rows shown.
pub proof fn law_scroll_shows_cursor(s: Seq<char>, cursor: int, scroll: int, rows: int)
    requires
        rows > 0,
        scroll >= 0,
    ensures
        scrolled(s, cursor, scroll, rows) <= newlines_before(s, cursor) < scrolled(s, cursor, scroll, rows) + rows,
        scrolled(s, cursor, scroll, rows) >= 0,
{
}


// ---------------------------------------------------------------------------
// The editing pane
// ---------------------------------------------------------------------------

/// Index of the first token, from the `i`-th on, that does not start before `pos`.
pub open spec fn first_start_from(toks: Seq<Spanned<Token>>, pos: int, i: int) -> int
    decreases toks.len() - i,
{
    if i < 0 || i >= toks.len() {
        toks.len() as int
    } else if toks[i].span.start < pos {
        first_start_from(toks, pos, i + 1)
    } else {
        i
    }
}

/// Index of the first token, from the `i`-th on, that starts after `pos`.
pub open spec fn first_after_from(toks: Seq<Spanned<Token>>, pos: int, i: int) -> int
    decreases toks.len() - i,
{
    if i < 0 || i >= toks.len() {
        toks.len() as int
    } else if toks[i].span.start <= pos {
        first_after_from(toks, pos, i + 1)
    } else {
        i
    }
}

/// Index of the first token, from the `i`-th on, that ends after `pos`.
pub open spec fn first_ending_after_from(toks: Seq<Spanned<Token>>, pos: int, i: int) -> int
    decreases toks.len() - i,
{
    if i < 0 || i >= toks.len() {
        toks.len() as int
    } else if toks[i].span.end <= pos {
        first_ending_after_from(toks, pos, i + 1)
    } else {
        i
    }
}

/// Where moving one token left from `pos` lands: the start of the last token
/// that starts before `pos`; with none, the start of the text if the first
/// token starts at or after `pos`.
pub open spec fn token_left(toks: Seq<Spanned<Token>>, pos: int) -> int {
    let idx = first_start_from(toks, pos, 0);
    let j = if idx >= 1 { idx - 1 } else { 0 };
    if j < toks.len() {
        if pos <= toks[j].span.start { 0 } else { toks[j].span.start as int }
    } else {
        pos
    }
}

/// Where moving one token right from `pos` lands: the start of the first token
/// that starts after `pos`, if any.
pub open spec fn token_right(toks: Seq<Spanned<Token>>, pos: int) -> int {
    let idx = first_after_from(toks, pos, 0);
    if idx < toks.len() { toks[idx].span.start as int } else { pos }
}

pub open spec fn min(a: int, b: int) -> int {
    if a <= b { a } else { b }
}

/// The start of the innermost node of the path, kept within the text, or
/// one token left.
pub open spec fn node_left(path: Seq<AstNode>, toks: Seq<Spanned<Token>>, pos: int, len: int) -> int {
    if path.len() > 0 {
        min(path.last().span.start as int, len)
    } else {
        token_left(toks, pos)
    }
}

/// The last character of the innermost node of the path, kept within the
/// text, or one token right.
pub open spec fn node_right(path: Seq<AstNode>, toks: Seq<Spanned<Token>>, pos: int, len: int) -> int {
    if path.len() > 0 {
        let n = path.last().span;
        let last = if n.end >= 1 { n.end - 1 } else { 0 };
        min(if last >= n.start { last } else { n.start as int }, len)
    } else {
        token_right(toks, pos)
    }
}

/// The span of a node kept within a text of length `len`.
pub open spec fn clamped_span(span: Span, len: int) -> (int, int) {
    let a = min(span.start as int, len);
    let b = min(if span.end >= a { span.end as int } else { a }, len);
    (a, b)
}

/// `s` without the characters between `a` and `b`.
pub open spec fn cut(s: Seq<char>, a: int, b: int) -> Seq<char> {
    s.subrange(0, a) + s.subrange(b, s.len() as int)
}

/// The text and cursor after a key in the editing pane (the alt+up and
/// alt+down keys only move the selection along the path).
pub open spec fn edited(ctx: EditorContext, cursor: int, key: KeyInput) -> (Seq<char>, int) {
    let s = ctx.source@;
    let len = s.len() as int;
    let toks = tokens_of(ctx.output.result);
    let path = ctx.ast_path@;
    match key.code {
        KeyCode::Left => (s, if key.alt {
            match ctx.ast_cursor {
                Some(i) => min(path[i as int].span.start as int, len),
                None => node_left(path, toks, cursor, len),
            }
        } else if key.ctrl || key.shift {
            token_left(toks, cursor)
        } else {
            moved_by(len, cursor, -1)
        }),
        KeyCode::Right => (s, if key.alt {
            match ctx.ast_cursor {
                Some(i) => min(path[i as int].span.end as int, len),
                None => node_right(path, toks, cursor, len),
            }
        } else if key.ctrl || key.shift {
            token_right(toks, cursor)
        } else {
            moved_by(len, cursor, 1)
        }),
        KeyCode::Tab => (s.subrange(0, cursor) + seq![' ', ' ', ' ', ' '] + s.subrange(cursor, len), cursor + 4),
        KeyCode::Char(c) => (s.insert(cursor, c), cursor + 1),
        KeyCode::Enter => (s.insert(cursor, '\n'), cursor + 1),
        KeyCode::Backspace => match ctx.ast_cursor {
            Some(i) => {
                let (a, b) = clamped_span(path[i as int].span, len);
                (cut(s, a, b), a)
            },
            None => if cursor > 0 {
                if key.ctrl || key.shift {
                    let l = token_left(toks, cursor);
                    (cut(s, l, cursor), l)
                } else {
                    (s.remove(cursor - 1), cursor - 1)
                }
            } else {
                (s, cursor)
            },
        },
        KeyCode::Delete => match ctx.ast_cursor {
            Some(i) => {
                let (a, b) = clamped_span(path[i as int].span, len);
                (cut(s, a, b), a)
            },
            None => if cursor < len {
                (s.remove(cursor), cursor)
            } else {
                (s, cursor)
            },
        },
        _ => (s, key_cursor(s, cursor, key.code)),
    }
}

/// Whether a key changes the text (and so compiles it again).
pub open spec fn edits(code: KeyCode) -> bool {
    code is Tab || code is Char || code is Enter || code is Backspace || code is Delete
}

/// Rows of the active pane for a terminal height and a number of errors.
pub open spec fn rows_for(height: int, errors: int) -> int {
    if height >= 2 + diagnostic_lines(errors) {
        height - 2 - diagnostic_lines(errors)
    } else {
        0
    }
}

/// The token under the cursor, as `{:?}` writes it, or a dash.
pub open spec fn spanned_debug(t: Spanned<Token>) -> Seq<char> {
    "Spanned { data: "@ + token_debug(t.data) + ", span: Span { start: "@ + decimal(
        t.span.start as int,
    ) + ", end: "@ + decimal(t.span.end as int) + " } }"@
}

pub open spec fn token_info(toks: Seq<Spanned<Token>>, cursor: int) -> Seq<char> {
    let idx = first_ending_after_from(toks, cursor, 0);
    if idx < toks.len() && toks[idx].span.spec_contains(cursor) {
        spanned_debug(toks[idx])
    } else {
        "—"@
    }
}

/// The selected node with its place on the path, or the innermost node.
pub open spec fn ast_info(path: Seq<AstNode>, selected: Option<usize>) -> Seq<char> {
    match selected {
        Some(i) => "AST ["@ + decimal(i + 1) + "/"@ + decimal(path.len() as int) + "] "@
            + path[i as int].label@ + "  "@ + decimal(path[i as int].span.start as int) + ".."@
            + decimal(path[i as int].span.end as int),
        None => if path.len() > 0 {
            "AST: "@ + path.last().label@
        } else {
            "AST: —"@
        },
    }
}

/// The status line of the editing pane: the cursor's row and column, the
/// token under it, the path, and a check mark when the text compiles.
pub open spec fn editor_status(ctx: EditorContext, cursor: int) -> Seq<char> {
    " "@ + decimal(newlines_before(ctx.source@, cursor) + 1int) + ":"@ + decimal(
        cursor - line_start(ctx.source@, cursor) + 1,
    ) + " │ "@ + token_info(tokens_of(ctx.output.result), cursor) + " │ "@ + ast_info(
        ctx.ast_path@,
        ctx.ast_cursor,
    ) + " │ "@ + (if ctx.output.errors@.len() == 0 { "✓"@ } else { Seq::<char>::empty() }) + " "@
}

/// How a key changes the context and the cursor of the editing pane: alt with
/// up or down moves the selection along the path; other keys move the cursor
/// or edit the text, which is then compiled again, the version counted up, the
/// selection dropped and the path rebuilt where the text parses.
pub open spec fn editor_keyed(
    ctx0: EditorContext,
    p0: BasePane,
    key: KeyInput,
    ctx1: EditorContext,
    p1: BasePane,
) -> bool {
    &&& ctx1.term_size == ctx0.term_size
    &&& ctx1.is_focus == ctx0.is_focus
    &&& (key.alt && (key.code is Up || key.code is Down) ==> {
        &&& ctx1.ast_cursor == if key.code is Up {
            navigated_up(ctx0.ast_cursor, ctx0.ast_path@.len() as int)
        } else {
            navigated_down(ctx0.ast_cursor, ctx0.ast_path@.len() as int)
        }
        &&& ctx1.source == ctx0.source
        &&& ctx1.output == ctx0.output
        &&& ctx1.ast_path == ctx0.ast_path
        &&& ctx1.version == ctx0.version
        &&& p1 == p0
    })
    &&& (!(key.alt && (key.code is Up || key.code is Down)) ==> {
        let (text, cur) = edited(ctx0, p0.cursor as int, key);
        let rows = rows_for(ctx0.term_size.1 as int, ctx0.output.errors@.len() as int);
        &&& ctx1.source@ == text
        &&& ctx1.source.name == ctx0.source.name
        &&& p1.cursor == cur
        &&& !edits(key.code) ==> ctx1.output == ctx0.output
        &&& ctx1.version == ctx0.version + 1
        &&& ctx1.ast_cursor is None
        &&& match ctx1.output.result {
            Ok((_, Ok(ast))) => path_view(ctx1.ast_path@) == program_path(ast, cur),
            _ => ctx1.ast_path == ctx0.ast_path,
        }
        &&& p1.scroll_row == if edits(key.code) || key.code is Left || key.code is Right {
            scrolled(text, cur, p0.scroll_row as int, rows)
        } else {
            scrolled(text, cur, scrolled(text, cur, p0.scroll_row as int, rows), rows)
        }
    })
}

/// Typing a character and then deleting back over it gives back the text and
/// the cursor.
pub proof fn law_type_then_backspace(
    ctx0: EditorContext,
    p0: BasePane,
    k1: KeyInput,
    ctx1: EditorContext,
    p1: BasePane,
    k2: KeyInput,
    ctx2: EditorContext,
    p2: BasePane,
)
    requires
        p0.cursor <= ctx0.source@.len(),
        k1.code is Char,
        editor_keyed(ctx0, p0, k1, ctx1, p1),
        k2.code is Backspace,
        !k2.ctrl,
        !k2.shift,
        editor_keyed(ctx1, p1, k2, ctx2, p2),
    ensures
        ctx2.source@ == ctx0.source@,
        p2.cursor == p0.cursor,
{
    let s = ctx0.source@;
    let c = k1.code->Char_0;
    assert(s.insert(p0.cursor as int, c).remove(p0.cursor as int) =~= s);
}

fn spanned_debug_text(t: &Spanned<Token>) -> (r: String)
    ensures
        r@ == spanned_debug(*t),
{
    let mut out = "Spanned { data: ".to_owned();
    push_str(&mut out, token_debug_text(&t.data).as_str());
    push_str(&mut out, ", span: Span { start: ");
    push_str(&mut out, usize_to_string(t.span.start).as_str());
    push_str(&mut out, ", end: ");
    push_str(&mut out, usize_to_string(t.span.end).as_str());
    push_str(&mut out, " } }");
    out
}

fn token_info_text(tokens: &[Spanned<Token>], cursor: usize) -> (r: String)
    ensures
        r@ == token_info(tokens@, cursor as int),
{
    let mut idx: usize = 0;
    while idx < tokens.len() && tokens[idx].span.end <= cursor
        invariant
            idx <= tokens@.len(),
            first_ending_after_from(tokens@, cursor as int, idx as int) == first_ending_after_from(
                tokens@,
                cursor as int,
                0,
            ),
        decreases tokens@.len() - idx,
    {
        idx += 1;
    }
    if idx < tokens.len() && tokens[idx].contains(cursor) {
        spanned_debug_text(&tokens[idx])
    } else {
        "—".to_owned()
    }
}

fn ast_info_text(path: &Vec<AstNode>, selected: Option<usize>) -> (r: String)
    requires
        selected matches Some(i) ==> i < path@.len(),
    ensures
        r@ == ast_info(path@, selected),
{
    let n = path.len();
    if let Some(i) = selected {
        let node = &path[i];
        let mut out = "AST [".to_owned();
        push_str(&mut out, usize_to_string(i + 1).as_str());
        push_str(&mut out, "/");
        push_str(&mut out, usize_to_string(n).as_str());
        push_str(&mut out, "] ");
        push_str(&mut out, node.label);
        push_str(&mut out, "  ");
        push_str(&mut out, usize_to_string(node.span.start).as_str());
        push_str(&mut out, "..");
        push_str(&mut out, usize_to_string(node.span.end).as_str());
        out
    } else if n > 0 {
        let mut out = "AST: ".to_owned();
        push_str(&mut out, path[n - 1].label);
        out
    } else {
        "AST: —".to_owned()
    }
}

/// The editing pane: a cursor over the text of the context.
pub struct EditorPane(pub BasePane);

impl EditorPane {
    pub fn new() -> (r: EditorPane)
        ensures
            r.0.cursor == 0,
            r.0.scroll_row == 0,
    {
        EditorPane(BasePane::new())
    }

    pub fn label(&self) -> (r: &'static str)
        ensures
            r@ == "Editor"@,
    {
        "Editor"
    }

    pub fn status(&self, ctx: &EditorContext) -> (r: String)
        requires
            ctx.wf(),
            self.0.cursor <= ctx.source@.len() < usize::MAX,
        ensures
            r@ == editor_status(*ctx, self.0.cursor as int),
    {
        let cursor = self.0.cursor;
        let pos = ctx.source.index_to_position(cursor);
        proof {
            lemma_newlines_bound(ctx.source@, cursor as int);
            lemma_line_start_bounds(ctx.source@, cursor as int);
        }
        let mut out = " ".to_owned();
        push_str(&mut out, usize_to_string(pos.row + 1).as_str());
        push_str(&mut out, ":");
        push_str(&mut out, usize_to_string(pos.col + 1).as_str());
        push_str(&mut out, " │ ");
        push_str(&mut out, token_info_text(ctx.output.tokens(), cursor).as_str());
        push_str(&mut out, " │ ");
        push_str(&mut out, ast_info_text(&ctx.ast_path, ctx.ast_cursor).as_str());
        push_str(&mut out, " │ ");
        if ctx.output.errors.len() == 0 {
            push_str(&mut out, "✓");
        }
        push_str(&mut out, " ");
        assert(out@ =~= editor_status(*ctx, cursor as int));
        out
    }

    /// Handles a key: alt with up or down moves the selection along the path;
    /// other keys move the cursor or edit the text, which is then compiled
    /// again, and the path is rebuilt where the text parses.
    #[verifier::rlimit(40)]
    #[verifier::loop_isolation(false)]
    pub fn on_key(&mut self, ctx: &mut EditorContext, key: KeyInput)
        requires
            old(ctx).wf(),
            old(self).0.cursor <= old(ctx).source@.len(),
            old(ctx).source@.len() + 4 < usize::MAX,
            old(ctx).version < u64::MAX,
        ensures
            final(ctx).wf(),
            final(self).0.cursor <= final(ctx).source@.len(),
            editor_keyed(*old(ctx), old(self).0, key, *final(ctx), final(self).0),
    {
        let rows = ctx.content_rows() as usize;
        if key.alt {
            match key.code {
                KeyCode::Up => {
                    ctx.ast_navigate_up();
                    return;
                },
                KeyCode::Down => {
                    ctx.ast_navigate_down();
                    return;
                },
                _ => {},
            }
        }
        let ghost s0 = ctx.source@;
        let ghost c0 = self.0.cursor as int;
        let len = ctx.source.len();
        match key.code {
            KeyCode::Left => {
                if key.alt {
                    if let Some(idx) = ctx.ast_cursor {
                        let start = ctx.ast_path[idx].span.start;
                        self.0.cursor = if start <= len { start } else { len };
                    } else {
                        self.move_node_left(ctx);
                    }
                } else if key.ctrl || key.shift {
                    self.move_token_left(ctx);
                } else {
                    self.0.move_cursor_by(&ctx.source, -1);
                }
            },
            KeyCode::Right => {
                if key.alt {
                    if let Some(idx) = ctx.ast_cursor {
                        let end = ctx.ast_path[idx].span.end;
                        self.0.cursor = if end <= len { end } else { len };
                    } else {
                        self.move_node_right(ctx);
                    }
                } else if key.ctrl || key.shift {
                    self.move_token_right(ctx);
                } else {
                    self.0.move_cursor_by(&ctx.source, 1);
                }
            },
            KeyCode::Tab => {
                let mut k: usize = 0;
                while k < 4
                    invariant
                        k <= 4,
                        self.0.cursor == c0 + k,
                        0 <= c0 <= s0.len(),
                        s0.len() + 4 < usize::MAX,
                        ctx.source@ == s0.subrange(0, c0) + Seq::new(k as nat, |i: int| ' ')
                            + s0.subrange(c0, s0.len() as int),
                        ctx.version == old(ctx).version,
                        ctx.output == old(ctx).output,
                        ctx.ast_path == old(ctx).ast_path,
                        ctx.ast_cursor == old(ctx).ast_cursor,
                        ctx.term_size == old(ctx).term_size,
                        ctx.is_focus == old(ctx).is_focus,
                        ctx.source.name == old(ctx).source.name,
                        self.0.scroll_row == old(self).0.scroll_row,
                    decreases 4 - k,
                {
                    ctx.source.insert(self.0.cursor, ' ');
                    self.0.cursor += 1;
                    k += 1;
                    assert(ctx.source@ =~= s0.subrange(0, c0) + Seq::new(k as nat, |i: int| ' ')
                        + s0.subrange(c0, s0.len() as int));
                }
                assert(Seq::new(4nat, |i: int| ' ') =~= seq![' ', ' ', ' ', ' ']);
                ctx.recompile();
            },
            KeyCode::Char(c) => {
                ctx.source.insert(self.0.cursor, c);
                self.0.cursor += 1;
                ctx.recompile();
            },
            KeyCode::Enter => {
                ctx.source.insert(self.0.cursor, '\n');
                self.0.cursor += 1;
                ctx.recompile();
            },
            KeyCode::Backspace => {
                if let Some(idx) = ctx.ast_cursor {
                    let span = ctx.ast_path[idx].span;
                    let a = if span.start <= len { span.start } else { len };
                    let b0 = if span.end >= a { span.end } else { a };
                    let b = if b0 <= len { b0 } else { len };
                    ctx.source.remove_span(Span { start: a, end: b });
                    self.0.cursor = a;
                } else if self.0.cursor > 0 {
                    if key.ctrl || key.shift {
                        let end = self.0.cursor;
                        self.move_token_left(ctx);
                        ctx.source.remove_span(Span { start: self.0.cursor, end });
                    } else {
                        self.0.cursor -= 1;
                        ctx.source.remove(self.0.cursor);
                    }
                }
                ctx.recompile();
            },
            KeyCode::Delete => {
                if let Some(idx) = ctx.ast_cursor {
                    let span = ctx.ast_path[idx].span;
                    let a = if span.start <= len { span.start } else { len };
                    let b0 = if span.end >= a { span.end } else { a };
                    let b = if b0 <= len { b0 } else { len };
                    ctx.source.remove_span(Span { start: a, end: b });
                    self.0.cursor = a;
                } else if self.0.cursor < len {
                    ctx.source.remove(self.0.cursor);
                }
                ctx.recompile();
            },
            _ => self.0.on_key(&ctx.source, key, rows),
        }
        assert(ctx.source.name == old(ctx).source.name);
        ctx.version += 1;
        ctx.ast_cursor = None;
        match &ctx.output.result {
            Ok((_, Ok(ast))) => {
                ctx.ast_path = ast_path_at(ast, self.0.cursor);
            },
            _ => {},
        }
        self.0.update_scroll(&ctx.source, rows);
    }

    /// Moves to the start of the innermost node of the path.
    pub fn move_node_left(&mut self, ctx: &EditorContext)
        requires
            ctx.wf(),
            old(self).0.cursor <= ctx.source@.len(),
        ensures
            final(self).0.cursor == node_left(
                ctx.ast_path@,
                tokens_of(ctx.output.result),
                old(self).0.cursor as int,
                ctx.source@.len() as int,
            ),
            final(self).0.cursor <= ctx.source@.len(),
            final(self).0.scroll_row == old(self).0.scroll_row,
    {
        let n = ctx.ast_path.len();
        if n > 0 {
            let start = ctx.ast_path[n - 1].span.start;
            let len = ctx.source.len();
            self.0.cursor = if start <= len { start } else { len };
        } else {
            self.move_token_left(ctx);
        }
    }

    /// Moves to the last character of the innermost node of the path.
    pub fn move_node_right(&mut self, ctx: &EditorContext)
        requires
            ctx.wf(),
            old(self).0.cursor <= ctx.source@.len(),
        ensures
            final(self).0.cursor == node_right(
                ctx.ast_path@,
                tokens_of(ctx.output.result),
                old(self).0.cursor as int,
                ctx.source@.len() as int,
            ),
            final(self).0.cursor <= ctx.source@.len(),
            final(self).0.scroll_row == old(self).0.scroll_row,
    {
        let n = ctx.ast_path.len();
        if n > 0 {
            let span = ctx.ast_path[n - 1].span;
            let last = if span.end >= 1 { span.end - 1 } else { 0 };
            let target = if last >= span.start { last } else { span.start };
            let len = ctx.source.len();
            self.0.cursor = if target <= len { target } else { len };
        } else {
            self.move_token_right(ctx);
        }
    }

    /// Moves to the start of the token before the cursor.
    pub fn move_token_left(&mut self, ctx: &EditorContext)
        requires
            ctx.wf(),
            old(self).0.cursor <= ctx.source@.len(),
        ensures
            final(self).0.cursor == token_left(tokens_of(ctx.output.result), old(self).0.cursor as int),
            final(self).0.cursor <= old(self).0.cursor,
            final(self).0.scroll_row == old(self).0.scroll_row,
    {
        let pos = self.0.cursor;
        let tokens = ctx.output.tokens();
        let mut idx: usize = 0;
        while idx < tokens.len() && tokens[idx].span.start < pos
            invariant
                idx <= tokens@.len(),
                forall|j: int| 0 <= j < idx ==> tokens@[j].span.start < pos,
                first_start_from(tokens@, pos as int, idx as int) == first_start_from(
                    tokens@,
                    pos as int,
                    0,
                ),
            decreases tokens@.len() - idx,
        {
            idx += 1;
        }
        let j = if idx >= 1 { idx - 1 } else { 0 };
        if j < tokens.len() {
            let start = tokens[j].span.start;
            self.0.cursor = if pos <= start { 0 } else { start };
        }
    }

    /// Moves to the start of the token after the cursor.
    pub fn move_token_right(&mut self, ctx: &EditorContext)
        requires
            ctx.wf(),
            old(self).0.cursor <= ctx.source@.len(),
        ensures
            final(self).0.cursor == token_right(tokens_of(ctx.output.result), old(self).0.cursor as int),
            final(self).0.cursor <= ctx.source@.len(),
            final(self).0.scroll_row == old(self).0.scroll_row,
    {
        let pos = self.0.cursor;
        let tokens = ctx.output.tokens();
        proof {
            lemma_compiled_tokens_inside(ctx.source@, ctx.output);
        }
        let mut idx: usize = 0;
        while idx < tokens.len() && tokens[idx].span.start <= pos
            invariant
                idx <= tokens@.len(),
                first_after_from(tokens@, pos as int, idx as int) == first_after_from(
                    tokens@,
                    pos as int,
                    0,
                ),
            decreases tokens@.len() - idx,
        {
            idx += 1;
        }
        if idx < tokens.len() {
            self.0.cursor = tokens[idx].span.start;
        }
    }
}


// ---------------------------------------------------------------------------
// Read-only panes
// ---------------------------------------------------------------------------

/// How a key moves a read-only pane over the text `s`.
pub open spec fn base_keyed(s: Seq<char>, p0: BasePane, key: KeyInput, rows: int, p1: BasePane) -> bool {
    &&& p1.cursor == key_cursor(s, p0.cursor as int, key.code)
    &&& p1.scroll_row == scrolled(s, p1.cursor as int, p0.scroll_row as int, rows)
}

/// The pane over the log: Enter adds a line to the log.
pub struct LogsPane(pub BasePane);

impl LogsPane {
    pub fn new() -> (r: LogsPane)
        ensures
            r.0.cursor == 0,
            r.0.scroll_row == 0,
    {
        LogsPane(BasePane::new())
    }

    pub fn label(&self) -> (r: &'static str)
        ensures
            r@ == "Logs"@,
    {
        "Logs"
    }

    pub fn status(&self, log: &Source) -> (r: String)
        requires
            self.0.cursor <= log@.len() < usize::MAX,
        ensures
            r@ == base_status(log@, self.0.cursor as int),
    {
        self.0.status(log)
    }

    pub fn on_key(&mut self, ctx: &EditorContext, log: &mut Source, key: KeyInput)
        requires
            old(self).0.cursor <= old(log)@.len(),
            old(log)@.len() + 1 < usize::MAX,
        ensures
            final(log)@ == if key.code is Enter { old(log)@ + "\n"@ } else { old(log)@ },
            base_keyed(
                final(log)@,
                old(self).0,
                key,
                rows_for(ctx.term_size.1 as int, ctx.output.errors@.len() as int),
                final(self).0,
            ),
            final(self).0.cursor <= final(log)@.len(),
    {
        let rows = ctx.content_rows() as usize;
        if key.code == KeyCode::Enter {
            log.append("\n");
            proof {
                reveal_strlit("\n");
            }
        }
        self.0.on_key(log, key, rows);
    }

    /// On focus the cursor goes to the end of the log.
    pub fn on_focus(&mut self, ctx: &EditorContext, log: &Source)
        requires
            log@.len() < usize::MAX,
        ensures
            final(self).0.cursor == log@.len(),
            final(self).0.scroll_row == scrolled(
                log@,
                log@.len() as int,
                old(self).0.scroll_row as int,
                rows_for(ctx.term_size.1 as int, ctx.output.errors@.len() as int),
            ),
    {
        self.0.cursor = log.len();
        self.0.update_scroll(log, ctx.content_rows() as usize);
    }
}

/// A pane that shows a text made from the context (the tokens, the tree, the
/// prototypes, what running gave), made anew when the context changed since.
pub struct TextPane {
    pub label: &'static str,
    pub base: BasePane,
    pub version: u64,
    pub source: Source,
}

impl TextPane {
    pub fn new(label: &'static str) -> (r: TextPane)
        ensures
            r.label == label,
            r.base.cursor == 0,
            r.base.scroll_row == 0,
            r.version == 0,
            r.source@ == Seq::<char>::empty(),
    {
        TextPane { label, base: BasePane::new(), version: 0, source: Source::empty(String::new()) }
    }

    pub fn status(&self) -> (r: String)
        requires
            self.base.cursor <= self.source@.len() < usize::MAX,
        ensures
            r@ == base_status(self.source@, self.base.cursor as int),
    {
        self.base.status(&self.source)
    }

    /// Whether the text was made before the context reached `version`.
    pub fn needs_refresh(&self, version: u64) -> (r: bool)
        ensures
            r == (self.version < version),
    {
        self.version < version
    }

    /// On focus, a text made before `version` is replaced by `text`; the
    /// cursor is kept within the new text.
    pub fn on_focus(&mut self, version: u64, text: &str)
        ensures
            old(self).version < version ==> {
                &&& final(self).source@ == text@
                &&& final(self).version == version
                &&& final(self).base.cursor == min(old(self).base.cursor as int, text@.len() as int)
                &&& final(self).base.scroll_row == old(self).base.scroll_row
            },
            old(self).version >= version ==> *final(self) == *old(self),
            final(self).label == old(self).label,
    {
        if self.version < version {
            self.source = Source::new(String::new(), text);
            self.version = version;
            let len = self.source.len();
            if self.base.cursor > len {
                self.base.cursor = len;
            }
        }
    }

    pub fn on_key(&mut self, ctx: &EditorContext, key: KeyInput)
        requires
            old(self).base.cursor <= old(self).source@.len() < usize::MAX,
        ensures
            base_keyed(
                old(self).source@,
                old(self).base,
                key,
                rows_for(ctx.term_size.1 as int, ctx.output.errors@.len() as int),
                final(self).base,
            ),
            final(self).source == old(self).source,
            final(self).version == old(self).version,
            final(self).label == old(self).label,
            final(self).base.cursor <= final(self).source@.len(),
    {
        let rows = ctx.content_rows() as usize;
        self.base.on_key(&self.source, key, rows);
    }
}


// ---------------------------------------------------------------------------
// The editor
// ---------------------------------------------------------------------------

/// What a key leads to: leaving the editor, nothing more to do, or a switch to
/// another pane (a text pane then wants its text made anew if it is stale).
#[derive(Debug, Clone, Copy, PartialEq, Eq, Structural)]
pub enum KeyOutcome {
    Quit,
    Continue,
    Switched(usize),
}

/// The editor: the shared context, the editing pane, the pane over the log,
/// the text panes, and which pane is active.
pub struct Editor {
    pub ctx: EditorContext,
    pub editor_pane: EditorPane,
    pub logs_pane: LogsPane,
    pub text_panes: Vec<TextPane>,
    pub log: Source,
    pub active: usize,
}

/// The pane that alt with a digit asks for: the digit counts panes from 1,
/// and 0 asks for the first.
pub open spec fn pane_for_digit(c: char) -> int {
    let d = c as int - '0' as int;
    if d >= 1 { d - 1 } else { 0 }
}

/// Whether a key is ctrl-c.
pub open spec fn is_quit(key: KeyInput) -> bool {
    key.ctrl && key.code == KeyCode::Char('c')
}

/// The digit of an alt-digit key.
pub open spec fn alt_digit(key: KeyInput) -> Option<char> {
    match key.code {
        KeyCode::Char(c) => if key.alt && '0' <= c <= '9' { Some(c) } else { None },
        _ => None,
    }
}

impl Editor {
    /// What holds of every state the editor is in: every cursor lies within
    /// its text, and the active pane is one of the panes.
    pub open spec fn wf(&self) -> bool {
        &&& self.ctx.wf()
        &&& self.editor_pane.0.cursor <= self.ctx.source@.len()
        &&& self.logs_pane.0.cursor <= self.log@.len()
        &&& forall|i: int|
            0 <= i < self.text_panes@.len() ==> (#[trigger] self.text_panes@[i]).base.cursor
                <= self.text_panes@[i].source@.len()
        &&& self.active < 2 + self.text_panes@.len()
    }

    /// Whether the texts and the version count can take one more key.
    pub open spec fn has_room_spec(&self) -> bool {
        &&& self.ctx.source@.len() + 4 < usize::MAX
        &&& self.ctx.version < u64::MAX
        &&& self.log@.len() + 1 < usize::MAX
        &&& forall|i: int|
            0 <= i < self.text_panes@.len() ==> (#[trigger] self.text_panes@[i]).source@.len()
                < usize::MAX
    }

    pub fn has_room(&self) -> (r: bool)
        ensures
            r == self.has_room_spec(),
    {
        if self.ctx.source.len() >= usize::MAX - 4 || self.ctx.version == u64::MAX || self.log.len()
            >= usize::MAX - 1 {
            return false;
        }
        let mut i: usize = 0;
        while i < self.text_panes.len()
            invariant
                i <= self.text_panes@.len(),
                forall|j: int|
                    0 <= j < i ==> (#[trigger] self.text_panes@[j]).source@.len() < usize::MAX,
            decreases self.text_panes@.len() - i,
        {
            if self.text_panes[i].source.len() == usize::MAX {
                return false;
            }
            i += 1;
        }
        true
    }

    pub fn new(text: &str, term_size: (u16, u16)) -> (r: Editor)
        ensures
            r.wf(),
            r.ctx.source@ == text@,
            r.ctx.version == 1,
            r.active == 0,
    {
        Self::from_source(Source::new("<editor>".to_owned(), text), term_size)
    }

    /// An editor over `source`, compiled, with the cursor at the start.
    pub fn from_source(source: Source, term_size: (u16, u16)) -> (r: Editor)
        ensures
            r.wf(),
            r.ctx.source@ == source@,
            r.ctx.source.name == source.name,
            r.ctx.version == 1,
            r.ctx.is_focus,
            r.ctx.term_size == term_size,
            r.ctx.ast_cursor is None,
            match r.ctx.output.result {
                Ok((_, Ok(ast))) => path_view(r.ctx.ast_path@) == program_path(ast, 0),
                _ => r.ctx.ast_path@.len() == 0,
            },
            r.editor_pane.0.cursor == 0,
            r.editor_pane.0.scroll_row == 0,
            r.logs_pane.0.cursor == 0,
            r.log@ == Seq::<char>::empty(),
            r.active == 0,
            r.text_panes@.len() == 4,
            r.text_panes@[0].label@ == "Lexer"@,
            r.text_panes@[1].label@ == "Parser"@,
            r.text_panes@[2].label@ == "Resolution"@,
            r.text_panes@[3].label@ == "Exec"@,
            forall|i: int| 0 <= i < 4 ==> (#[trigger] r.text_panes@[i]).version == 0,
    {
        let output = compile(&source);
        let mut ctx = EditorContext {
            version: 1,
            source,
            is_focus: true,
            output,
            ast_path: Vec::new(),
            ast_cursor: None,
            term_size,
        };
        match &ctx.output.result {
            Ok((_, Ok(ast))) => {
                ctx.ast_path = ast_path_at(ast, 0);
            },
            _ => {},
        }
        let mut text_panes: Vec<TextPane> = Vec::new();
        text_panes.push(TextPane::new("Lexer"));
        text_panes.push(TextPane::new("Parser"));
        text_panes.push(TextPane::new("Resolution"));
        text_panes.push(TextPane::new("Exec"));
        Editor {
            ctx,
            editor_pane: EditorPane::new(),
            logs_pane: LogsPane::new(),
            text_panes,
            log: Source::empty(String::new()),
            active: 0,
        }
    }

    pub fn pane_count(&self) -> (r: usize)
        requires
            self.text_panes@.len() + 2 <= usize::MAX,
        ensures
            r == 2 + self.text_panes@.len(),
    {
        2 + self.text_panes.len()
    }

    /// The label of pane `i` in the tab bar.
    pub fn pane_label(&self, i: usize) -> (r: &'static str)
        requires
            i < 2 + self.text_panes@.len(),
        ensures
            i == 0 ==> r@ == "Editor"@,
            i == 1 ==> r@ == "Logs"@,
            i >= 2 ==> r == self.text_panes@[i - 2].label,
    {
        if i == 0 {
            self.editor_pane.label()
        } else if i == 1 {
            self.logs_pane.label()
        } else {
            self.text_panes[i - 2].label
        }
    }

    /// Handles a key: ctrl-c quits, alt with a digit switches to that pane,
    /// and any other key goes to the active pane.
    #[verifier::rlimit(40)]
    pub fn handle_key(&mut self, key: KeyInput) -> (r: KeyOutcome)
        requires
            old(self).wf(),
            old(self).has_room_spec(),
        ensures
            final(self).wf(),
            is_quit(key) ==> r == KeyOutcome::Quit && *final(self) == *old(self),
            !is_quit(key) && alt_digit(key) is Some ==> {
                let idx = pane_for_digit(alt_digit(key)->0);
                if idx != old(self).active && idx < 2 + old(self).text_panes@.len() {
                    &&& r == KeyOutcome::Switched(idx as usize)
                    &&& final(self).active == idx
                    &&& final(self).ctx == old(self).ctx
                    &&& final(self).editor_pane == old(self).editor_pane
                    &&& final(self).text_panes == old(self).text_panes
                    &&& final(self).log == old(self).log
                    &&& idx == 1 ==> final(self).logs_pane.0.cursor == old(self).log@.len()
                    &&& idx != 1 ==> final(self).logs_pane == old(self).logs_pane
                } else {
                    r == KeyOutcome::Continue && *final(self) == *old(self)
                }
            },
            !is_quit(key) && alt_digit(key) is None ==> {
                let rows = rows_for(
                    old(self).ctx.term_size.1 as int,
                    old(self).ctx.output.errors@.len() as int,
                );
                &&& r == KeyOutcome::Continue
                &&& final(self).active == old(self).active
                &&& old(self).active == 0 ==> {
                    &&& editor_keyed(
                        old(self).ctx,
                        old(self).editor_pane.0,
                        key,
                        final(self).ctx,
                        final(self).editor_pane.0,
                    )
                    &&& final(self).text_panes == old(self).text_panes
                    &&& final(self).log == old(self).log
                }
                &&& old(self).active == 1 ==> {
                    &&& final(self).log@ == if key.code is Enter {
                        old(self).log@ + "\n"@
                    } else {
                        old(self).log@
                    }
                    &&& base_keyed(final(self).log@, old(self).logs_pane.0, key, rows, final(self).logs_pane.0)
                    &&& final(self).ctx == old(self).ctx
                    &&& final(self).text_panes == old(self).text_panes
                }
                &&& old(self).active >= 2 ==> {
                    let i = old(self).active - 2;
                    &&& final(self).text_panes@.len() == old(self).text_panes@.len()
                    &&& base_keyed(
                        old(self).text_panes@[i].source@,
                        old(self).text_panes@[i].base,
                        key,
                        rows,
                        final(self).text_panes@[i].base,
                    )
                    &&& final(self).text_panes@[i].source == old(self).text_panes@[i].source
                    &&& forall|j: int|
                        0 <= j < old(self).text_panes@.len() && j != i ==> final(self).text_panes@[j]
                            == old(self).text_panes@[j]
                    &&& final(self).ctx == old(self).ctx
                    &&& final(self).log == old(self).log
                }
            },
    {
        if key.ctrl && key.code == KeyCode::Char('c') {
            return KeyOutcome::Quit;
        }
        if key.alt {
            if let KeyCode::Char(c) = key.code {
                if '0' <= c && c <= '9' {
                    let digit = (c as u32 - '0' as u32) as usize;
                    let idx = if digit >= 1 { digit - 1 } else { 0 };
                    if idx != self.active && (idx < 2 || idx - 2 < self.text_panes.len()) {
                        self.active = idx;
                        if idx == 1 {
                            self.logs_pane.on_focus(&self.ctx, &self.log);
                        }
                        return KeyOutcome::Switched(idx);
                    }
                    return KeyOutcome::Continue;
                }
            }
        }
        if self.active == 0 {
            self.editor_pane.on_key(&mut self.ctx, key);
        } else if self.active == 1 {
            self.logs_pane.on_key(&self.ctx, &mut self.log, key);
        } else {
            let i = self.active - 2;
            let mut pane = self.text_panes.remove(i);
            pane.on_key(&self.ctx, key);
            self.text_panes.insert(i, pane);
            assert(self.text_panes@ =~= old(self).text_panes@.update(i as int, pane));
        }
        KeyOutcome::Continue
    }
}


/// The path into an expression starts at the expression's own node.
pub proof fn law_expr_path_starts_at_node(e: Spanned<Expr>, c: int)
    ensures
        expr_path(e, c).len() >= 1,
        expr_path(e, c)[0] == node(expr_label(e.data), e.span, false),
{
}

/// The path into an expression goes down to the sub-expression that holds
/// the cursor: when the operand of a unary operator, an operand of a binary
/// operator (the left one first), the object of a member access, or the
/// object or index of an indexing holds the cursor, the node after the
/// expression's own is that sub-expression's.
pub proof fn law_expr_path_enters_child(e: Spanned<Expr>, c: int, child: Spanned<Expr>)
    requires
        match e.data {
            Expr::UnOp { expr, .. } => child == *expr,
            Expr::Member { expr, .. } => child == *expr,
            Expr::BinOp { lhs, rhs, .. } => child == *lhs || (child == *rhs && !at(lhs.span, c)),
            Expr::Index { expr, index } => child == *expr || (child == *index && !at(expr.span, c)),
            _ => false,
        },
        at(child.span, c),
    ensures
        expr_path(e, c).len() >= 2,
        expr_path(e, c)[1] == node(expr_label(child.data), child.span, false),
{
    law_expr_path_starts_at_node(child, c);
}
} // verus!
