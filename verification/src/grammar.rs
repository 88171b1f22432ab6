use vstd::prelude::*;

use crate::ast::{
    argdefs_v, block_v, else_ifs_v, expr_v, exprs_v, sp, stmt_v, stmts_v, type_v, ArgDef, ArgDefM, BinOp,
    ElementM, Expr, ExprM, FieldM, FuncBodyM, Stmt, StmtM, Type, TypeM, UnOp,
};
use crate::lexer::{token_debug, token_kind, Token};
use crate::parser::{
    closes_block, infix_precedence, peek_index, skip_comments, starts_primary, token_name, Error,
};
use crate::source::{Span, Spanned};

verus! {

// ---------------------------------------------------------------------------
// What the parser reads from a sequence of tokens, stated as a function of
// the tokens and the position it starts at. Each reading gives its result
// (the tree as a mathematical value, or the error) and the position the
// parser is left at.
// ---------------------------------------------------------------------------

/// A parse error as a mathematical value.
pub enum ErrorM {
    Todo { message: &'static str, span: Span },
    Unexpected {
        message: Option<&'static str>,
        expected: Seq<Seq<char>>,
        found: Spanned<Token>,
        started: Option<Span>,
    },
}

/// The texts of a list of strings.
pub open spec fn strings_v(v: Seq<String>) -> Seq<Seq<char>> {
    v.map_values(|x: String| x@)
}

/// A parse error as a mathematical value.
pub open spec fn error_v(e: Error) -> ErrorM {
    match e {
        Error::Todo { message, span } => ErrorM::Todo { message, span },
        Error::Unexpected { message, expected, found, started } => ErrorM::Unexpected {
            message,
            expected: strings_v(expected@),
            found,
            started,
        },
    }
}

pub open spec fn span_res(r: Result<Span, Error>) -> Result<Span, ErrorM> {
    match r {
        Ok(s) => Ok(s),
        Err(e) => Err(error_v(e)),
    }
}

pub open spec fn ident_res(r: Result<Spanned<String>, Error>) -> Result<Spanned<String>, ErrorM> {
    match r {
        Ok(x) => Ok(x),
        Err(e) => Err(error_v(e)),
    }
}

pub open spec fn type_res(r: Result<Spanned<Type>, Error>) -> Result<Spanned<TypeM>, ErrorM> {
    match r {
        Ok(t) => Ok(type_v(t)),
        Err(e) => Err(error_v(e)),
    }
}

pub open spec fn expr_res(r: Result<Spanned<Expr>, Error>) -> Result<Spanned<ExprM>, ErrorM> {
    match r {
        Ok(x) => Ok(expr_v(x)),
        Err(e) => Err(error_v(e)),
    }
}

pub open spec fn list_res(r: Result<Spanned<Vec<Spanned<Expr>>>, Error>) -> Result<
    Spanned<Seq<Spanned<ExprM>>>,
    ErrorM,
> {
    match r {
        Ok(v) => Ok(sp(exprs_v(v.data@), v.span)),
        Err(e) => Err(error_v(e)),
    }
}

pub open spec fn stmt_res(r: Result<Spanned<Stmt>, Error>) -> Result<Spanned<StmtM>, ErrorM> {
    match r {
        Ok(x) => Ok(stmt_v(x)),
        Err(e) => Err(error_v(e)),
    }
}

pub open spec fn block_res(r: Result<Spanned<Vec<Spanned<Stmt>>>, Error>) -> Result<
    Spanned<Seq<Spanned<StmtM>>>,
    ErrorM,
> {
    match r {
        Ok(b) => Ok(block_v(b)),
        Err(e) => Err(error_v(e)),
    }
}

pub open spec fn program_res(r: Result<Vec<Spanned<Stmt>>, Error>) -> Result<Seq<Spanned<StmtM>>, ErrorM> {
    match r {
        Ok(v) => Ok(stmts_v(v@)),
        Err(e) => Err(error_v(e)),
    }
}

pub open spec fn args_res(r: Result<Spanned<Vec<Spanned<ArgDef>>>, Error>) -> Result<
    Spanned<Seq<Spanned<ArgDefM>>>,
    ErrorM,
> {
    match r {
        Ok(v) => Ok(sp(argdefs_v(v.data@), v.span)),
        Err(e) => Err(error_v(e)),
    }
}

pub open spec fn names_res(r: Result<(Vec<Spanned<String>>, Span), Error>) -> Result<
    (Seq<Spanned<String>>, Span),
    ErrorM,
> {
    match r {
        Ok((v, last)) => Ok((v@, last)),
        Err(e) => Err(error_v(e)),
    }
}

pub open spec fn exprs_res(r: Result<(Vec<Spanned<Expr>>, Span), Error>) -> Result<
    (Seq<Spanned<ExprM>>, Span),
    ErrorM,
> {
    match r {
        Ok((v, last)) => Ok((exprs_v(v@), last)),
        Err(e) => Err(error_v(e)),
    }
}

pub open spec fn rhs_res(r: Result<(Spanned<Vec<Spanned<Expr>>>, Span), Error>) -> Result<
    (Spanned<Seq<Spanned<ExprM>>>, Span),
    ErrorM,
> {
    match r {
        Ok((v, last)) => Ok((sp(exprs_v(v.data@), v.span), last)),
        Err(e) => Err(error_v(e)),
    }
}

pub open spec fn else_ifs_res(r: Result<Vec<(Spanned<Expr>, Spanned<Vec<Spanned<Stmt>>>)>, Error>) -> Result<
    Seq<(Spanned<ExprM>, Spanned<Seq<Spanned<StmtM>>>)>,
    ErrorM,
> {
    match r {
        Ok(v) => Ok(else_ifs_v(v@)),
        Err(e) => Err(error_v(e)),
    }
}

/// The token at `pos`; past the end, the last token.
pub open spec fn cur_at(toks: Seq<Spanned<Token>>, pos: int) -> Spanned<Token> {
    if 0 <= pos < toks.len() {
        toks[pos]
    } else {
        toks.last()
    }
}

/// The position after the token at `pos` and the comments that follow it.
pub open spec fn next_at(toks: Seq<Spanned<Token>>, pos: int) -> int {
    if 0 <= pos < toks.len() {
        skip_comments(toks, pos + 1)
    } else {
        pos
    }
}

/// Whether the token at `pos` is of the variant of `t`.
pub open spec fn at_kind(toks: Seq<Spanned<Token>>, pos: int, t: Token) -> bool {
    token_kind(cur_at(toks, pos).data) == token_kind(t)
}

/// A later position, not past the end: reading on from there terminates.
pub open spec fn ahead(toks: Seq<Spanned<Token>>, pos: int, p: int) -> bool {
    pos < p <= toks.len()
}

pub open spec fn unexpected(
    message: Option<&'static str>,
    expected: Seq<Seq<char>>,
    found: Spanned<Token>,
    started: Option<Span>,
) -> ErrorM {
    ErrorM::Unexpected { message, expected, found, started }
}

/// Reading a token of the variant of `expected`: its span, or an error naming
/// the variant.
pub open spec fn expect_s(
    toks: Seq<Spanned<Token>>,
    pos: int,
    expected: Token,
    message: Option<&'static str>,
    started: Option<Span>,
) -> (Result<Span, ErrorM>, int) {
    if at_kind(toks, pos, expected) {
        (Ok(cur_at(toks, pos).span), next_at(toks, pos))
    } else {
        (Err(unexpected(message, seq![token_debug(expected)], cur_at(toks, pos), started)), pos)
    }
}

/// Reading an identifier: its name with its span.
pub open spec fn ident_s(toks: Seq<Spanned<Token>>, pos: int, message: Option<&'static str>) -> (
    Result<Spanned<String>, ErrorM>,
    int,
) {
    match cur_at(toks, pos).data {
        Token::Identifier(x) => (Ok(sp(x, cur_at(toks, pos).span)), next_at(toks, pos)),
        _ => (Err(unexpected(message, seq!["Identifier"@], cur_at(toks, pos), None)), pos),
    }
}

// ---------------------------------------------------------------------------
// Types
// ---------------------------------------------------------------------------

/// The opening brackets from `pos` on: their spans, and where they end.
pub open spec fn brackets_s(toks: Seq<Spanned<Token>>, pos: int, starts: Seq<Span>) -> (Seq<Span>, int)
    decreases toks.len() - pos,
{
    if at_kind(toks, pos, Token::LBracket) && ahead(toks, pos, next_at(toks, pos)) {
        brackets_s(toks, next_at(toks, pos), starts.push(cur_at(toks, pos).span))
    } else {
        (starts, pos)
    }
}

/// The closing brackets, innermost first, each reported against its
/// opening one; the span of the last token read.
pub open spec fn close_s(toks: Seq<Spanned<Token>>, pos: int, starts: Seq<Span>, i: int, last: Span) -> (
    Result<Span, ErrorM>,
    int,
)
    decreases starts.len() - i,
{
    if i < 0 || i >= starts.len() {
        (Ok(last), pos)
    } else {
        let (r, p) = expect_s(toks, pos, Token::RBracket, None, Some(starts[starts.len() - i - 1]));
        match r {
            Err(e) => (Err(e), p),
            Ok(l) => close_s(toks, p, starts, i + 1, l),
        }
    }
}

/// A type: a name or a function type, inside any number of brackets.
pub open spec fn type_s(toks: Seq<Spanned<Token>>, pos: int, message: Option<&'static str>) -> (
    Result<Spanned<TypeM>, ErrorM>,
    int,
)
    decreases toks.len() - pos, 2int,
{
    let span = cur_at(toks, pos).span;
    let (starts, p1) = brackets_s(toks, pos, Seq::empty());
    let nesting = starts.len() as usize;
    if at_kind(toks, p1, Token::Function) {
        let (r3, p3) = expect_s(toks, next_at(toks, p1), Token::LParen, None, None);
        match r3 {
            Err(e) => (Err(e), p3),
            Ok(_) => if ahead(toks, pos, p3) {
                let (ra, p4) = type_args_s(toks, p3, Seq::empty());
                match ra {
                    Err(e) => (Err(e), p4),
                    Ok(args) => {
                        let (rr, p5) = expect_s(toks, p4, Token::RParen, None, None);
                        match rr {
                            Err(e) => (Err(e), p5),
                            Ok(rparen) => {
                                let (rret, p6, last) = if at_kind(toks, p5, Token::Colon) && ahead(
                                    toks,
                                    pos,
                                    next_at(toks, p5),
                                ) {
                                    let (rt, p6) = type_s(toks, next_at(toks, p5), Some("return type"));
                                    match rt {
                                        Err(e) => (Err(e), p6, rparen),
                                        Ok(t) => (Ok(Some(Box::new(t))), p6, t.span),
                                    }
                                } else {
                                    (Ok(None), p5, rparen)
                                };
                                match rret {
                                    Err(e) => (Err(e), p6),
                                    Ok(ret) => {
                                        let (rc, p7) = close_s(toks, p6, starts, 0, last);
                                        match rc {
                                            Err(e) => (Err(e), p7),
                                            Ok(l) => (
                                                Ok(sp(TypeM::Function { nesting, args, ret }, span.spec_merge(l))),
                                                p7,
                                            ),
                                        }
                                    },
                                }
                            },
                        }
                    },
                }
            } else {
                (Err(unexpected(None, Seq::empty(), cur_at(toks, p3), None)), p3)
            },
        }
    } else {
        let (ri, p2) = ident_s(toks, p1, message);
        match ri {
            Err(e) => (Err(e), p2),
            Ok(name) => {
                let (rc, p3) = close_s(toks, p2, starts, 0, span);
                match rc {
                    Err(e) => (Err(e), p3),
                    Ok(l) => (Ok(sp(TypeM::Named { nesting, name }, span.spec_merge(l))), p3),
                }
            },
        }
    }
}

/// The parameter types of a function type, up to the closing bracket, with
/// commas between them.
pub open spec fn type_args_s(toks: Seq<Spanned<Token>>, pos: int, acc: Seq<Spanned<TypeM>>) -> (
    Result<Seq<Spanned<TypeM>>, ErrorM>,
    int,
)
    decreases toks.len() - pos, 3int,
{
    if at_kind(toks, pos, Token::RParen) {
        (Ok(acc), pos)
    } else {
        let (rt, p) = type_s(toks, pos, Some("parameter type"));
        match rt {
            Err(e) => (Err(e), p),
            Ok(t) => if at_kind(toks, p, Token::Comma) && ahead(toks, pos, next_at(toks, p)) {
                type_args_s(toks, next_at(toks, p), acc.push(t))
            } else {
                (Ok(acc.push(t)), p)
            },
        }
    }
}


// ---------------------------------------------------------------------------
// Expressions
// ---------------------------------------------------------------------------

/// The binary operator a token stands for.
pub open spec fn binop_of(t: Token) -> Option<BinOp> {
    match t {
        Token::Add => Some(BinOp::Add),
        Token::Minus => Some(BinOp::Sub),
        Token::Concat => Some(BinOp::Concat),
        Token::Times => Some(BinOp::Mul),
        Token::Divide => Some(BinOp::Div),
        Token::Modulo => Some(BinOp::Mod),
        Token::BitAnd => Some(BinOp::BitAnd),
        Token::BitOr => Some(BinOp::BitOr),
        Token::BitXor => Some(BinOp::BitXor),
        Token::LShift => Some(BinOp::Shl),
        Token::RShift => Some(BinOp::Shr),
        Token::And => Some(BinOp::And),
        Token::Or => Some(BinOp::Or),
        Token::EQ => Some(BinOp::EQ),
        Token::NE => Some(BinOp::NE),
        Token::LT => Some(BinOp::LT),
        Token::GT => Some(BinOp::GT),
        Token::LE => Some(BinOp::LE),
        Token::GE => Some(BinOp::GE),
        _ => None,
    }
}

/// An expression.
pub open spec fn expr_s(toks: Seq<Spanned<Token>>, pos: int) -> (Result<Spanned<ExprM>, ErrorM>, int)
    decreases toks.len() - pos, 3int,
{
    inner_s(toks, pos, 0)
}

/// An expression whose operators bind at `minp` or tighter: a primary
/// expression continued by such operators, calls, member accesses and
/// indexes.
pub open spec fn inner_s(toks: Seq<Spanned<Token>>, pos: int, minp: int) -> (
    Result<Spanned<ExprM>, ErrorM>,
    int,
)
    decreases toks.len() - pos, 2int,
{
    let (rp, p1) = primary_s(toks, pos);
    match rp {
        Err(e) => (Err(e), p1),
        Ok(x) => if ahead(toks, pos, p1) {
            climb_s(toks, p1, minp, x)
        } else {
            (Ok(x), p1)
        },
    }
}

/// Continues `lhs` while the token at `pos` binds at `minp` or tighter.
pub open spec fn climb_s(toks: Seq<Spanned<Token>>, pos: int, minp: int, lhs: Spanned<ExprM>) -> (
    Result<Spanned<ExprM>, ErrorM>,
    int,
)
    decreases toks.len() - pos, 1int,
{
    match infix_precedence(cur_at(toks, pos).data) {
        None => (Ok(lhs), pos),
        Some(p) => if p < minp {
            (Ok(lhs), pos)
        } else {
            let (ri, p2) = infix_s(toks, pos, lhs, p as int);
            match ri {
                Err(e) => (Err(e), p2),
                Ok(x) => if ahead(toks, pos, p2) {
                    climb_s(toks, p2, minp, x)
                } else {
                    (Ok(x), p2)
                },
            }
        },
    }
}

/// The operator, call, member access or index that continues `lhs` at
/// `pos`; an operator takes as its right operand an expression binding
/// tighter than `prec`.
pub open spec fn infix_s(toks: Seq<Spanned<Token>>, pos: int, lhs: Spanned<ExprM>, prec: int) -> (
    Result<Spanned<ExprM>, ErrorM>,
    int,
)
    decreases toks.len() - pos, 0int,
{
    let tok = cur_at(toks, pos);
    let n = next_at(toks, pos);
    if !ahead(toks, pos, n) {
        (Err(unexpected(None, Seq::empty(), tok, None)), pos)
    } else {
        match binop_of(tok.data) {
            Some(op) => {
                let (rr, p) = inner_s(toks, n, prec + 1);
                match rr {
                    Err(e) => (Err(e), p),
                    Ok(rhs) => (
                        Ok(
                            sp(
                                ExprM::BinOp {
                                    rhs: Box::new(rhs),
                                    lhs: Box::new(lhs),
                                    op: sp(op, tok.span),
                                },
                                lhs.span.spec_merge(rhs.span),
                            ),
                        ),
                        p,
                    ),
                }
            },
            None => match tok.data {
                Token::Dot | Token::Colon => {
                    let (rm, p) = ident_s(toks, n, Some("member"));
                    match rm {
                        Err(e) => (Err(e), p),
                        Ok(member) => (
                            Ok(sp(ExprM::Member { expr: Box::new(lhs), member }, lhs.span.spec_merge(member.span))),
                            p,
                        ),
                    }
                },
                Token::LParen => {
                    let (ra, p) = list_s(toks, n, Token::RParen);
                    match ra {
                        Err(e) => (Err(e), p),
                        Ok(args) => {
                            let (rl, p2) = expect_s(
                                toks,
                                p,
                                Token::RParen,
                                Some("end of function call"),
                                Some(tok.span),
                            );
                            match rl {
                                Err(e) => (Err(e), p2),
                                Ok(l) => (
                                    Ok(sp(ExprM::Call { expr: Box::new(lhs), args }, lhs.span.spec_merge(l))),
                                    p2,
                                ),
                            }
                        },
                    }
                },
                Token::LBracket => {
                    let (ri, p) = expr_s(toks, n);
                    match ri {
                        Err(e) => (Err(e), p),
                        Ok(index) => {
                            let (rl, p2) = expect_s(
                                toks,
                                p,
                                Token::RBracket,
                                Some("end of indexing"),
                                Some(tok.span),
                            );
                            match rl {
                                Err(e) => (Err(e), p2),
                                Ok(l) => (
                                    Ok(
                                        sp(
                                            ExprM::Index { expr: Box::new(lhs), index: Box::new(index) },
                                            lhs.span.spec_merge(l),
                                        ),
                                    ),
                                    p2,
                                ),
                            }
                        },
                    }
                },
                _ => (Err(ErrorM::Todo { message: "brace after an expression", span: tok.span }), pos),
            },
        }
    }
}

/// Expressions separated by commas from `pos`, up to `term` or to a token
/// that neither continues the list nor ends it, spanning from the first
/// token to the last expression.
pub open spec fn list_s(toks: Seq<Spanned<Token>>, pos: int, term: Token) -> (
    Result<Spanned<Seq<Spanned<ExprM>>>, ErrorM>,
    int,
)
    decreases toks.len() - pos, 5int,
{
    list_loop_s(toks, pos, term, cur_at(toks, pos).span, cur_at(toks, pos).span, Seq::empty())
}

pub open spec fn list_loop_s(
    toks: Seq<Spanned<Token>>,
    pos: int,
    term: Token,
    start: Span,
    last: Span,
    acc: Seq<Spanned<ExprM>>,
) -> (Result<Spanned<Seq<Spanned<ExprM>>>, ErrorM>, int)
    decreases toks.len() - pos, 4int,
{
    if at_kind(toks, pos, term) {
        (Ok(sp(acc, start.spec_merge(last))), pos)
    } else {
        let (re, p) = expr_s(toks, pos);
        match re {
            Err(e) => (Err(e), p),
            Ok(x) => if at_kind(toks, p, Token::Comma) && ahead(toks, pos, next_at(toks, p)) {
                list_loop_s(toks, next_at(toks, p), term, start, x.span, acc.push(x))
            } else {
                (Ok(sp(acc.push(x), start.spec_merge(x.span))), p)
            },
        }
    }
}

/// Whether the token after the one at `pos` is `=`.
pub open spec fn assign_follows(toks: Seq<Spanned<Token>>, pos: int) -> bool {
    peek_index(toks, pos, 1) >= 0 && toks[peek_index(toks, pos, 1)].data is Assign
}

/// The entries of a table from `pos` on, up to the closing brace: a name and
/// `=` before an expression make a named entry.
pub open spec fn table_loop_s(toks: Seq<Spanned<Token>>, pos: int, acc: Seq<Spanned<ElementM>>) -> (
    Result<Seq<Spanned<ElementM>>, ErrorM>,
    int,
)
    decreases toks.len() - pos, 4int,
{
    if at_kind(toks, pos, Token::RBrace) {
        (Ok(acc), pos)
    } else {
        let tok = cur_at(toks, pos);
        let named = tok.data is Identifier && assign_follows(toks, pos);
        let start = if named { next_at(toks, next_at(toks, pos)) } else { pos };
        if named && !ahead(toks, pos, start) {
            (Err(unexpected(None, Seq::empty(), tok, None)), pos)
        } else {
            let (re, p) = expr_s(toks, start);
            match re {
                Err(e) => (Err(e), p),
                Ok(x) => {
                    let el = if named {
                        sp(
                            ElementM::Named { name: sp(tok.data->Identifier_0, tok.span), expr: x },
                            tok.span.spec_merge(x.span),
                        )
                    } else {
                        sp(ElementM::Indexed(x), x.span)
                    };
                    if at_kind(toks, p, Token::Comma) && ahead(toks, pos, next_at(toks, p)) {
                        table_loop_s(toks, next_at(toks, p), acc.push(el))
                    } else {
                        (Ok(acc.push(el)), p)
                    }
                },
            }
        }
    }
}

/// The fields of a type constructor from `pos` on, up to the closing brace:
/// a name alone, or a name, `:` and an expression; spanning from the first
/// token to the last expression.
pub open spec fn ctor_loop_s(
    toks: Seq<Spanned<Token>>,
    pos: int,
    fstart: Span,
    fend: Span,
    acc: Seq<Spanned<FieldM>>,
) -> (Result<Spanned<Seq<Spanned<FieldM>>>, ErrorM>, int)
    decreases toks.len() - pos, 4int,
{
    if at_kind(toks, pos, Token::RBrace) {
        (Ok(sp(acc, fstart.spec_merge(fend))), pos)
    } else {
        let (rn, p1) = ident_s(toks, pos, Some("field"));
        match rn {
            Err(e) => (Err(e), p1),
            Ok(name) => {
                let (rf, p2, fend2) = if !at_kind(toks, p1, Token::Colon) {
                    (Ok(sp(FieldM::Implicit(name.data), name.span)), p1, fend)
                } else if ahead(toks, pos, next_at(toks, p1)) {
                    let (re, p2) = expr_s(toks, next_at(toks, p1));
                    match re {
                        Err(e) => (Err(e), p2, fend),
                        Ok(x) => (
                            Ok(sp(FieldM::Explicit { name, expr: x }, name.span.spec_merge(x.span))),
                            p2,
                            x.span,
                        ),
                    }
                } else {
                    (Err(unexpected(None, Seq::empty(), cur_at(toks, p1), None)), p1, fend)
                };
                match rf {
                    Err(e) => (Err(e), p2),
                    Ok(f) => if at_kind(toks, p2, Token::Comma) && ahead(toks, pos, next_at(toks, p2)) {
                        ctor_loop_s(toks, next_at(toks, p2), fstart, fend2, acc.push(f))
                    } else {
                        (Ok(sp(acc.push(f), fstart.spec_merge(fend2))), p2)
                    },
                }
            },
        }
    }
}

/// A primary expression: a literal, an identifier, a type constructor, a
/// prefix operation, a parenthesised expression, a list or a table.
pub open spec fn primary_s(toks: Seq<Spanned<Token>>, pos: int) -> (Result<Spanned<ExprM>, ErrorM>, int)
    decreases toks.len() - pos, 1int,
{
    let tok = cur_at(toks, pos);
    let span = tok.span;
    let n = next_at(toks, pos);
    if !starts_primary(tok.data) || !ahead(toks, pos, n) {
        (Err(unexpected(Some("primary expression"), Seq::empty(), tok, None)), pos)
    } else {
        match tok.data {
            Token::Nil => (Ok(sp(ExprM::Nil, span)), n),
            Token::True => (Ok(sp(ExprM::True, span)), n),
            Token::False => (Ok(sp(ExprM::False, span)), n),
            Token::Integer(k) => (Ok(sp(ExprM::Integer(k as i64), span)), n),
            Token::String(x) => (Ok(sp(ExprM::String(x), span)), n),
            Token::Add => inner_s(toks, n, 100),
            Token::Minus => {
                let (re, p) = inner_s(toks, n, 100);
                match re {
                    Err(e) => (Err(e), p),
                    Ok(x) => (
                        Ok(sp(ExprM::UnOp { expr: Box::new(x), op: sp(UnOp::Neg, span) }, span.spec_merge(x.span))),
                        p,
                    ),
                }
            },
            Token::Not => {
                let (re, p) = inner_s(toks, n, 100);
                match re {
                    Err(e) => (Err(e), p),
                    Ok(x) => (
                        Ok(sp(ExprM::UnOp { expr: Box::new(x), op: sp(UnOp::Not, span) }, span.spec_merge(x.span))),
                        p,
                    ),
                }
            },
            Token::LParen => {
                let (re, p) = expr_s(toks, n);
                match re {
                    Err(e) => (Err(e), p),
                    Ok(x) => {
                        let (rr, p2) = expect_s(toks, p, Token::RParen, None, None);
                        match rr {
                            Err(e) => (Err(e), p2),
                            Ok(_) => (Ok(x), p2),
                        }
                    },
                }
            },
            Token::LBracket => {
                let (rl, p) = list_s(toks, n, Token::RBracket);
                match rl {
                    Err(e) => (Err(e), p),
                    Ok(elements) => {
                        let (rr, p2) = expect_s(toks, p, Token::RBracket, Some("end of list"), Some(span));
                        match rr {
                            Err(e) => (Err(e), p2),
                            Ok(l) => (Ok(sp(ExprM::List { elements }, span.spec_merge(l))), p2),
                        }
                    },
                }
            },
            Token::LBrace => {
                let (rt, p) = table_loop_s(toks, n, Seq::empty());
                match rt {
                    Err(e) => (Err(e), p),
                    Ok(elements) => {
                        let (rr, p2) = expect_s(toks, p, Token::RBrace, None, None);
                        match rr {
                            Err(e) => (Err(e), p2),
                            Ok(l) => (Ok(sp(ExprM::Table { elements }, span.spec_merge(l))), p2),
                        }
                    },
                }
            },
            Token::Identifier(name) => if at_kind(toks, n, Token::LBrace) && ahead(toks, pos, next_at(toks, n)) {
                let n2 = next_at(toks, n);
                let fstart = cur_at(toks, n2).span;
                let (rf, p) = ctor_loop_s(toks, n2, fstart, fstart, Seq::empty());
                match rf {
                    Err(e) => (Err(e), p),
                    Ok(fields) => {
                        let (rr, p2) = expect_s(toks, p, Token::RBrace, None, None);
                        match rr {
                            Err(e) => (Err(e), p2),
                            Ok(l) => (
                                Ok(sp(ExprM::TypeConstructor { name: sp(name, span), fields }, span.spec_merge(l))),
                                p2,
                            ),
                        }
                    },
                }
            } else {
                (Ok(sp(ExprM::Identifier(name), span)), n)
            },
            _ => (Err(unexpected(Some("primary expression"), Seq::empty(), tok, None)), pos),
        }
    }
}


// ---------------------------------------------------------------------------
// Statements
// ---------------------------------------------------------------------------

/// Whether an expression can stand on the left of an assignment.
pub open spec fn lvalue_m(e: ExprM) -> bool {
    e is Identifier || e is Member || e is Index
}

/// Parameters (`name: type`) from `pos` on up to the closing parenthesis,
/// spanning from the first token to the last type.
pub open spec fn args_s(
    toks: Seq<Spanned<Token>>,
    pos: int,
    term: Token,
    name_msg: &'static str,
    type_msg: &'static str,
    start: Span,
    end: Span,
    acc: Seq<Spanned<ArgDefM>>,
) -> (Result<Spanned<Seq<Spanned<ArgDefM>>>, ErrorM>, int)
    decreases toks.len() - pos,
{
    if at_kind(toks, pos, term) {
        (Ok(sp(acc, start.spec_merge(end))), pos)
    } else {
        let (rn, p1) = ident_s(toks, pos, Some(name_msg));
        match rn {
            Err(e) => (Err(e), p1),
            Ok(name) => {
                let (rc, p2) = expect_s(toks, p1, Token::Colon, None, None);
                match rc {
                    Err(e) => (Err(e), p2),
                    Ok(_) => {
                        let (rt, p3) = type_s(toks, p2, Some(type_msg));
                        match rt {
                            Err(e) => (Err(e), p3),
                            Ok(t) => {
                                let a = sp(ArgDefM { name, typ: t }, name.span.spec_merge(t.span));
                                if ahead(toks, pos, p3) {
                                    args_s(toks, p3, term, name_msg, type_msg, start, t.span, acc.push(a))
                                } else {
                                    (Ok(sp(acc.push(a), start.spec_merge(t.span))), p3)
                                }
                            },
                        }
                    },
                }
            },
        }
    }
}

/// More names after a comma, with the span of the last.
pub open spec fn names_s(toks: Seq<Spanned<Token>>, pos: int, end: Span, acc: Seq<Spanned<String>>) -> (
    Result<(Seq<Spanned<String>>, Span), ErrorM>,
    int,
)
    decreases toks.len() - pos,
{
    if at_kind(toks, pos, Token::Comma) && ahead(toks, pos, next_at(toks, pos)) {
        let (ri, p) = ident_s(toks, next_at(toks, pos), Some("binding name"));
        match ri {
            Err(e) => (Err(e), p),
            Ok(id) => if ahead(toks, pos, p) {
                names_s(toks, p, id.span, acc.push(id))
            } else {
                (Ok((acc.push(id), id.span)), p)
            },
        }
    } else {
        (Ok((acc, end)), pos)
    }
}

/// More expressions after a comma, with the span of the last; where
/// `lvalues`, each must be able to stand on the left of an assignment.
pub open spec fn more_exprs_s(
    toks: Seq<Spanned<Token>>,
    pos: int,
    lvalues: bool,
    last: Span,
    acc: Seq<Spanned<ExprM>>,
) -> (Result<(Seq<Spanned<ExprM>>, Span), ErrorM>, int)
    decreases toks.len() - pos,
{
    if at_kind(toks, pos, Token::Comma) && ahead(toks, pos, next_at(toks, pos)) {
        let (re, p) = expr_s(toks, next_at(toks, pos));
        match re {
            Err(e) => (Err(e), p),
            Ok(x) => if lvalues && !lvalue_m(x.data) {
                (Err(unexpected(Some("lvalue"), Seq::empty(), cur_at(toks, p), None)), p)
            } else if ahead(toks, pos, p) {
                more_exprs_s(toks, p, lvalues, x.span, acc.push(x))
            } else {
                (Ok((acc.push(x), x.span)), p)
            },
        }
    } else {
        (Ok((acc, last)), pos)
    }
}

/// A list of expressions to assign, after `=`, with the span of the last.
pub open spec fn rhs_s(toks: Seq<Spanned<Token>>, pos: int) -> (
    Result<(Spanned<Seq<Spanned<ExprM>>>, Span), ErrorM>,
    int,
) {
    let (re, p) = expr_s(toks, pos);
    match re {
        Err(e) => (Err(e), p),
        Ok(x) => {
            let (rr, p2) = more_exprs_s(toks, p, false, x.span, seq![x]);
            match rr {
                Err(e) => (Err(e), p2),
                Ok((v, last)) => (Ok((sp(v, x.span.spec_merge(last)), last)), p2),
            }
        },
    }
}

/// `struct`, a name, and fields up to `end`.
pub open spec fn struct_s(toks: Seq<Spanned<Token>>, pos: int, span: Span) -> (
    Result<Spanned<StmtM>, ErrorM>,
    int,
) {
    let (rn, p1) = ident_s(toks, next_at(toks, pos), Some("type name"));
    match rn {
        Err(e) => (Err(e), p1),
        Ok(name) => {
            let fstart = cur_at(toks, p1).span;
            let (rf, p2) = args_s(toks, p1, Token::End, "field name", "field type", fstart, fstart, Seq::empty());
            match rf {
                Err(e) => (Err(e), p2),
                Ok(fields) => (
                    Ok(sp(StmtM::TypeDef { name, fields }, span.spec_merge(cur_at(toks, p2).span))),
                    next_at(toks, p2),
                ),
            }
        },
    }
}

/// `local` and names bound to a list of expressions.
pub open spec fn binding_s(toks: Seq<Spanned<Token>>, pos: int, span: Span) -> (
    Result<Spanned<StmtM>, ErrorM>,
    int,
) {
    let (rf, p1) = ident_s(toks, pos, None);
    match rf {
        Err(e) => (Err(e), p1),
        Ok(first) => {
            let (rn, p2) = names_s(toks, p1, first.span, seq![first]);
            match rn {
                Err(e) => (Err(e), p2),
                Ok((names, end)) => {
                    let (ra, p3) = expect_s(toks, p2, Token::Assign, None, None);
                    match ra {
                        Err(e) => (Err(e), p3),
                        Ok(_) => {
                            let (rr, p4) = rhs_s(toks, p3);
                            match rr {
                                Err(e) => (Err(e), p4),
                                Ok((rhs, _)) => (
                                    Ok(
                                        sp(
                                            StmtM::Binding { lhs: sp(names, first.span.spec_merge(end)), rhs },
                                            span.spec_merge(rhs.span),
                                        ),
                                    ),
                                    p4,
                                ),
                            }
                        },
                    }
                },
            }
        },
    }
}

/// A call, or places assigned a list of expressions.
pub open spec fn assign_or_call_s(toks: Seq<Spanned<Token>>, pos: int, span: Span) -> (
    Result<Spanned<StmtM>, ErrorM>,
    int,
) {
    let (re, p1) = expr_s(toks, pos);
    match re {
        Err(e) => (Err(e), p1),
        Ok(x) => match x.data {
            ExprM::Call { expr, args } => (Ok(sp(StmtM::Call { expr, args }, x.span)), p1),
            _ => if !lvalue_m(x.data) {
                (Err(unexpected(Some("lvalue or function call"), Seq::empty(), cur_at(toks, p1), None)), p1)
            } else {
                let (rl, p2) = more_exprs_s(toks, p1, true, span, seq![x]);
                match rl {
                    Err(e) => (Err(e), p2),
                    Ok((lhs, last)) => {
                        let (ra, p3) = expect_s(toks, p2, Token::Assign, None, None);
                        match ra {
                            Err(e) => (Err(e), p3),
                            Ok(_) => {
                                let (rr, p4) = rhs_s(toks, p3);
                                match rr {
                                    Err(e) => (Err(e), p4),
                                    Ok((rhs, rlast)) => (
                                        Ok(
                                            sp(
                                                StmtM::Assign { lhs: sp(lhs, x.span.spec_merge(last)), rhs },
                                                span.spec_merge(rlast),
                                            ),
                                        ),
                                        p4,
                                    ),
                                }
                            },
                        }
                    },
                }
            },
        },
    }
}

/// Statements up to a token that closes a block, spanning from the first
/// token to the last statement.
pub open spec fn block_s(toks: Seq<Spanned<Token>>, pos: int) -> (
    Result<Spanned<Seq<Spanned<StmtM>>>, ErrorM>,
    int,
)
    decreases toks.len() - pos, 6int,
{
    block_loop_s(toks, pos, cur_at(toks, pos).span, cur_at(toks, pos).span, Seq::empty())
}

pub open spec fn block_loop_s(
    toks: Seq<Spanned<Token>>,
    pos: int,
    start: Span,
    last: Span,
    acc: Seq<Spanned<StmtM>>,
) -> (Result<Spanned<Seq<Spanned<StmtM>>>, ErrorM>, int)
    decreases toks.len() - pos, 5int,
{
    if closes_block(cur_at(toks, pos).data) {
        (Ok(sp(acc, start.spec_merge(last))), pos)
    } else {
        let (rs, p) = stmt_s(toks, pos);
        match rs {
            Err(e) => (Err(e), p),
            Ok(st) => if ahead(toks, pos, p) {
                block_loop_s(toks, p, start, st.span, acc.push(st))
            } else {
                (Ok(sp(acc.push(st), start.spec_merge(st.span))), p)
            },
        }
    }
}

/// `elseif` clauses from `pos` on.
pub open spec fn else_ifs_s(
    toks: Seq<Spanned<Token>>,
    pos: int,
    acc: Seq<(Spanned<ExprM>, Spanned<Seq<Spanned<StmtM>>>)>,
) -> (Result<Seq<(Spanned<ExprM>, Spanned<Seq<Spanned<StmtM>>>)>, ErrorM>, int)
    decreases toks.len() - pos, 2int,
{
    if at_kind(toks, pos, Token::ElseIf) && ahead(toks, pos, next_at(toks, pos)) {
        let (rc, p1) = expr_s(toks, next_at(toks, pos));
        match rc {
            Err(e) => (Err(e), p1),
            Ok(c) => {
                let (rt, p2) = expect_s(toks, p1, Token::Then, None, None);
                match rt {
                    Err(e) => (Err(e), p2),
                    Ok(_) => if ahead(toks, pos, p2) {
                        let (rb, p3) = block_s(toks, p2);
                        match rb {
                            Err(e) => (Err(e), p3),
                            Ok(b) => if ahead(toks, pos, p3) {
                                else_ifs_s(toks, p3, acc.push((c, b)))
                            } else {
                                (Ok(acc.push((c, b))), p3)
                            },
                        }
                    } else {
                        (Err(unexpected(None, Seq::empty(), cur_at(toks, p2), None)), p2)
                    },
                }
            },
        }
    } else {
        (Ok(acc), pos)
    }
}

/// `if`, a condition, `then` and a block, `elseif` clauses, an `else`
/// block, and `end`.
pub open spec fn if_s(toks: Seq<Spanned<Token>>, pos: int, span: Span) -> (
    Result<Spanned<StmtM>, ErrorM>,
    int,
)
    decreases toks.len() - pos, 3int,
{
    let n = next_at(toks, pos);
    if !ahead(toks, pos, n) {
        (Err(unexpected(None, Seq::empty(), cur_at(toks, pos), None)), pos)
    } else {
        let (rc, p1) = expr_s(toks, n);
        match rc {
            Err(e) => (Err(e), p1),
            Ok(c) => {
                let (rt, p2) = expect_s(toks, p1, Token::Then, None, None);
                match rt {
                    Err(e) => (Err(e), p2),
                    Ok(_) => if !ahead(toks, pos, p2) {
                        (Err(unexpected(None, Seq::empty(), cur_at(toks, p2), None)), p2)
                    } else {
                        let (rb, p3) = block_s(toks, p2);
                        match rb {
                            Err(e) => (Err(e), p3),
                            Ok(then_block) => if !ahead(toks, pos, p3) {
                                (Err(unexpected(None, Seq::empty(), cur_at(toks, p3), None)), p3)
                            } else {
                                let (re, p4) = else_ifs_s(toks, p3, Seq::empty());
                                match re {
                                    Err(e) => (Err(e), p4),
                                    Ok(else_if_blocks) => {
                                        let (rl, p5) = if at_kind(toks, p4, Token::Else) && ahead(
                                            toks,
                                            pos,
                                            next_at(toks, p4),
                                        ) {
                                            let (rb2, p5) = block_s(toks, next_at(toks, p4));
                                            match rb2 {
                                                Err(e) => (Err(e), p5),
                                                Ok(b) => (Ok(Some(b)), p5),
                                            }
                                        } else {
                                            (Ok(None), p4)
                                        };
                                        match rl {
                                            Err(e) => (Err(e), p5),
                                            Ok(else_block) => {
                                                let (rend, p6) = expect_s(toks, p5, Token::End, None, None);
                                                match rend {
                                                    Err(e) => (Err(e), p6),
                                                    Ok(end) => (
                                                        Ok(
                                                            sp(
                                                                StmtM::If {
                                                                    condition: Box::new(c),
                                                                    then_block,
                                                                    else_if_blocks,
                                                                    else_block,
                                                                },
                                                                span.spec_merge(end),
                                                            ),
                                                        ),
                                                        p6,
                                                    ),
                                                }
                                            },
                                        }
                                    },
                                }
                            },
                        }
                    },
                }
            },
        }
    }
}

/// `function`, a name, parameters, a return type after `:`, a body, and
/// `end`.
pub open spec fn function_s(toks: Seq<Spanned<Token>>, pos: int, span: Span, is_local: bool) -> (
    Result<Spanned<StmtM>, ErrorM>,
    int,
)
    decreases toks.len() - pos, 3int,
{
    let (rn, p1) = ident_s(toks, next_at(toks, pos), Some("function name"));
    match rn {
        Err(e) => (Err(e), p1),
        Ok(name) => {
            let (rl, p2) = expect_s(toks, p1, Token::LParen, None, None);
            match rl {
                Err(e) => (Err(e), p2),
                Ok(_) => {
                    let astart = cur_at(toks, p2).span;
                    let (ra, p3) = args_s(toks, p2, Token::RParen, "arg name", "arg type", astart, astart, Seq::empty());
                    match ra {
                        Err(e) => (Err(e), p3),
                        Ok(args) => {
                            let (rr, p4) = expect_s(toks, p3, Token::RParen, None, None);
                            match rr {
                                Err(e) => (Err(e), p4),
                                Ok(_) => {
                                    let (rret, p5) = if at_kind(toks, p4, Token::Colon) {
                                        let (rt, p5) = type_s(toks, next_at(toks, p4), Some("return type"));
                                        match rt {
                                            Err(e) => (Err(e), p5),
                                            Ok(t) => (Ok(Some(t)), p5),
                                        }
                                    } else {
                                        (Ok(None), p4)
                                    };
                                    match rret {
                                        Err(e) => (Err(e), p5),
                                        Ok(ret) => if !ahead(toks, pos, p5) {
                                            (Err(unexpected(None, Seq::empty(), cur_at(toks, p5), None)), p5)
                                        } else {
                                            let (rb, p6) = block_s(toks, p5);
                                            match rb {
                                                Err(e) => (Err(e), p6),
                                                Ok(body) => {
                                                    let (re, p7) = expect_s(toks, p6, Token::End, None, None);
                                                    match re {
                                                        Err(e) => (Err(e), p7),
                                                        Ok(end) => (
                                                            Ok(
                                                                sp(
                                                                    StmtM::FuncDef {
                                                                        is_local,
                                                                        name,
                                                                        body: FuncBodyM { args, ret, body },
                                                                    },
                                                                    span.spec_merge(end),
                                                                ),
                                                            ),
                                                            p7,
                                                        ),
                                                    }
                                                },
                                            }
                                        },
                                    }
                                },
                            }
                        },
                    }
                },
            }
        },
    }
}

/// One statement.
pub open spec fn stmt_s(toks: Seq<Spanned<Token>>, pos: int) -> (Result<Spanned<StmtM>, ErrorM>, int)
    decreases toks.len() - pos, 4int,
{
    let span = cur_at(toks, pos).span;
    let is_local = at_kind(toks, pos, Token::Local);
    let q = if is_local { next_at(toks, pos) } else { pos };
    let tok = cur_at(toks, q);
    let local_err = (Err(unexpected(None, Seq::empty(), tok, None)), q);
    if is_local && !ahead(toks, pos, q) {
        local_err
    } else {
        match tok.data {
            Token::Break => if is_local {
                local_err
            } else {
                (Ok(sp(StmtM::Break, span)), next_at(toks, q))
            },
            Token::Return => if is_local {
                local_err
            } else {
                let n = next_at(toks, q);
                match cur_at(toks, n).data {
                    Token::End | Token::ElseIf | Token::Else => (Ok(sp(StmtM::Return { expr: None }, span)), n),
                    _ => if ahead(toks, pos, n) {
                        let (re, p) = expr_s(toks, n);
                        match re {
                            Err(e) => (Err(e), p),
                            Ok(x) => (Ok(sp(StmtM::Return { expr: Some(x) }, span.spec_merge(x.span))), p),
                        }
                    } else {
                        (Err(unexpected(None, Seq::empty(), cur_at(toks, n), None)), n)
                    },
                }
            },
            Token::Struct => if is_local {
                local_err
            } else {
                struct_s(toks, q, span)
            },
            Token::Function => function_s(toks, q, span, is_local),
            Token::If => if is_local {
                local_err
            } else {
                if_s(toks, q, span)
            },
            _ => if is_local {
                binding_s(toks, q, span)
            } else {
                assign_or_call_s(toks, q, span)
            },
        }
    }
}

/// Statements up to the end of input.
pub open spec fn program_s(toks: Seq<Spanned<Token>>, pos: int, acc: Seq<Spanned<StmtM>>) -> (
    Result<Seq<Spanned<StmtM>>, ErrorM>,
    int,
)
    decreases toks.len() - pos,
{
    if at_kind(toks, pos, Token::Eof) {
        let (r, p) = expect_s(toks, pos, Token::Eof, None, None);
        match r {
            Err(e) => (Err(e), p),
            Ok(_) => (Ok(acc), p),
        }
    } else {
        let (rs, p) = stmt_s(toks, pos);
        match rs {
            Err(e) => (Err(e), p),
            Ok(st) => if ahead(toks, pos, p) {
                program_s(toks, p, acc.push(st))
            } else {
                (Ok(acc.push(st)), p)
            },
        }
    }
}


/// The expression that a literal or name token stands for by itself.
pub open spec fn atom_expr(t: Token) -> Option<ExprM> {
    match t {
        Token::Nil => Some(ExprM::Nil),
        Token::True => Some(ExprM::True),
        Token::False => Some(ExprM::False),
        Token::Integer(k) => Some(ExprM::Integer(k as i64)),
        Token::String(x) => Some(ExprM::String(x)),
        Token::Identifier(x) => Some(ExprM::Identifier(x)),
        _ => None,
    }
}

/// The operator and the two operands, left then right, of a binary
/// operation.
pub open spec fn binop_parts(x: ExprM) -> Option<(BinOp, ExprM, ExprM)> {
    match x {
        ExprM::BinOp { op, lhs, rhs } => Some((op.data, lhs.data, rhs.data)),
        _ => None,
    }
}

/// Reading a literal or name followed by a binary operator or the end of
/// input gives that atom and moves past it.
proof fn lemma_atom(toks: Seq<Spanned<Token>>, pos: int)
    requires
        0 <= pos < toks.len() - 1,
        atom_expr(toks[pos].data) is Some,
        !(toks[pos + 1].data is Comment),
        binop_of(toks[pos + 1].data) is Some || toks[pos + 1].data is Eof,
    ensures
        primary_s(toks, pos) == (
            Ok::<Spanned<ExprM>, ErrorM>(sp(atom_expr(toks[pos].data).unwrap(), toks[pos].span)),
            pos + 1,
        ),
{
    assert(skip_comments(toks, pos + 1) == pos + 1);
}

/// In `a or b and c`, `and` binds tighter: the expression is
/// `a or (b and c)`.
pub proof fn law_and_binds_tighter_than_or(
    a: Spanned<Token>,
    o: Spanned<Token>,
    b: Spanned<Token>,
    n: Spanned<Token>,
    c: Spanned<Token>,
    e: Spanned<Token>,
)
    requires
        atom_expr(a.data) is Some,
        atom_expr(b.data) is Some,
        atom_expr(c.data) is Some,
        o.data is Or,
        n.data is And,
        e.data is Eof,
    ensures
        ({
            let (r, p) = expr_s(seq![a, o, b, n, c, e], 0);
            &&& p == 5
            &&& r is Ok
            &&& binop_parts(r->Ok_0.data) matches Some(top) && top.0 == BinOp::Or
            &&& binop_parts(r->Ok_0.data).unwrap().1 == atom_expr(a.data).unwrap()
            &&& binop_parts(binop_parts(r->Ok_0.data).unwrap().2) == Some(
                (BinOp::And, atom_expr(b.data).unwrap(), atom_expr(c.data).unwrap()),
            )
        }),
{
    let toks = seq![a, o, b, n, c, e];
    let xa = sp(atom_expr(a.data).unwrap(), a.span);
    let xb = sp(atom_expr(b.data).unwrap(), b.span);
    let xc = sp(atom_expr(c.data).unwrap(), c.span);
    lemma_atom(toks, 0);
    lemma_atom(toks, 2);
    lemma_atom(toks, 4);
    assert(skip_comments(toks, 2) == 2);
    assert(skip_comments(toks, 4) == 4);
    let bc = sp(
        ExprM::BinOp { rhs: Box::new(xc), lhs: Box::new(xb), op: sp(BinOp::And, n.span) },
        xb.span.spec_merge(xc.span),
    );
    let abc = sp(
        ExprM::BinOp { rhs: Box::new(bc), lhs: Box::new(xa), op: sp(BinOp::Or, o.span) },
        xa.span.spec_merge(bc.span),
    );
    assert(climb_s(toks, 5, 31, xc) == (Ok::<Spanned<ExprM>, ErrorM>(xc), 5int));
    assert(inner_s(toks, 4, 31) == (Ok::<Spanned<ExprM>, ErrorM>(xc), 5int));
    assert(infix_s(toks, 3, xb, 30) == (Ok::<Spanned<ExprM>, ErrorM>(bc), 5int));
    assert(climb_s(toks, 5, 21, bc) == (Ok::<Spanned<ExprM>, ErrorM>(bc), 5int));
    assert(climb_s(toks, 3, 21, xb) == (Ok::<Spanned<ExprM>, ErrorM>(bc), 5int));
    assert(inner_s(toks, 2, 21) == (Ok::<Spanned<ExprM>, ErrorM>(bc), 5int));
    assert(infix_s(toks, 1, xa, 20) == (Ok::<Spanned<ExprM>, ErrorM>(abc), 5int));
    assert(climb_s(toks, 5, 0, abc) == (Ok::<Spanned<ExprM>, ErrorM>(abc), 5int));
    assert(climb_s(toks, 1, 0, xa) == (Ok::<Spanned<ExprM>, ErrorM>(abc), 5int));
    assert(expr_s(toks, 0) == (Ok::<Spanned<ExprM>, ErrorM>(abc), 5int));
}

/// In `a and b or c`, `and` binds tighter: the expression is
/// `(a and b) or c`.
pub proof fn law_and_binds_tighter_than_or_on_the_left(
    a: Spanned<Token>,
    n: Spanned<Token>,
    b: Spanned<Token>,
    o: Spanned<Token>,
    c: Spanned<Token>,
    e: Spanned<Token>,
)
    requires
        atom_expr(a.data) is Some,
        atom_expr(b.data) is Some,
        atom_expr(c.data) is Some,
        n.data is And,
        o.data is Or,
        e.data is Eof,
    ensures
        ({
            let (r, p) = expr_s(seq![a, n, b, o, c, e], 0);
            &&& p == 5
            &&& r is Ok
            &&& binop_parts(r->Ok_0.data) matches Some(top) && top.0 == BinOp::Or
            &&& binop_parts(r->Ok_0.data).unwrap().2 == atom_expr(c.data).unwrap()
            &&& binop_parts(binop_parts(r->Ok_0.data).unwrap().1) == Some(
                (BinOp::And, atom_expr(a.data).unwrap(), atom_expr(b.data).unwrap()),
            )
        }),
{
    let toks = seq![a, n, b, o, c, e];
    let xa = sp(atom_expr(a.data).unwrap(), a.span);
    let xb = sp(atom_expr(b.data).unwrap(), b.span);
    let xc = sp(atom_expr(c.data).unwrap(), c.span);
    lemma_atom(toks, 0);
    lemma_atom(toks, 2);
    lemma_atom(toks, 4);
    assert(skip_comments(toks, 2) == 2);
    assert(skip_comments(toks, 4) == 4);
    let ab = sp(
        ExprM::BinOp { rhs: Box::new(xb), lhs: Box::new(xa), op: sp(BinOp::And, n.span) },
        xa.span.spec_merge(xb.span),
    );
    let abc = sp(
        ExprM::BinOp { rhs: Box::new(xc), lhs: Box::new(ab), op: sp(BinOp::Or, o.span) },
        ab.span.spec_merge(xc.span),
    );
    assert(climb_s(toks, 3, 31, xb) == (Ok::<Spanned<ExprM>, ErrorM>(xb), 3int));
    assert(inner_s(toks, 2, 31) == (Ok::<Spanned<ExprM>, ErrorM>(xb), 3int));
    assert(infix_s(toks, 1, xa, 30) == (Ok::<Spanned<ExprM>, ErrorM>(ab), 3int));
    assert(climb_s(toks, 5, 21, xc) == (Ok::<Spanned<ExprM>, ErrorM>(xc), 5int));
    assert(inner_s(toks, 4, 21) == (Ok::<Spanned<ExprM>, ErrorM>(xc), 5int));
    assert(infix_s(toks, 3, ab, 20) == (Ok::<Spanned<ExprM>, ErrorM>(abc), 5int));
    assert(climb_s(toks, 5, 0, abc) == (Ok::<Spanned<ExprM>, ErrorM>(abc), 5int));
    assert(climb_s(toks, 3, 0, ab) == (Ok::<Spanned<ExprM>, ErrorM>(abc), 5int));
    assert(climb_s(toks, 1, 0, xa) == (Ok::<Spanned<ExprM>, ErrorM>(abc), 5int));
    assert(expr_s(toks, 0) == (Ok::<Spanned<ExprM>, ErrorM>(abc), 5int));
}
} // verus!
