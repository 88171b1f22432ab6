use vstd::prelude::*;

use crate::ast::{ArgDef, BinOp, Element, Expr, FieldConstructor, FuncBody, Stmt, Type, UnOp};
use crate::ast::{
    argdefs_v, elements_v, else_ifs_v, expr_v, exprs_v, fields_v, sp, stmts_v, types_v, ElementM, ExprM,
    FieldM, StmtM, TypeM,
};
use crate::grammar::{
    args_res, args_s, assign_or_call_s, binding_s, block_loop_s, block_res, block_s, else_ifs_res,
    else_ifs_s, exprs_res, function_s, if_s, more_exprs_s, names_res, names_s, program_res, program_s,
    rhs_res, rhs_s, stmt_res, stmt_s, struct_s,
    brackets_s, climb_s, close_s, ctor_loop_s, cur_at, expr_s, infix_s, inner_s, list_loop_s, list_s,
    primary_s, table_loop_s, type_args_s, unexpected, ErrorM, error_v, expect_s, expr_res, ident_res,
    ident_s, list_res, span_res, strings_v, type_res, type_s,
};
use crate::lexer::{token_debug, token_debug_text, token_kind, Token};
use crate::source::{span_text, Source, Span, Spanned};
use crate::text::{debug_str, push_str, str_debug};

verus! {

#[derive(Debug)]
pub enum Error {
    Todo { message: &'static str, span: Span },
    Unexpected {
        message: Option<&'static str>,
        expected: Vec<String>,
        found: Spanned<Token>,
        started: Option<Span>,
    },
}

/// What `{:?}` writes for strings from the `i`-th on, each quoted, with
/// commas between them.
pub open spec fn strings_debug_from(v: Seq<String>, i: int) -> Seq<char>
    decreases v.len() - i,
{
    if i < 0 || i >= v.len() {
        Seq::empty()
    } else {
        (if i > 0 { ", "@ } else { Seq::<char>::empty() }) + str_debug(v[i]@) + strings_debug_from(v, i + 1)
    }
}

/// What `{:?}` writes for a list of strings.
pub open spec fn strings_debug(v: Seq<String>) -> Seq<char> {
    "["@ + strings_debug_from(v, 0) + "]"@
}

/// The first line of the report of an unexpected token, up to the token.
pub open spec fn unexpected_head(message: Option<&'static str>, expected: Seq<String>) -> Seq<char> {
    match message {
        Some(m) => "Expected "@ + m@ + (if expected.len() == 1 {
            " (token `"@ + expected[0]@ + "`)"@
        } else if expected.len() > 1 {
            " (tokens "@ + strings_debug(expected) + ")"@
        } else {
            Seq::<char>::empty()
        }) + ", but found"@,
        None => if expected.len() == 1 {
            "Expected token `"@ + expected[0]@ + "`, but found"@
        } else {
            "Unexpected"@
        },
    }
}

/// The report of a parse error: what was expected and found, where, and where
/// the construct being read started.
pub open spec fn parse_error_text(s: Seq<char>, name: Seq<char>, e: Error) -> Seq<char> {
    match e {
        Error::Todo { message, span } => "todo: "@ + message@ + "\n"@ + span_text(s, name, span),
        Error::Unexpected { message, expected, found, started } => "error: "@ + unexpected_head(
            message,
            expected@,
        ) + " token `"@ + token_debug(found.data) + "`\n"@ + span_text(s, name, found.span)
            + match started {
            Some(sp) => "note: Started by\n"@ + span_text(s, name, sp),
            None => Seq::<char>::empty(),
        },
    }
}

fn strings_debug_text(v: &Vec<String>) -> (r: String)
    ensures
        r@ == strings_debug(v@),
{
    let mut out = "[".to_owned();
    let ghost start = out@;
    let mut i: usize = 0;
    while i < v.len()
        invariant
            i <= v@.len(),
            out@ + strings_debug_from(v@, i as int) == "["@ + strings_debug_from(v@, 0),
        decreases v@.len() - i,
    {
        let ghost before = out@;
        if i > 0 {
            push_str(&mut out, ", ");
        }
        push_str(&mut out, debug_str(v[i].as_str()).as_str());
        assert(out@ + strings_debug_from(v@, i + 1) =~= before + strings_debug_from(v@, i as int));
        i += 1;
    }
    assert(out@ =~= "["@ + strings_debug_from(v@, 0));
    push_str(&mut out, "]");
    out
}

impl Error {
    /// Reports the error.
    pub fn pretty_print(&self, source: &Source) -> (r: String)
        requires
            source@.len() < usize::MAX,
        ensures
            r@ == parse_error_text(source@, source.name@, *self),
    {
        match self {
            Error::Todo { message, span } => {
                let mut out = "todo: ".to_owned();
                push_str(&mut out, message);
                push_str(&mut out, "\n");
                push_str(&mut out, source.print_span(*span).as_str());
                out
            },
            Error::Unexpected { message, expected, found, started } => {
                let mut out = "error: ".to_owned();
                if let Some(m) = message {
                    push_str(&mut out, "Expected ");
                    push_str(&mut out, m);
                    if expected.len() == 1 {
                        push_str(&mut out, " (token `");
                        push_str(&mut out, expected[0].as_str());
                        push_str(&mut out, "`)");
                    } else if expected.len() > 1 {
                        push_str(&mut out, " (tokens ");
                        push_str(&mut out, strings_debug_text(expected).as_str());
                        push_str(&mut out, ")");
                    }
                    push_str(&mut out, ", but found");
                } else if expected.len() == 1 {
                    push_str(&mut out, "Expected token `");
                    push_str(&mut out, expected[0].as_str());
                    push_str(&mut out, "`, but found");
                } else {
                    push_str(&mut out, "Unexpected");
                }
                let ghost head = out@;
                assert(head =~= "error: "@ + unexpected_head(*message, expected@));
                push_str(&mut out, " token `");
                push_str(&mut out, token_debug_text(&found.data).as_str());
                push_str(&mut out, "`\n");
                push_str(&mut out, source.print_span(found.span).as_str());
                if let Some(sp) = started {
                    push_str(&mut out, "note: Started by\n");
                    push_str(&mut out, source.print_span(*sp).as_str());
                }
                out
            },
        }
    }
}

/// Binding strength of the operators, weakest first.
enum Precedence {
    Zero,
    Assign,
    LOr,
    LAnd,
    Comparison,
    Additive,
    Bitwise,
    BitShift,
    Modular,
    Multiplicative,
    Unary,
    Suffix,
    Member,
    Call,
}

impl Precedence {
    spec fn spec_index(&self) -> int {
        match self {
            Precedence::Zero => 0,
            Precedence::Assign => 1,
            Precedence::LOr => 2,
            Precedence::LAnd => 3,
            Precedence::Comparison => 4,
            Precedence::Additive => 5,
            Precedence::Bitwise => 6,
            Precedence::BitShift => 7,
            Precedence::Modular => 8,
            Precedence::Multiplicative => 9,
            Precedence::Unary => 10,
            Precedence::Suffix => 11,
            Precedence::Member => 12,
            Precedence::Call => 13,
        }
    }

    fn level(&self) -> (r: usize)
        ensures
            r == self.spec_index() * 10,
    {
        match self {
            Precedence::Zero => 0,
            Precedence::Assign => 10,
            Precedence::LOr => 20,
            Precedence::LAnd => 30,
            Precedence::Comparison => 40,
            Precedence::Additive => 50,
            Precedence::Bitwise => 60,
            Precedence::BitShift => 70,
            Precedence::Modular => 80,
            Precedence::Multiplicative => 90,
            Precedence::Unary => 100,
            Precedence::Suffix => 110,
            Precedence::Member => 120,
            Precedence::Call => 130,
        }
    }
}

/// The binding level of a token that continues an expression, if it does.
pub open spec fn infix_precedence(t: Token) -> Option<usize> {
    match t {
        Token::Add | Token::Minus | Token::Concat => Some(50usize),
        Token::Modulo => Some(80usize),
        Token::Times | Token::Divide => Some(90usize),
        Token::BitAnd | Token::BitOr | Token::BitXor => Some(60usize),
        Token::LShift | Token::RShift => Some(70usize),
        Token::And => Some(30usize),
        Token::Or => Some(20usize),
        Token::LParen | Token::LBracket | Token::LBrace => Some(130usize),
        Token::Dot | Token::Colon => Some(120usize),
        Token::EQ | Token::NE | Token::LT | Token::GT | Token::LE | Token::GE => Some(40usize),
        _ => None,
    }
}

/// First index at or after `i` that holds a token other than a comment, or
/// the number of tokens.
pub open spec fn skip_comments(toks: Seq<Spanned<Token>>, i: int) -> int
    decreases toks.len() - i,
{
    if i >= toks.len() {
        i
    } else if toks[i].data is Comment {
        skip_comments(toks, i + 1)
    } else {
        i
    }
}

pub proof fn lemma_skip_comments(toks: Seq<Spanned<Token>>, i: int)
    requires
        i <= toks.len(),
    ensures
        i <= skip_comments(toks, i) <= toks.len(),
    decreases toks.len() - i,
{
    if i < toks.len() && toks[i].data is Comment {
        lemma_skip_comments(toks, i + 1);
    }
}

/// Index of the `n`-th token after `i` that is not a comment, counting the
/// token at `i` itself as the 0-th whatever it is.
pub open spec fn peek_index(toks: Seq<Spanned<Token>>, i: int, n: nat) -> int
    decreases toks.len() - i,
{
    if i >= toks.len() {
        -1
    } else if n == 0 {
        i
    } else if !(toks[i].data is Comment) {
        peek_index(toks, i + 1, (n - 1) as nat)
    } else {
        peek_index(toks, i + 1, n)
    }
}

/// The debug name of a token's variant.
pub open spec fn token_name(t: Token) -> Seq<char> {
    match t {
        Token::Comment => "Comment"@,
        Token::Break => "Break"@,
        Token::For => "For"@,
        Token::Do => "Do"@,
        Token::End => "End"@,
        Token::If => "If"@,
        Token::Then => "Then"@,
        Token::Else => "Else"@,
        Token::ElseIf => "ElseIf"@,
        Token::Function => "Function"@,
        Token::Local => "Local"@,
        Token::Return => "Return"@,
        Token::Struct => "Struct"@,
        Token::Nil => "Nil"@,
        Token::True => "True"@,
        Token::False => "False"@,
        Token::Integer(_) => "Integer"@,
        Token::String(_) => "String"@,
        Token::Identifier(_) => "Identifier"@,
        Token::Dot => "Dot"@,
        Token::Comma => "Comma"@,
        Token::Colon => "Colon"@,
        Token::DoubleColon => "DoubleColon"@,
        Token::Semicolon => "Semicolon"@,
        Token::In => "In"@,
        Token::Assign => "Assign"@,
        Token::Concat => "Concat"@,
        Token::And => "And"@,
        Token::Or => "Or"@,
        Token::Not => "Not"@,
        Token::Add => "Add"@,
        Token::Minus => "Minus"@,
        Token::Times => "Times"@,
        Token::Divide => "Divide"@,
        Token::Modulo => "Modulo"@,
        Token::BitAnd => "BitAnd"@,
        Token::BitOr => "BitOr"@,
        Token::BitXor => "BitXor"@,
        Token::LShift => "LShift"@,
        Token::RShift => "RShift"@,
        Token::EQ => "EQ"@,
        Token::NE => "NE"@,
        Token::LT => "LT"@,
        Token::GT => "GT"@,
        Token::LE => "LE"@,
        Token::GE => "GE"@,
        Token::LParen => "LParen"@,
        Token::RParen => "RParen"@,
        Token::LBracket => "LBracket"@,
        Token::RBracket => "RBracket"@,
        Token::LBrace => "LBrace"@,
        Token::RBrace => "RBrace"@,
        Token::Eof => "Eof"@,
    }
}

impl Token {
    /// The debug name of the token's variant.
    pub fn name(&self) -> (r: &'static str)
        ensures
            r@ == token_name(*self),
    {
        match self {
            Token::Comment => "Comment",
            Token::Break => "Break",
            Token::For => "For",
            Token::Do => "Do",
            Token::End => "End",
            Token::If => "If",
            Token::Then => "Then",
            Token::Else => "Else",
            Token::ElseIf => "ElseIf",
            Token::Function => "Function",
            Token::Local => "Local",
            Token::Return => "Return",
            Token::Struct => "Struct",
            Token::Nil => "Nil",
            Token::True => "True",
            Token::False => "False",
            Token::Integer(_) => "Integer",
            Token::String(_) => "String",
            Token::Identifier(_) => "Identifier",
            Token::Dot => "Dot",
            Token::Comma => "Comma",
            Token::Colon => "Colon",
            Token::DoubleColon => "DoubleColon",
            Token::Semicolon => "Semicolon",
            Token::In => "In",
            Token::Assign => "Assign",
            Token::Concat => "Concat",
            Token::And => "And",
            Token::Or => "Or",
            Token::Not => "Not",
            Token::Add => "Add",
            Token::Minus => "Minus",
            Token::Times => "Times",
            Token::Divide => "Divide",
            Token::Modulo => "Modulo",
            Token::BitAnd => "BitAnd",
            Token::BitOr => "BitOr",
            Token::BitXor => "BitXor",
            Token::LShift => "LShift",
            Token::RShift => "RShift",
            Token::EQ => "EQ",
            Token::NE => "NE",
            Token::LT => "LT",
            Token::GT => "GT",
            Token::LE => "LE",
            Token::GE => "GE",
            Token::LParen => "LParen",
            Token::RParen => "RParen",
            Token::LBracket => "LBracket",
            Token::RBracket => "RBracket",
            Token::LBrace => "LBrace",
            Token::RBrace => "RBrace",
            Token::Eof => "Eof",
        }
    }
}


/// Whether a token closes a block.
pub open spec fn closes_block(t: Token) -> bool {
    t is Eof || t is End || t is ElseIf || t is Else
}

/// Whether a token can start a primary expression.
pub open spec fn starts_primary(t: Token) -> bool {
    match t {
        Token::Nil | Token::True | Token::False | Token::Integer(_) | Token::String(_)
        | Token::Add | Token::Minus | Token::Not | Token::LParen | Token::LBracket
        | Token::LBrace | Token::Identifier(_) => true,
        _ => false,
    }
}

fn starts_primary_exec(t: &Token) -> (r: bool)
    ensures
        r == starts_primary(*t),
{
    match t {
        Token::Nil | Token::True | Token::False | Token::Integer(_) | Token::String(_)
        | Token::Add | Token::Minus | Token::Not | Token::LParen | Token::LBracket
        | Token::LBrace | Token::Identifier(_) => true,
        _ => false,
    }
}

/// The error that reports `found` as unexpected where `message` was
/// expected.
fn unexpected_token(message: Option<&'static str>, found: Spanned<Token>) -> (e: Error)
    ensures
        error_v(e) == unexpected(message, Seq::empty(), found, None),
{
    let e = Error::Unexpected { message, expected: Vec::new(), found, started: None };
    assert(strings_v(e->expected@) =~= Seq::empty());
    e
}

pub struct Parser<'a> {
    pub source: &'a Source,
    pub tokens: Vec<Spanned<Token>>,
    pub pos: usize,
    pub eof: Spanned<Token>,
}

impl<'a> Parser<'a> {
    /// The token the parser stands at: past the end, the last token again.
    pub open spec fn cur(&self) -> Spanned<Token> {
        if self.pos < self.tokens@.len() {
            self.tokens@[self.pos as int]
        } else {
            self.tokens@.last()
        }
    }

    /// The parser stands inside its tokens, the last of which ends the input.
    pub open spec fn wf(&self) -> bool {
        &&& self.tokens@.len() > 0
        &&& self.pos <= self.tokens@.len()
        &&& self.tokens@.last().data is Eof
        &&& self.eof == self.tokens@.last()
    }

    /// The parser holds the same tokens as `before` and stands no earlier.
    pub open spec fn follows(&self, before: Parser<'a>) -> bool {
        &&& self.wf()
        &&& self.tokens@ == before.tokens@
        &&& self.source == before.source
        &&& self.eof == before.eof
        &&& before.pos <= self.pos
    }

    /// Where the parser stands after moving past the current token.
    pub open spec fn after_current(&self) -> int {
        if self.pos < self.tokens@.len() {
            skip_comments(self.tokens@, self.pos + 1)
        } else {
            self.pos as int
        }
    }

    /// Creates a parser over `tokens`, which must end with the end of input,
    /// standing at the first token that is not a comment.
    pub fn new(source: &'a Source, tokens: Vec<Spanned<Token>>) -> (r: Parser<'a>)
        requires
            tokens@.len() > 0,
            tokens@.last().data is Eof,
        ensures
            r.wf(),
            r.source == source,
            r.tokens@ == tokens@,
            r.pos == skip_comments(tokens@, 0),
    {
        let eof = tokens[tokens.len() - 1].duplicate();
        let mut pos: usize = 0;
        while pos < tokens.len() && tokens[pos].data.same_kind_as(&Token::Comment)
            invariant
                pos <= tokens@.len(),
                skip_comments(tokens@, pos as int) == skip_comments(tokens@, 0),
            decreases tokens@.len() - pos,
        {
            pos += 1;
        }
        Parser { source, tokens, pos, eof }
    }

    fn current(&self) -> (r: &Spanned<Token>)
        requires
            self.wf(),
        ensures
            *r == self.cur(),
    {
        if self.pos < self.tokens.len() {
            &self.tokens[self.pos]
        } else {
            &self.eof
        }
    }

    /// The `n`-th token from here that is not a comment (the current token
    /// being the 0-th), or the end of input.
    fn peek(&self, n: usize) -> (r: &Spanned<Token>)
        requires
            self.wf(),
        ensures
            peek_index(self.tokens@, self.pos as int, n as nat) >= 0 ==> *r
                == self.tokens@[peek_index(self.tokens@, self.pos as int, n as nat)],
            peek_index(self.tokens@, self.pos as int, n as nat) < 0 ==> *r == self.eof,
    {
        let mut k = n;
        let mut i = self.pos;
        loop
            invariant
                self.wf(),
                self.pos <= i <= self.tokens@.len(),
                peek_index(self.tokens@, i as int, k as nat) == peek_index(
                    self.tokens@,
                    self.pos as int,
                    n as nat,
                ),
            decreases self.tokens@.len() - i,
        {
            if i >= self.tokens.len() {
                return &self.eof;
            }
            let token = &self.tokens[i];
            if k == 0 {
                return token;
            }
            if !token.data.same_kind_as(&Token::Comment) {
                k -= 1;
            }
            i += 1;
        }
    }

    /// Moves past the current token and any comments after it.
    fn advance(&mut self)
        requires
            old(self).wf(),
        ensures
            final(self).follows(*old(self)),
            final(self).pos == old(self).after_current(),
    {
        if self.pos >= self.tokens.len() {
            return;
        }
        let ghost start = self.pos as int;
        let len = self.tokens.len();
        loop
            invariant
                self.wf(),
                len == self.tokens@.len(),
                self.tokens@ == old(self).tokens@,
                self.source == old(self).source,
                self.eof == old(self).eof,
                start == old(self).pos,
                start < self.pos + 1,
                self.pos < self.tokens@.len(),
                self.pos == start || skip_comments(self.tokens@, self.pos as int) == skip_comments(
                    self.tokens@,
                    start + 1,
                ),
                self.pos > start ==> self.tokens@[self.pos as int].data is Comment,
            decreases self.tokens@.len() - self.pos,
        {
            let ghost p = self.pos as int;
            self.pos += 1;
            proof {
                if p > start {
                    assert(skip_comments(self.tokens@, p) == skip_comments(self.tokens@, p + 1));
                }
                assert(skip_comments(self.tokens@, p + 1) == skip_comments(self.tokens@, start + 1));
            }
            if self.pos >= self.tokens.len() {
                return;
            }
            if !self.tokens[self.pos].data.same_kind_as(&Token::Comment) {
                return;
            }
        }
    }

    /// Moving past a token that is not the end of input moves forward.
    proof fn lemma_progress(&self)
        requires
            self.wf(),
            !(self.cur().data is Eof),
        ensures
            self.pos < self.tokens@.len(),
            self.pos < self.after_current() <= self.tokens@.len(),
    {
        lemma_skip_comments(self.tokens@, self.pos + 1);
    }

    /// Consumes a token of the same variant as `expected`, giving its span, or
    /// reports the current token.
    fn expect(
        &mut self,
        expected: Token,
        message: Option<&'static str>,
        started: Option<Span>,
    ) -> (r: Result<Span, Error>)
        requires
            old(self).wf(),
        ensures
            final(self).follows(*old(self)),
            (span_res(r), final(self).pos as int) == expect_s(
                old(self).tokens@,
                old(self).pos as int,
                expected,
                message,
                started,
            ),
            r is Ok && !(expected is Eof) ==> final(self).pos > old(self).pos,
    {
        if !self.current().data.same_kind_as(&expected) {
            let e = Error::Unexpected {
                message,
                expected: vec![token_debug_text(&expected)],
                found: self.current().duplicate(),
                started,
            };
            proof {
                let ghost names = seq![token_debug(expected)];
                assert(strings_v(e->expected@) =~= names);
            }
            return Err(e);
        }
        let span = self.current().span;
        proof {
            if !(expected is Eof) {
                self.lemma_progress();
            }
        }
        self.advance();
        Ok(span)
    }

    /// Consumes an identifier, giving its name with its span, or reports the
    /// current token.
    fn expect_identifier(&mut self, message: Option<&'static str>) -> (r: Result<
        Spanned<String>,
        Error,
    >)
        requires
            old(self).wf(),
        ensures
            final(self).follows(*old(self)),
            (ident_res(r), final(self).pos as int) == ident_s(
                old(self).tokens@,
                old(self).pos as int,
                message,
            ),
            r is Ok ==> final(self).pos > old(self).pos,
    {
        let token = self.current();
        let ident = match &token.data {
            Token::Identifier(ident) => ident.clone(),
            _ => {
                let e = Error::Unexpected {
                    message,
                    expected: vec!["Identifier".to_owned()],
                    found: token.duplicate(),
                    started: None,
                };
                proof {
                    assert(strings_v(e->expected@) =~= seq!["Identifier"@]);
                }
                return Err(e);
            },
        };
        let ident = token.span.attach(ident);
        proof {
            self.lemma_progress();
        }
        self.advance();
        Ok(ident)
    }

    /// Parses a type: a name or a function type, inside any number of brackets.
    #[verifier::loop_isolation(false)]
    fn expect_type(&mut self, message: Option<&'static str>) -> (r: Result<Spanned<Type>, Error>)
        requires
            old(self).wf(),
        ensures
            final(self).follows(*old(self)),
            r is Ok ==> final(self).pos > old(self).pos,
            (type_res(r), final(self).pos as int) == type_s(
                old(self).tokens@,
                old(self).pos as int,
                message,
            ),
        decreases old(self).tokens@.len() - old(self).pos,
    {
        let ghost toks = self.tokens@;
        let ghost pos0 = self.pos as int;
        let mut starts: Vec<Span> = Vec::new();
        let span = self.current().span;
        while self.current().data.same_kind_as(&Token::LBracket)
            invariant
                self.follows(*old(self)),
                toks == self.tokens@,
                pos0 == old(self).pos,
                starts@.len() <= self.pos - pos0,
                brackets_s(toks, self.pos as int, starts@) == brackets_s(toks, pos0, Seq::empty()),
            decreases self.tokens@.len() - self.pos,
        {
            proof {
                self.lemma_progress();
            }
            starts.push(self.current().span);
            self.advance();
        }
        let nesting = starts.len();
        let ghost p1 = self.pos as int;
        assert(brackets_s(toks, pos0, Seq::empty()) == (starts@, p1));
        let mut last_span = span;
        let typ = if self.current().data.same_kind_as(&Token::Function) {
            proof {
                self.lemma_progress();
            }
            self.advance();
            self.expect(Token::LParen, None, None)?;
            let ghost p3 = self.pos as int;
            let mut args: Vec<Spanned<Type>> = Vec::new();
            let mut more = true;
            while more && !self.current().data.same_kind_as(&Token::RParen)
                invariant
                    self.follows(*old(self)),
                    self.pos >= p3 > pos0,
                    more ==> type_args_s(toks, self.pos as int, types_v(args@)) == type_args_s(
                        toks,
                        p3,
                        Seq::empty(),
                    ),
                    !more ==> type_args_s(toks, p3, Seq::empty()) == (
                        Ok::<Seq<Spanned<TypeM>>, ErrorM>(types_v(args@)),
                        self.pos as int,
                    ),
                decreases self.tokens@.len() - self.pos,
            {
                let ghost acc = args@;
                let arg = self.expect_type(Some("parameter type"))?;
                args.push(arg);
                assert(args@.drop_last() =~= acc);
                if self.current().data.same_kind_as(&Token::Comma) {
                    proof {
                        self.lemma_progress();
                    }
                    self.advance();
                } else {
                    more = false;
                }
            }
            last_span = self.expect(Token::RParen, None, None)?;
            let ret = if self.current().data.same_kind_as(&Token::Colon) {
                proof {
                    self.lemma_progress();
                }
                self.advance();
                let ret = self.expect_type(Some("return type"))?;
                last_span = ret.span;
                Some(Box::new(ret))
            } else {
                None
            };
            Type::Function { nesting, args, ret }
        } else {
            let name = self.expect_identifier(message)?;
            Type::Named { nesting, name }
        };
        let ghost p6 = self.pos as int;
        let ghost last0 = last_span;
        let mut i: usize = 0;
        while i < nesting
            invariant
                self.follows(*old(self)),
                toks == self.tokens@,
                pos0 == old(self).pos,
                self.pos > pos0,
                starts@.len() == nesting,
                i <= nesting,
                close_s(toks, self.pos as int, starts@, i as int, last_span) == close_s(
                    toks,
                    p6,
                    starts@,
                    0,
                    last0,
                ),
            decreases nesting - i,
        {
            last_span = self.expect(Token::RBracket, None, Some(starts[nesting - i - 1]))?;
            i += 1;
        }
        let typ = span.merge(last_span).attach(typ);
        Ok(typ)
    }

    /// Parses statements up to the end of input.
    pub fn parse(&mut self) -> (r: Result<Vec<Spanned<Stmt>>, Error>)
        requires
            old(self).wf(),
        ensures
            final(self).follows(*old(self)),
            (program_res(r), final(self).pos as int) == program_s(
                old(self).tokens@,
                old(self).pos as int,
                Seq::empty(),
            ),
    {
        let ghost toks = self.tokens@;
        let ghost pos0 = self.pos as int;
        let mut stmts: Vec<Spanned<Stmt>> = Vec::new();
        while !self.current().data.same_kind_as(&Token::Eof)
            invariant
                self.follows(*old(self)),
                toks == self.tokens@,
                pos0 == old(self).pos,
                program_s(toks, self.pos as int, stmts_v(stmts@)) == program_s(toks, pos0, Seq::empty()),
            decreases self.tokens@.len() - self.pos,
        {
            let ghost acc = stmts@;
            let stmt = self.parse_stmt()?;
            stmts.push(stmt);
            assert(stmts@.drop_last() =~= acc);
        }
        self.expect(Token::Eof, None, None)?;
        Ok(stmts)
    }

    /// The binding level of the current token when it continues an expression.
    fn peek_infix_precedence(&self) -> (r: Option<usize>)
        requires
            self.wf(),
        ensures
            r == infix_precedence(self.cur().data),
    {
        let p = match self.current().data {
            Token::Add | Token::Minus | Token::Concat => Some(Precedence::Additive),
            Token::Modulo => Some(Precedence::Modular),
            Token::Times | Token::Divide => Some(Precedence::Multiplicative),
            Token::BitAnd | Token::BitOr | Token::BitXor => Some(Precedence::Bitwise),
            Token::LShift | Token::RShift => Some(Precedence::BitShift),
            Token::And => Some(Precedence::LAnd),
            Token::Or => Some(Precedence::LOr),
            Token::LParen | Token::LBracket | Token::LBrace => Some(Precedence::Call),
            Token::Dot | Token::Colon => Some(Precedence::Member),
            Token::EQ | Token::NE | Token::LT | Token::GT | Token::LE | Token::GE => Some(
                Precedence::Comparison,
            ),
            _ => None,
        };
        match p {
            Some(p) => Some(p.level()),
            None => None,
        }
    }

    /// Parses statements up to a token that closes a block (`end`, `elseif`,
    /// `else`) or the end of input.
    pub fn parse_block(&mut self) -> (r: Result<Spanned<Vec<Spanned<Stmt>>>, Error>)
        requires
            old(self).wf(),
        ensures
            final(self).follows(*old(self)),
            r is Ok ==> closes_block(final(self).cur().data),
            (block_res(r), final(self).pos as int) == block_s(old(self).tokens@, old(self).pos as int),
        decreases old(self).tokens@.len() - old(self).pos, 12int,
    {
        let ghost toks = self.tokens@;
        let ghost pos0 = self.pos as int;
        let mut stmts: Vec<Spanned<Stmt>> = Vec::new();
        let span = self.current().span;
        let mut last_span = span;
        loop
            invariant_except_break
                self.follows(*old(self)),
                toks == self.tokens@,
                pos0 == old(self).pos,
                span == cur_at(toks, pos0).span,
                block_loop_s(toks, self.pos as int, span, last_span, stmts_v(stmts@)) == block_s(
                    toks,
                    pos0,
                ),
            ensures
                self.follows(*old(self)),
                closes_block(self.cur().data),
                block_s(toks, pos0) == (
                    Ok::<Spanned<Seq<Spanned<StmtM>>>, ErrorM>(
                        sp(stmts_v(stmts@), span.spec_merge(last_span)),
                    ),
                    self.pos as int,
                ),
            decreases self.tokens@.len() - self.pos,
        {
            match self.current().data {
                Token::Eof | Token::End | Token::ElseIf | Token::Else => break,
                _ => {},
            }
            let ghost acc = stmts@;
            let stmt = self.parse_stmt()?;
            last_span = stmt.span;
            stmts.push(stmt);
            assert(stmts@.drop_last() =~= acc);
        }
        let stmts = span.merge(last_span).attach(stmts);
        Ok(stmts)
    }

    /// Parses one statement.
    #[verifier::spinoff_prover]
    #[verifier::rlimit(40)]
    pub fn parse_stmt(&mut self) -> (r: Result<Spanned<Stmt>, Error>)
        requires
            old(self).wf(),
        ensures
            final(self).follows(*old(self)),
            r is Ok ==> final(self).pos > old(self).pos,
            (stmt_res(r), final(self).pos as int) == stmt_s(old(self).tokens@, old(self).pos as int),
        decreases old(self).tokens@.len() - old(self).pos, 11int,
    {
        let span = self.current().span;
        let is_local = self.current().data.same_kind_as(&Token::Local);
        if is_local {
            proof {
                self.lemma_progress();
            }
            self.advance();
        }
        let token = self.current().duplicate();
        match token.data {
            Token::Break => {
                if is_local {
                    return Err(unexpected_token(None, token));
                }
                proof {
                    self.lemma_progress();
                }
                self.advance();
                Ok(span.attach(Stmt::Break))
            },
            Token::Return => {
                if is_local {
                    return Err(unexpected_token(None, token));
                }
                proof {
                    self.lemma_progress();
                }
                self.advance();
                match self.current().data {
                    Token::End | Token::ElseIf | Token::Else => Ok(span.attach(Stmt::Return { expr: None })),
                    _ => {
                        let expr = self.parse_expr()?;
                        Ok(span.merge(expr.span).attach(Stmt::Return { expr: Some(expr) }))
                    },
                }
            },
            Token::Struct => {
                if is_local {
                    return Err(unexpected_token(None, token));
                }
                self.parse_struct(span)
            },
            Token::Function => self.parse_function(span, is_local),
            Token::If => {
                if is_local {
                    return Err(unexpected_token(None, token));
                }
                self.parse_if(span)
            },
            _ => {
                if is_local {
                    self.parse_binding(span)
                } else {
                    self.parse_assign_or_call(span)
                }
            },
        }
    }

    /// Parses fields or parameters, each a name, `:` and a type, up to `term`,
    /// which is not consumed.
    fn parse_arg_defs(&mut self, term: Token, name_msg: &'static str, type_msg: &'static str) -> (r:
        Result<Spanned<Vec<Spanned<ArgDef>>>, Error>)
        requires
            old(self).wf(),
        ensures
            final(self).follows(*old(self)),
            (args_res(r), final(self).pos as int) == args_s(
                old(self).tokens@,
                old(self).pos as int,
                term,
                name_msg,
                type_msg,
                old(self).cur().span,
                old(self).cur().span,
                Seq::empty(),
            ),
    {
        let ghost toks = self.tokens@;
        let ghost pos0 = self.pos as int;
        let start = self.current().span;
        let mut end = start;
        let mut args: Vec<Spanned<ArgDef>> = Vec::new();
        while !self.current().data.same_kind_as(&term)
            invariant
                self.follows(*old(self)),
                toks == self.tokens@,
                pos0 == old(self).pos,
                start == old(self).cur().span,
                args_s(toks, self.pos as int, term, name_msg, type_msg, start, end, argdefs_v(args@))
                    == args_s(toks, pos0, term, name_msg, type_msg, start, start, Seq::empty()),
            decreases self.tokens@.len() - self.pos,
        {
            let ghost acc = args@;
            let name = self.expect_identifier(Some(name_msg))?;
            self.expect(Token::Colon, None, None)?;
            let typ = self.expect_type(Some(type_msg))?;
            end = typ.span;
            args.push(name.span.merge(typ.span).attach(ArgDef { name, typ }));
            assert(args@.drop_last() =~= acc);
        }
        Ok(start.merge(end).attach(args))
    }

    /// Parses `struct`, a type name and its fields up to `end`.
    fn parse_struct(&mut self, span: Span) -> (r: Result<Spanned<Stmt>, Error>)
        requires
            old(self).wf(),
            old(self).cur().data is Struct,
        ensures
            final(self).follows(*old(self)),
            r is Ok ==> final(self).pos > old(self).pos,
            (stmt_res(r), final(self).pos as int) == struct_s(old(self).tokens@, old(self).pos as int, span),
    {
        proof {
            self.lemma_progress();
        }
        self.advance();
        let name = self.expect_identifier(Some("type name"))?;
        let fields = self.parse_arg_defs(Token::End, "field name", "field type")?;
        let last_span = self.current().span;
        self.advance();
        Ok(span.merge(last_span).attach(Stmt::TypeDef { name, fields }))
    }

    /// Parses `function`, a name, parameters, a return type after `:`, a
    /// body and `end`.
    #[verifier::spinoff_prover]
    #[verifier::rlimit(40)]
    fn parse_function(&mut self, span: Span, is_local: bool) -> (r: Result<Spanned<Stmt>, Error>)
        requires
            old(self).wf(),
            old(self).cur().data is Function,
        ensures
            final(self).follows(*old(self)),
            r is Ok ==> final(self).pos > old(self).pos,
            (stmt_res(r), final(self).pos as int) == function_s(
                old(self).tokens@,
                old(self).pos as int,
                span,
                is_local,
            ),
        decreases old(self).tokens@.len() - old(self).pos, 10int,
    {
        proof {
            self.lemma_progress();
        }
        self.advance();
        let name = self.expect_identifier(Some("function name"))?;
        self.expect(Token::LParen, None, None)?;
        let args = self.parse_arg_defs(Token::RParen, "arg name", "arg type")?;
        self.expect(Token::RParen, None, None)?;
        let ret = if self.current().data.same_kind_as(&Token::Colon) {
            proof {
                self.lemma_progress();
            }
            self.advance();
            let typ = self.expect_type(Some("return type"))?;
            Some(typ)
        } else {
            None
        };
        let body = self.parse_block()?;
        let end = self.expect(Token::End, None, None)?;
        Ok(span.merge(end).attach(Stmt::FuncDef { is_local, name, body: FuncBody { args, ret, body } }))
    }

    /// Parses `if`, a condition, `then` and a block, `elseif` clauses, an
    /// `else` block and `end`.
    #[verifier::spinoff_prover]
    #[verifier::rlimit(40)]
    fn parse_if(&mut self, span: Span) -> (r: Result<Spanned<Stmt>, Error>)
        requires
            old(self).wf(),
            old(self).cur().data is If,
        ensures
            final(self).follows(*old(self)),
            r is Ok ==> final(self).pos > old(self).pos,
            (stmt_res(r), final(self).pos as int) == if_s(old(self).tokens@, old(self).pos as int, span),
        decreases old(self).tokens@.len() - old(self).pos, 10int,
    {
        proof {
            self.lemma_progress();
        }
        self.advance();
        let condition = self.parse_expr()?;
        self.expect(Token::Then, None, None)?;
        let then_block = self.parse_block()?;
        let else_if_blocks = self.parse_else_ifs()?;
        let else_block = if self.current().data.same_kind_as(&Token::Else) {
            proof {
                self.lemma_progress();
            }
            self.advance();
            let else_block = self.parse_block()?;
            Some(else_block)
        } else {
            None
        };
        let end = self.expect(Token::End, None, None)?;
        Ok(
            span.merge(end).attach(
                Stmt::If { condition: Box::new(condition), then_block, else_if_blocks, else_block },
            ),
        )
    }

    /// Parses `elseif` clauses, each a condition, `then` and a block.
    fn parse_else_ifs(&mut self) -> (r: Result<Vec<(Spanned<Expr>, Spanned<Vec<Spanned<Stmt>>>)>, Error>)
        requires
            old(self).wf(),
        ensures
            final(self).follows(*old(self)),
            (else_ifs_res(r), final(self).pos as int) == else_ifs_s(
                old(self).tokens@,
                old(self).pos as int,
                Seq::empty(),
            ),
        decreases old(self).tokens@.len() - old(self).pos, 9int,
    {
        let ghost toks = self.tokens@;
        let ghost pos0 = self.pos as int;
        let mut blocks: Vec<(Spanned<Expr>, Spanned<Vec<Spanned<Stmt>>>)> = Vec::new();
        while self.current().data.same_kind_as(&Token::ElseIf)
            invariant
                self.follows(*old(self)),
                toks == self.tokens@,
                pos0 == old(self).pos,
                else_ifs_s(toks, self.pos as int, else_ifs_v(blocks@)) == else_ifs_s(
                    toks,
                    pos0,
                    Seq::empty(),
                ),
            decreases self.tokens@.len() - self.pos,
        {
            let ghost acc = blocks@;
            proof {
                self.lemma_progress();
            }
            self.advance();
            let condition = self.parse_expr()?;
            self.expect(Token::Then, None, None)?;
            let then_block = self.parse_block()?;
            blocks.push((condition, then_block));
            assert(blocks@.drop_last() =~= acc);
        }
        Ok(blocks)
    }

    /// Parses more names, each after a comma.
    fn parse_names(&mut self, first: Spanned<String>) -> (r: Result<(Vec<Spanned<String>>, Span), Error>)
        requires
            old(self).wf(),
        ensures
            final(self).follows(*old(self)),
            (names_res(r), final(self).pos as int) == names_s(
                old(self).tokens@,
                old(self).pos as int,
                first.span,
                seq![first],
            ),
    {
        let ghost toks = self.tokens@;
        let ghost pos0 = self.pos as int;
        let mut end = first.span;
        let mut names: Vec<Spanned<String>> = vec![first];
        assert(names@ =~= seq![first]);
        while self.current().data.same_kind_as(&Token::Comma)
            invariant
                self.follows(*old(self)),
                toks == self.tokens@,
                pos0 == old(self).pos,
                names_s(toks, self.pos as int, end, names@) == names_s(toks, pos0, first.span, seq![first]),
            decreases self.tokens@.len() - self.pos,
        {
            proof {
                self.lemma_progress();
            }
            self.advance();
            let ident = self.expect_identifier(Some("binding name"))?;
            end = ident.span;
            names.push(ident);
        }
        Ok((names, end))
    }

    /// Parses more expressions, each after a comma, that follow `first`,
    /// giving them all with the span of the last (`last` where there are no
    /// more); where `lvalues`, each must be able to stand on the left of an
    /// assignment.
    fn parse_more_exprs(&mut self, lvalues: bool, first: Spanned<Expr>, last: Span) -> (r: Result<
        (Vec<Spanned<Expr>>, Span),
        Error,
    >)
        requires
            old(self).wf(),
        ensures
            final(self).follows(*old(self)),
            (exprs_res(r), final(self).pos as int) == more_exprs_s(
                old(self).tokens@,
                old(self).pos as int,
                lvalues,
                last,
                seq![expr_v(first)],
            ),
    {
        let ghost toks = self.tokens@;
        let ghost pos0 = self.pos as int;
        let ghost x0 = expr_v(first);
        let mut last_span = last;
        let mut exprs: Vec<Spanned<Expr>> = vec![first];
        assert(exprs@.drop_last() =~= Seq::<Spanned<Expr>>::empty());
        assert(exprs_v(Seq::<Spanned<Expr>>::empty()) =~= Seq::<Spanned<ExprM>>::empty());
        assert(exprs_v(exprs@) =~= seq![x0]);
        while self.current().data.same_kind_as(&Token::Comma)
            invariant
                self.follows(*old(self)),
                toks == self.tokens@,
                pos0 == old(self).pos,
                x0 == expr_v(first),
                more_exprs_s(toks, self.pos as int, lvalues, last_span, exprs_v(exprs@)) == more_exprs_s(
                    toks,
                    pos0,
                    lvalues,
                    last,
                    seq![x0],
                ),
            decreases self.tokens@.len() - self.pos,
        {
            let ghost acc = exprs@;
            proof {
                self.lemma_progress();
            }
            self.advance();
            let expr = self.parse_expr()?;
            if lvalues && !expr.data.is_lvalue() {
                return Err(unexpected_token(Some("lvalue"), self.current().duplicate()));
            }
            last_span = expr.span;
            exprs.push(expr);
            assert(exprs@.drop_last() =~= acc);
        }
        Ok((exprs, last_span))
    }

    /// Parses the expressions to assign, after `=`, giving them with the span
    /// of the last.
    fn parse_rhs(&mut self) -> (r: Result<(Spanned<Vec<Spanned<Expr>>>, Span), Error>)
        requires
            old(self).wf(),
        ensures
            final(self).follows(*old(self)),
            r is Ok ==> final(self).pos > old(self).pos,
            (rhs_res(r), final(self).pos as int) == rhs_s(old(self).tokens@, old(self).pos as int),
    {
        let expr = self.parse_expr()?;
        let rhs_span = expr.span;
        let (rhs, last_span) = self.parse_more_exprs(false, expr, rhs_span)?;
        Ok((rhs_span.merge(last_span).attach(rhs), last_span))
    }

    /// Parses the names after `local`, `=`, and the expressions bound to them.
    fn parse_binding(&mut self, span: Span) -> (r: Result<Spanned<Stmt>, Error>)
        requires
            old(self).wf(),
        ensures
            final(self).follows(*old(self)),
            r is Ok ==> final(self).pos > old(self).pos,
            (stmt_res(r), final(self).pos as int) == binding_s(old(self).tokens@, old(self).pos as int, span),
    {
        let first = self.expect_identifier(None)?;
        let start = first.span;
        let (names, end) = self.parse_names(first)?;
        self.expect(Token::Assign, None, None)?;
        let lhs = start.merge(end).attach(names);
        let (rhs, _) = self.parse_rhs()?;
        Ok(span.merge(rhs.span).attach(Stmt::Binding { lhs, rhs }))
    }

    /// Parses a call, or places, `=`, and the expressions assigned to them.
    #[verifier::spinoff_prover]
    #[verifier::rlimit(40)]
    fn parse_assign_or_call(&mut self, span: Span) -> (r: Result<Spanned<Stmt>, Error>)
        requires
            old(self).wf(),
        ensures
            final(self).follows(*old(self)),
            r is Ok ==> final(self).pos > old(self).pos,
            (stmt_res(r), final(self).pos as int) == assign_or_call_s(
                old(self).tokens@,
                old(self).pos as int,
                span,
            ),
    {
        let expr = self.parse_expr()?;
        let lhs_span = expr.span;
        let expr = match expr.data {
            Expr::Call { expr, args } => {
                return Ok(lhs_span.attach(Stmt::Call { expr, args }));
            },
            data => Spanned { data, span: lhs_span },
        };
        if !expr.data.is_lvalue() {
            return Err(unexpected_token(Some("lvalue or function call"), self.current().duplicate()));
        }
        let (lhs, last_span) = self.parse_more_exprs(true, expr, span)?;
        self.expect(Token::Assign, None, None)?;
        let lhs = lhs_span.merge(last_span).attach(lhs);
        let (rhs, last_span) = self.parse_rhs()?;
        Ok(span.merge(last_span).attach(Stmt::Assign { lhs, rhs }))
    }

    /// Parses an expression.
    fn parse_expr(&mut self) -> (r: Result<Spanned<Expr>, Error>)
        requires
            old(self).wf(),
        ensures
            final(self).follows(*old(self)),
            r is Ok ==> final(self).pos > old(self).pos,
            (expr_res(r), final(self).pos as int) == expr_s(old(self).tokens@, old(self).pos as int),
        decreases old(self).tokens@.len() - old(self).pos, 3int,
    {
        self.parse_expr_inner(0)
    }

    /// Parses an expression whose operators bind at `min_precedence` or
    /// tighter.
    fn parse_expr_inner(&mut self, min_precedence: usize) -> (r: Result<Spanned<Expr>, Error>)
        requires
            old(self).wf(),
        ensures
            final(self).follows(*old(self)),
            r is Ok ==> final(self).pos > old(self).pos,
            (expr_res(r), final(self).pos as int) == inner_s(
                old(self).tokens@,
                old(self).pos as int,
                min_precedence as int,
            ),
        decreases old(self).tokens@.len() - old(self).pos, 2int,
    {
        let ghost toks = self.tokens@;
        let ghost pos0 = self.pos as int;
        let mut expr = self.parse_primary()?;
        loop
            invariant_except_break
                self.follows(*old(self)),
                toks == self.tokens@,
                self.pos > pos0 == old(self).pos,
                climb_s(toks, self.pos as int, min_precedence as int, expr_v(expr)) == inner_s(
                    toks,
                    pos0,
                    min_precedence as int,
                ),
            ensures
                self.follows(*old(self)),
                self.pos > pos0,
                inner_s(toks, pos0, min_precedence as int) == (
                    Ok::<Spanned<ExprM>, ErrorM>(expr_v(expr)),
                    self.pos as int,
                ),
            decreases self.tokens@.len() - self.pos,
        {
            let op_precedence = match self.peek_infix_precedence() {
                Some(p) => p,
                None => break,
            };
            if op_precedence < min_precedence {
                break;
            }
            expr = self.parse_infix(expr, op_precedence)?;
        }
        Ok(expr)
    }

    /// Continues the expression `lhs` with the operator, call, member access
    /// or index that the current token starts.
    fn parse_infix(&mut self, lhs: Spanned<Expr>, precedence: usize) -> (r: Result<
        Spanned<Expr>,
        Error,
    >)
        requires
            old(self).wf(),
            infix_precedence(old(self).cur().data) is Some,
            precedence <= 130,
        ensures
            final(self).follows(*old(self)),
            r is Ok ==> final(self).pos > old(self).pos,
            (expr_res(r), final(self).pos as int) == infix_s(
                old(self).tokens@,
                old(self).pos as int,
                expr_v(lhs),
                precedence as int,
            ),
        decreases old(self).tokens@.len() - old(self).pos, 1int,
    {
        let token = self.current().duplicate();
        proof {
            self.lemma_progress();
        }
        let op = match token.data {
            Token::Add => BinOp::Add,
            Token::Minus => BinOp::Sub,
            Token::Concat => BinOp::Concat,
            Token::Times => BinOp::Mul,
            Token::Divide => BinOp::Div,
            Token::Modulo => BinOp::Mod,
            Token::BitAnd => BinOp::BitAnd,
            Token::BitOr => BinOp::BitOr,
            Token::BitXor => BinOp::BitXor,
            Token::LShift => BinOp::Shl,
            Token::RShift => BinOp::Shr,
            Token::And => BinOp::And,
            Token::Or => BinOp::Or,
            Token::EQ => BinOp::EQ,
            Token::NE => BinOp::NE,
            Token::LT => BinOp::LT,
            Token::GT => BinOp::GT,
            Token::LE => BinOp::LE,
            Token::GE => BinOp::GE,
            Token::Dot | Token::Colon => {
                self.advance();
                let member = self.expect_identifier(Some("member"))?;
                let expr = lhs.span.merge(member.span).attach(
                    Expr::Member { expr: Box::new(lhs), member },
                );
                return Ok(expr);
            },
            Token::LParen => {
                let span = token.span;
                self.advance();
                let args = self.parse_expr_list(Token::RParen)?;
                let last_span = self.expect(
                    Token::RParen,
                    Some("end of function call"),
                    Some(span),
                )?;
                let expr = lhs.span.merge(last_span).attach(
                    Expr::Call { expr: Box::new(lhs), args },
                );
                return Ok(expr);
            },
            Token::LBracket => {
                let span = token.span;
                self.advance();
                let index = self.parse_expr()?;
                let last_span = self.expect(Token::RBracket, Some("end of indexing"), Some(span))?;
                let expr = lhs.span.merge(last_span).attach(
                    Expr::Index { expr: Box::new(lhs), index: Box::new(index) },
                );
                return Ok(expr);
            },
            _ => {
                // a brace after a complete expression starts nothing that the
                // grammar knows
                return Err(Error::Todo { message: "brace after an expression", span: token.span });
            },
        };
        let op = token.span.attach(op);
        self.advance();
        let rhs = self.parse_expr_inner(precedence + 1)?;
        let expr = lhs.span.merge(rhs.span).attach(
            Expr::BinOp { rhs: Box::new(rhs), lhs: Box::new(lhs), op },
        );
        Ok(expr)
    }

    /// Parses a primary expression: a literal, an identifier, a type
    /// constructor, a prefix operation, a parenthesised expression, a list or
    /// a table.
    #[verifier::rlimit(60)]
    #[verifier::loop_isolation(false)]
    fn parse_primary(&mut self) -> (r: Result<Spanned<Expr>, Error>)
        requires
            old(self).wf(),
        ensures
            final(self).follows(*old(self)),
            r is Ok ==> final(self).pos > old(self).pos,
            (expr_res(r), final(self).pos as int) == primary_s(old(self).tokens@, old(self).pos as int),
        decreases old(self).tokens@.len() - old(self).pos, 1int,
    {
        let ghost toks = self.tokens@;
        let ghost pos0 = self.pos as int;
        let span = self.current().span;
        let token = self.current().duplicate();
        if !starts_primary_exec(&token.data) {
            return Err(unexpected_token(Some("primary expression"), token));
        }
        proof {
            self.lemma_progress();
        }
        let expr = match token.data {
            Token::Nil => {
                self.advance();
                span.attach(Expr::Nil)
            },
            Token::True => {
                self.advance();
                span.attach(Expr::True)
            },
            Token::False => {
                self.advance();
                span.attach(Expr::False)
            },
            Token::Integer(n) => {
                self.advance();
                span.attach(Expr::Integer(n as i64))
            },
            Token::String(s) => {
                self.advance();
                span.attach(Expr::String(s))
            },
            Token::Add => {
                self.advance();
                self.parse_expr_inner(100)?
            },
            Token::Minus => {
                self.advance();
                let expr = self.parse_expr_inner(100)?;
                span.merge(expr.span).attach(
                    Expr::UnOp { expr: Box::new(expr), op: span.attach(UnOp::Neg) },
                )
            },
            Token::Not => {
                self.advance();
                let expr = self.parse_expr_inner(100)?;
                span.merge(expr.span).attach(
                    Expr::UnOp { expr: Box::new(expr), op: span.attach(UnOp::Not) },
                )
            },
            Token::LParen => {
                self.advance();
                let expr = self.parse_expr()?;
                self.expect(Token::RParen, None, None)?;
                expr
            },
            Token::LBracket => {
                self.advance();
                let elements = self.parse_expr_list(Token::RBracket)?;
                let last_span = self.expect(Token::RBracket, Some("end of list"), Some(span))?;
                span.merge(last_span).attach(Expr::List { elements })
            },
            Token::LBrace => {
                self.advance();
                let ghost n = self.pos as int;
                let mut elements: Vec<Spanned<Element>> = Vec::new();
                let mut more = true;
                while more && !self.current().data.same_kind_as(&Token::RBrace)
                    invariant
                        self.follows(*old(self)),
                        toks == self.tokens@,
                        self.pos >= n > pos0 == old(self).pos,
                        more ==> table_loop_s(toks, self.pos as int, elements_v(elements@))
                            == table_loop_s(toks, n, Seq::empty()),
                        !more ==> table_loop_s(toks, n, Seq::empty()) == (
                            Ok::<Seq<Spanned<ElementM>>, ErrorM>(elements_v(elements@)),
                            self.pos as int,
                        ),
                    decreases self.tokens@.len() - self.pos,
                {
                    let ghost acc = elements@;
                    let token = self.current().duplicate();
                    let named = match &token.data {
                        Token::Identifier(_) => self.peek(1).data.same_kind_as(&Token::Assign),
                        _ => false,
                    };
                    if named {
                        let name = match token.data {
                            Token::Identifier(name) => token.span.attach(name),
                            _ => token.span.attach(String::new()),
                        };
                        proof {
                            self.lemma_progress();
                        }
                        self.advance();
                        self.advance();
                        let expr = self.parse_expr()?;
                        elements.push(
                            name.span.merge(expr.span).attach(Element::Named { name, expr }),
                        );
                    } else {
                        let expr = self.parse_expr()?;
                        elements.push(expr.span.attach(Element::Indexed(expr)));
                    }
                    assert(elements@.drop_last() =~= acc);
                    if self.current().data.same_kind_as(&Token::Comma) {
                        proof {
                            self.lemma_progress();
                        }
                        self.advance();
                    } else {
                        more = false;
                    }
                }
                let last_span = self.expect(Token::RBrace, None, None)?;
                span.merge(last_span).attach(Expr::Table { elements })
            },
            Token::Identifier(name) => {
                self.advance();
                if self.current().data.same_kind_as(&Token::LBrace) {
                    proof {
                        self.lemma_progress();
                    }
                    self.advance();
                    let ghost n2 = self.pos as int;
                    let mut fields: Vec<Spanned<FieldConstructor>> = Vec::new();
                    let field_start = self.current().span;
                    let mut field_end = field_start;
                    let mut more = true;
                    while more && !self.current().data.same_kind_as(&Token::RBrace)
                        invariant
                            self.follows(*old(self)),
                            toks == self.tokens@,
                            self.pos >= n2 > pos0 == old(self).pos,
                            more ==> ctor_loop_s(
                                toks,
                                self.pos as int,
                                field_start,
                                field_end,
                                fields_v(fields@),
                            ) == ctor_loop_s(toks, n2, field_start, field_start, Seq::empty()),
                            !more ==> ctor_loop_s(toks, n2, field_start, field_start, Seq::empty())
                                == (
                                Ok::<Spanned<Seq<Spanned<FieldM>>>, ErrorM>(
                                    sp(fields_v(fields@), field_start.spec_merge(field_end)),
                                ),
                                self.pos as int,
                            ),
                        decreases self.tokens@.len() - self.pos,
                    {
                        let ghost acc = fields@;
                        let name = self.expect_identifier(Some("field"))?;
                        if !self.current().data.same_kind_as(&Token::Colon) {
                            fields.push(name.span.attach(FieldConstructor::Implicit(name.data)));
                        } else {
                            proof {
                                self.lemma_progress();
                            }
                            self.advance();
                            let expr = self.parse_expr()?;
                            field_end = expr.span;
                            fields.push(
                                name.span.merge(expr.span).attach(
                                    FieldConstructor::Explicit { name, expr },
                                ),
                            );
                        }
                        assert(fields@.drop_last() =~= acc);
                        if self.current().data.same_kind_as(&Token::Comma) {
                            proof {
                                self.lemma_progress();
                            }
                            self.advance();
                        } else {
                            more = false;
                        }
                    }
                    let fields = field_start.merge(field_end).attach(fields);
                    let last_span = self.expect(Token::RBrace, None, None)?;
                    span.merge(last_span).attach(
                        Expr::TypeConstructor { name: span.attach(name), fields },
                    )
                } else {
                    span.attach(Expr::Identifier(name))
                }
            },
            _ => {
                return Err(unexpected_token(Some("primary expression"), self.current().duplicate()));
            },
        };
        Ok(expr)
    }

    /// Parses expressions separated by commas, up to `terminator` (which is
    /// not consumed) or to a token that neither continues the list nor ends it.
    fn parse_expr_list(&mut self, terminator: Token) -> (r: Result<
        Spanned<Vec<Spanned<Expr>>>,
        Error,
    >)
        requires
            old(self).wf(),
        ensures
            final(self).follows(*old(self)),
            (list_res(r), final(self).pos as int) == list_s(
                old(self).tokens@,
                old(self).pos as int,
                terminator,
            ),
        decreases old(self).tokens@.len() - old(self).pos, 4int,
    {
        let ghost toks = self.tokens@;
        let ghost pos0 = self.pos as int;
        let span = self.current().span;
        let mut last_span = span;
        let mut exprs: Vec<Spanned<Expr>> = Vec::new();
        let mut more = true;
        while more && !self.current().data.same_kind_as(&terminator)
            invariant
                self.follows(*old(self)),
                toks == self.tokens@,
                pos0 == old(self).pos,
                span == cur_at(toks, pos0).span,
                more ==> list_loop_s(toks, self.pos as int, terminator, span, last_span, exprs_v(exprs@))
                    == list_s(toks, pos0, terminator),
                !more ==> list_s(toks, pos0, terminator) == (
                    Ok::<Spanned<Seq<Spanned<ExprM>>>, ErrorM>(
                        sp(exprs_v(exprs@), span.spec_merge(last_span)),
                    ),
                    self.pos as int,
                ),
            decreases self.tokens@.len() - self.pos,
        {
            let ghost acc = exprs@;
            let expr = self.parse_expr()?;
            last_span = expr.span;
            exprs.push(expr);
            assert(exprs@.drop_last() =~= acc);
            if self.current().data.same_kind_as(&Token::Comma) {
                proof {
                    self.lemma_progress();
                }
                self.advance();
            } else {
                more = false;
            }
        }
        Ok(span.merge(last_span).attach(exprs))
    }
}


/// The binding levels of the infix operators, loosest first: `or`; `and`;
/// the comparisons; `+`, `-`, `..`; the bitwise operators; the shifts; `%`;
/// `*` and `/`; member access; calls and indexing. Operators in one group
/// bind alike.
pub proof fn law_infix_levels_ordered()
    ensures
        infix_precedence(Token::Or).unwrap() < infix_precedence(Token::And).unwrap(),
        infix_precedence(Token::And).unwrap() < infix_precedence(Token::EQ).unwrap(),
        infix_precedence(Token::EQ).unwrap() < infix_precedence(Token::Add).unwrap(),
        infix_precedence(Token::Add).unwrap() < infix_precedence(Token::BitAnd).unwrap(),
        infix_precedence(Token::BitAnd).unwrap() < infix_precedence(Token::LShift).unwrap(),
        infix_precedence(Token::LShift).unwrap() < infix_precedence(Token::Modulo).unwrap(),
        infix_precedence(Token::Modulo).unwrap() < infix_precedence(Token::Times).unwrap(),
        infix_precedence(Token::Times).unwrap() < infix_precedence(Token::Dot).unwrap(),
        infix_precedence(Token::Dot).unwrap() < infix_precedence(Token::LParen).unwrap(),
        infix_precedence(Token::Or) is Some && infix_precedence(Token::And) is Some,
        infix_precedence(Token::NE) == infix_precedence(Token::EQ) && infix_precedence(Token::LT) == infix_precedence(Token::EQ)
            && infix_precedence(Token::GT) == infix_precedence(Token::EQ) && infix_precedence(Token::LE) == infix_precedence(Token::EQ)
            && infix_precedence(Token::GE) == infix_precedence(Token::EQ),
        infix_precedence(Token::Minus) == infix_precedence(Token::Add) && infix_precedence(Token::Concat) == infix_precedence(Token::Add),
        infix_precedence(Token::BitOr) == infix_precedence(Token::BitAnd) && infix_precedence(Token::BitXor) == infix_precedence(Token::BitAnd),
        infix_precedence(Token::RShift) == infix_precedence(Token::LShift),
        infix_precedence(Token::Divide) == infix_precedence(Token::Times),
        infix_precedence(Token::Colon) == infix_precedence(Token::Dot),
        infix_precedence(Token::LBracket) == infix_precedence(Token::LParen) && infix_precedence(Token::LBrace) == infix_precedence(Token::LParen),
{
}
} // verus!
