use vstd::prelude::*;

use crate::source::{Span, Spanned};

verus! {

#[derive(Debug, Clone, Copy, PartialEq, Eq, Structural)]
pub enum BinOp {
    // Arithmetic
    Add,
    Sub,
    Mul,
    Div,
    IDiv,
    Mod,
    Pow,
    // String
    Concat,
    // Comparison
    EQ,
    NE,
    LT,
    LE,
    GT,
    GE,
    // Logical
    And,
    Or,
    // Bitwise
    BitAnd,
    BitOr,
    BitXor,
    Shl,
    Shr,
}

#[derive(Debug, Clone, Copy, PartialEq, Eq, Structural)]
pub enum UnOp {
    Neg,
    Not,
}

#[derive(Debug)]
pub enum Element {
    Indexed(Spanned<Expr>),
    Named { name: Spanned<String>, expr: Spanned<Expr> },
}

#[derive(Debug)]
pub struct ArgDef {
    pub name: Spanned<String>,
    pub typ: Spanned<Type>,
}

#[derive(Debug)]
pub enum Type {
    Named { nesting: usize, name: Spanned<String> },
    Function { nesting: usize, args: Vec<Spanned<Type>>, ret: Option<Box<Spanned<Type>>> },
}

#[derive(Debug)]
pub enum FieldConstructor {
    Implicit(String),
    Explicit { name: Spanned<String>, expr: Spanned<Expr> },
}

/// Expressions. The language has no floating-point literal: the lexer reads
/// digits as integers only, so no expression holds a float.
#[derive(Debug)]
pub enum Expr {
    // Literals
    Nil,
    True,
    False,
    Integer(i64),
    String(String),
    Identifier(String),
    Table { elements: Vec<Spanned<Element>> },
    List { elements: Spanned<Vec<Spanned<Expr>>> },
    UnOp { expr: Box<Spanned<Expr>>, op: Spanned<UnOp> },
    BinOp { rhs: Box<Spanned<Expr>>, lhs: Box<Spanned<Expr>>, op: Spanned<BinOp> },
    Call { expr: Box<Spanned<Expr>>, args: Spanned<Vec<Spanned<Expr>>> },
    TypeConstructor { name: Spanned<String>, fields: Spanned<Vec<Spanned<FieldConstructor>>> },
    Func { body: Spanned<FuncBody> },
    Member { expr: Box<Spanned<Expr>>, member: Spanned<String> },
    Index { expr: Box<Spanned<Expr>>, index: Box<Spanned<Expr>> },
}

#[derive(Debug)]
pub struct FuncBody {
    pub args: Spanned<Vec<Spanned<ArgDef>>>,
    pub ret: Option<Spanned<Type>>,
    pub body: Spanned<Vec<Spanned<Stmt>>>,
}

#[derive(Debug)]
pub enum Stmt {
    Break,
    Return { expr: Option<Spanned<Expr>> },
    Call { expr: Box<Spanned<Expr>>, args: Spanned<Vec<Spanned<Expr>>> },
    Binding { lhs: Spanned<Vec<Spanned<String>>>, rhs: Spanned<Vec<Spanned<Expr>>> },
    Assign { lhs: Spanned<Vec<Spanned<Expr>>>, rhs: Spanned<Vec<Spanned<Expr>>> },
    If {
        condition: Box<Spanned<Expr>>,
        then_block: Spanned<Vec<Spanned<Stmt>>>,
        else_if_blocks: Vec<(Spanned<Expr>, Spanned<Vec<Spanned<Stmt>>>)>,
        else_block: Option<Spanned<Vec<Spanned<Stmt>>>>,
    },
    ForNum {
        var: Spanned<String>,
        start: Box<Spanned<Expr>>,
        limit: Box<Spanned<Expr>>,
        step: Box<Spanned<Expr>>,
        body: Spanned<Vec<Spanned<Stmt>>>,
    },
    TypeDef { name: Spanned<String>, fields: Spanned<Vec<Spanned<ArgDef>>> },
    FuncDef { is_local: bool, name: Spanned<String>, body: FuncBody },
}

/// The name of a binary operator, as `{:?}` writes it.
pub open spec fn binop_name(op: BinOp) -> Seq<char> {
    match op {
        BinOp::Add => "Add"@,
        BinOp::Sub => "Sub"@,
        BinOp::Mul => "Mul"@,
        BinOp::Div => "Div"@,
        BinOp::IDiv => "IDiv"@,
        BinOp::Mod => "Mod"@,
        BinOp::Pow => "Pow"@,
        BinOp::Concat => "Concat"@,
        BinOp::EQ => "EQ"@,
        BinOp::NE => "NE"@,
        BinOp::LT => "LT"@,
        BinOp::LE => "LE"@,
        BinOp::GT => "GT"@,
        BinOp::GE => "GE"@,
        BinOp::And => "And"@,
        BinOp::Or => "Or"@,
        BinOp::BitAnd => "BitAnd"@,
        BinOp::BitOr => "BitOr"@,
        BinOp::BitXor => "BitXor"@,
        BinOp::Shl => "Shl"@,
        BinOp::Shr => "Shr"@,
    }
}

/// The name of a unary operator, as `{:?}` writes it.
pub open spec fn unop_name(op: UnOp) -> Seq<char> {
    match op {
        UnOp::Neg => "Neg"@,
        UnOp::Not => "Not"@,
    }
}

impl BinOp {
    pub fn name(&self) -> (r: &'static str)
        ensures
            r@ == binop_name(*self),
    {
        match self {
            BinOp::Add => "Add",
            BinOp::Sub => "Sub",
            BinOp::Mul => "Mul",
            BinOp::Div => "Div",
            BinOp::IDiv => "IDiv",
            BinOp::Mod => "Mod",
            BinOp::Pow => "Pow",
            BinOp::Concat => "Concat",
            BinOp::EQ => "EQ",
            BinOp::NE => "NE",
            BinOp::LT => "LT",
            BinOp::LE => "LE",
            BinOp::GT => "GT",
            BinOp::GE => "GE",
            BinOp::And => "And",
            BinOp::Or => "Or",
            BinOp::BitAnd => "BitAnd",
            BinOp::BitOr => "BitOr",
            BinOp::BitXor => "BitXor",
            BinOp::Shl => "Shl",
            BinOp::Shr => "Shr",
        }
    }
}

impl UnOp {
    pub fn name(&self) -> (r: &'static str)
        ensures
            r@ == unop_name(*self),
    {
        match self {
            UnOp::Neg => "Neg",
            UnOp::Not => "Not",
        }
    }
}

/// The label that names the kind of an expression.
pub open spec fn expr_label(e: Expr) -> Seq<char> {
    match e {
        Expr::Nil => "Nil"@,
        Expr::True => "True"@,
        Expr::False => "False"@,
        Expr::Integer(_) => "Integer"@,
        Expr::String(_) => "String"@,
        Expr::Identifier(_) => "Identifier"@,
        Expr::Table { .. } => "Table"@,
        Expr::List { .. } => "List"@,
        Expr::UnOp { .. } => "Unary Operation"@,
        Expr::BinOp { .. } => "Binary Operation"@,
        Expr::Member { .. } => "MemberAccess"@,
        Expr::Index { .. } => "IndexAccess"@,
        Expr::Call { .. } => "FunctionCall"@,
        Expr::TypeConstructor { .. } => "TypeConstructor"@,
        Expr::Func { .. } => "Lambda"@,
    }
}

/// The label that names the kind of a statement.
pub open spec fn stmt_label(s: Stmt) -> Seq<char> {
    match s {
        Stmt::Break => "Break"@,
        Stmt::Return { .. } => "Return"@,
        Stmt::Call { .. } => "FunctionCall"@,
        Stmt::Assign { .. } => "Assign"@,
        Stmt::Binding { .. } => "Binding"@,
        Stmt::If { .. } => "If/Else"@,
        Stmt::ForNum { .. } => "NumericFor"@,
        Stmt::FuncDef { .. } => "FunctionDef"@,
        Stmt::TypeDef { .. } => "TypeDef"@,
    }
}

impl Expr {
    pub fn label(&self) -> (r: &'static str)
        ensures
            r@ == expr_label(*self),
    {
        match self {
            Expr::Nil => "Nil",
            Expr::True => "True",
            Expr::False => "False",
            Expr::Integer(_) => "Integer",
            Expr::String(_) => "String",
            Expr::Identifier(_) => "Identifier",
            Expr::Table { .. } => "Table",
            Expr::List { .. } => "List",
            Expr::UnOp { .. } => "Unary Operation",
            Expr::BinOp { .. } => "Binary Operation",
            Expr::Member { .. } => "MemberAccess",
            Expr::Index { .. } => "IndexAccess",
            Expr::Call { .. } => "FunctionCall",
            Expr::TypeConstructor { .. } => "TypeConstructor",
            Expr::Func { .. } => "Lambda",
        }
    }

    /// Whether the expression can stand on the left of an assignment.
    pub open spec fn spec_is_lvalue(&self) -> bool {
        self is Identifier || self is Member || self is Index
    }

    pub fn is_lvalue(&self) -> (r: bool)
        ensures
            r == self.spec_is_lvalue(),
    {
        match self {
            Expr::Identifier(_) | Expr::Member { .. } | Expr::Index { .. } => true,
            _ => false,
        }
    }
}

impl Stmt {
    pub fn label(&self) -> (r: &'static str)
        ensures
            r@ == stmt_label(*self),
    {
        match self {
            Stmt::Break => "Break",
            Stmt::Return { .. } => "Return",
            Stmt::Call { .. } => "FunctionCall",
            Stmt::Assign { .. } => "Assign",
            Stmt::Binding { .. } => "Binding",
            Stmt::If { .. } => "If/Else",
            Stmt::ForNum { .. } => "NumericFor",
            Stmt::FuncDef { .. } => "FunctionDef",
            Stmt::TypeDef { .. } => "TypeDef",
        }
    }
}


// ---------------------------------------------------------------------------
// The tree as a mathematical value: lists as sequences
// ---------------------------------------------------------------------------

pub enum TypeM {
    Named { nesting: usize, name: Spanned<String> },
    Function { nesting: usize, args: Seq<Spanned<TypeM>>, ret: Option<Box<Spanned<TypeM>>> },
}

pub struct ArgDefM {
    pub name: Spanned<String>,
    pub typ: Spanned<TypeM>,
}

pub enum ElementM {
    Indexed(Spanned<ExprM>),
    Named { name: Spanned<String>, expr: Spanned<ExprM> },
}

pub enum FieldM {
    Implicit(String),
    Explicit { name: Spanned<String>, expr: Spanned<ExprM> },
}

pub enum ExprM {
    Nil,
    True,
    False,
    Integer(i64),
    String(String),
    Identifier(String),
    Table { elements: Seq<Spanned<ElementM>> },
    List { elements: Spanned<Seq<Spanned<ExprM>>> },
    UnOp { expr: Box<Spanned<ExprM>>, op: Spanned<UnOp> },
    BinOp { rhs: Box<Spanned<ExprM>>, lhs: Box<Spanned<ExprM>>, op: Spanned<BinOp> },
    Call { expr: Box<Spanned<ExprM>>, args: Spanned<Seq<Spanned<ExprM>>> },
    TypeConstructor { name: Spanned<String>, fields: Spanned<Seq<Spanned<FieldM>>> },
    Func { body: Spanned<FuncBodyM> },
    Member { expr: Box<Spanned<ExprM>>, member: Spanned<String> },
    Index { expr: Box<Spanned<ExprM>>, index: Box<Spanned<ExprM>> },
}

pub struct FuncBodyM {
    pub args: Spanned<Seq<Spanned<ArgDefM>>>,
    pub ret: Option<Spanned<TypeM>>,
    pub body: Spanned<Seq<Spanned<StmtM>>>,
}

pub enum StmtM {
    Break,
    Return { expr: Option<Spanned<ExprM>> },
    Call { expr: Box<Spanned<ExprM>>, args: Spanned<Seq<Spanned<ExprM>>> },
    Binding { lhs: Spanned<Seq<Spanned<String>>>, rhs: Spanned<Seq<Spanned<ExprM>>> },
    Assign { lhs: Spanned<Seq<Spanned<ExprM>>>, rhs: Spanned<Seq<Spanned<ExprM>>> },
    If {
        condition: Box<Spanned<ExprM>>,
        then_block: Spanned<Seq<Spanned<StmtM>>>,
        else_if_blocks: Seq<(Spanned<ExprM>, Spanned<Seq<Spanned<StmtM>>>)>,
        else_block: Option<Spanned<Seq<Spanned<StmtM>>>>,
    },
    ForNum {
        var: Spanned<String>,
        start: Box<Spanned<ExprM>>,
        limit: Box<Spanned<ExprM>>,
        step: Box<Spanned<ExprM>>,
        body: Spanned<Seq<Spanned<StmtM>>>,
    },
    TypeDef { name: Spanned<String>, fields: Spanned<Seq<Spanned<ArgDefM>>> },
    FuncDef { is_local: bool, name: Spanned<String>, body: FuncBodyM },
}

pub open spec fn sp<T>(data: T, span: Span) -> Spanned<T> {
    Spanned { data, span }
}

pub open spec fn type_v(t: Spanned<Type>) -> Spanned<TypeM>
    decreases t, 1int,
{
    sp(
        match t.data {
            Type::Named { nesting, name } => TypeM::Named { nesting, name },
            Type::Function { nesting, args, ret } => TypeM::Function {
                nesting,
                args: types_v(args@),
                ret: match ret {
                    Some(b) => Some(Box::new(type_v(*b))),
                    None => None,
                },
            },
        },
        t.span,
    )
}

pub open spec fn types_v(v: Seq<Spanned<Type>>) -> Seq<Spanned<TypeM>>
    decreases v, 0int,
{
    if v.len() == 0 {
        Seq::empty()
    } else {
        types_v(v.drop_last()).push(type_v(v.last()))
    }
}

pub open spec fn argdef_v(a: Spanned<ArgDef>) -> Spanned<ArgDefM> {
    sp(ArgDefM { name: a.data.name, typ: type_v(a.data.typ) }, a.span)
}

pub open spec fn argdefs_v(v: Seq<Spanned<ArgDef>>) -> Seq<Spanned<ArgDefM>>
    decreases v.len(),
{
    if v.len() == 0 {
        Seq::empty()
    } else {
        argdefs_v(v.drop_last()).push(argdef_v(v.last()))
    }
}

pub open spec fn expr_v(e: Spanned<Expr>) -> Spanned<ExprM>
    decreases e, 1int,
{
    sp(
        match e.data {
            Expr::Nil => ExprM::Nil,
            Expr::True => ExprM::True,
            Expr::False => ExprM::False,
            Expr::Integer(n) => ExprM::Integer(n),
            Expr::String(x) => ExprM::String(x),
            Expr::Identifier(x) => ExprM::Identifier(x),
            Expr::Table { elements } => ExprM::Table { elements: elements_v(elements@) },
            Expr::List { elements } => ExprM::List { elements: sp(exprs_v(elements.data@), elements.span) },
            Expr::UnOp { expr, op } => ExprM::UnOp { expr: Box::new(expr_v(*expr)), op },
            Expr::BinOp { rhs, lhs, op } => ExprM::BinOp {
                rhs: Box::new(expr_v(*rhs)),
                lhs: Box::new(expr_v(*lhs)),
                op,
            },
            Expr::Call { expr, args } => ExprM::Call {
                expr: Box::new(expr_v(*expr)),
                args: sp(exprs_v(args.data@), args.span),
            },
            Expr::TypeConstructor { name, fields } => ExprM::TypeConstructor {
                name,
                fields: sp(fields_v(fields.data@), fields.span),
            },
            Expr::Func { body } => ExprM::Func { body: sp(body_v(body.data), body.span) },
            Expr::Member { expr, member } => ExprM::Member { expr: Box::new(expr_v(*expr)), member },
            Expr::Index { expr, index } => ExprM::Index {
                expr: Box::new(expr_v(*expr)),
                index: Box::new(expr_v(*index)),
            },
        },
        e.span,
    )
}

pub open spec fn exprs_v(v: Seq<Spanned<Expr>>) -> Seq<Spanned<ExprM>>
    decreases v, 0int,
{
    if v.len() == 0 {
        Seq::empty()
    } else {
        exprs_v(v.drop_last()).push(expr_v(v.last()))
    }
}

pub open spec fn elements_v(v: Seq<Spanned<Element>>) -> Seq<Spanned<ElementM>>
    decreases v, 0int,
{
    if v.len() == 0 {
        Seq::empty()
    } else {
        let e = v.last();
        elements_v(v.drop_last()).push(
            sp(
                match e.data {
                    Element::Indexed(x) => ElementM::Indexed(expr_v(x)),
                    Element::Named { name, expr } => ElementM::Named { name, expr: expr_v(expr) },
                },
                e.span,
            ),
        )
    }
}

pub open spec fn fields_v(v: Seq<Spanned<FieldConstructor>>) -> Seq<Spanned<FieldM>>
    decreases v, 0int,
{
    if v.len() == 0 {
        Seq::empty()
    } else {
        let f = v.last();
        fields_v(v.drop_last()).push(
            sp(
                match f.data {
                    FieldConstructor::Implicit(x) => FieldM::Implicit(x),
                    FieldConstructor::Explicit { name, expr } => FieldM::Explicit { name, expr: expr_v(expr) },
                },
                f.span,
            ),
        )
    }
}

pub open spec fn body_v(b: FuncBody) -> FuncBodyM
    decreases b, 0int,
{
    FuncBodyM {
        args: sp(argdefs_v(b.args.data@), b.args.span),
        ret: match b.ret {
            Some(t) => Some(type_v(t)),
            None => None,
        },
        body: sp(stmts_v(b.body.data@), b.body.span),
    }
}

pub open spec fn block_v(b: Spanned<Vec<Spanned<Stmt>>>) -> Spanned<Seq<Spanned<StmtM>>>
    decreases b, 0int,
{
    sp(stmts_v(b.data@), b.span)
}

pub open spec fn stmt_v(s: Spanned<Stmt>) -> Spanned<StmtM>
    decreases s, 1int,
{
    sp(
        match s.data {
            Stmt::Break => StmtM::Break,
            Stmt::Return { expr } => StmtM::Return {
                expr: match expr {
                    Some(e) => Some(expr_v(e)),
                    None => None,
                },
            },
            Stmt::Call { expr, args } => StmtM::Call {
                expr: Box::new(expr_v(*expr)),
                args: sp(exprs_v(args.data@), args.span),
            },
            Stmt::Binding { lhs, rhs } => StmtM::Binding {
                lhs: sp(lhs.data@, lhs.span),
                rhs: sp(exprs_v(rhs.data@), rhs.span),
            },
            Stmt::Assign { lhs, rhs } => StmtM::Assign {
                lhs: sp(exprs_v(lhs.data@), lhs.span),
                rhs: sp(exprs_v(rhs.data@), rhs.span),
            },
            Stmt::If { condition, then_block, else_if_blocks, else_block } => StmtM::If {
                condition: Box::new(expr_v(*condition)),
                then_block: block_v(then_block),
                else_if_blocks: else_ifs_v(else_if_blocks@),
                else_block: match else_block {
                    Some(b) => Some(block_v(b)),
                    None => None,
                },
            },
            Stmt::ForNum { var, start, limit, step, body } => StmtM::ForNum {
                var,
                start: Box::new(expr_v(*start)),
                limit: Box::new(expr_v(*limit)),
                step: Box::new(expr_v(*step)),
                body: block_v(body),
            },
            Stmt::TypeDef { name, fields } => StmtM::TypeDef {
                name,
                fields: sp(argdefs_v(fields.data@), fields.span),
            },
            Stmt::FuncDef { is_local, name, body } => StmtM::FuncDef { is_local, name, body: body_v(body) },
        },
        s.span,
    )
}

pub open spec fn stmts_v(v: Seq<Spanned<Stmt>>) -> Seq<Spanned<StmtM>>
    decreases v, 0int,
{
    if v.len() == 0 {
        Seq::empty()
    } else {
        stmts_v(v.drop_last()).push(stmt_v(v.last()))
    }
}

pub open spec fn else_ifs_v(v: Seq<(Spanned<Expr>, Spanned<Vec<Spanned<Stmt>>>)>) -> Seq<
    (Spanned<ExprM>, Spanned<Seq<Spanned<StmtM>>>),
>
    decreases v, 0int,
{
    if v.len() == 0 {
        Seq::empty()
    } else {
        else_ifs_v(v.drop_last()).push((expr_v(v.last().0), block_v(v.last().1)))
    }
}

} // verus!
