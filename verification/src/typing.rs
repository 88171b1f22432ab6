use vstd::prelude::*;

use crate::ast::{self, BinOp, Expr, FieldConstructor, FuncBody, Stmt, UnOp};
use crate::resolution::{
    binop_type, can_coerce_spec, key_index, lemma_key_index, lookup, plain, process_type_spec,
    scope_keys, scope_lookup, strings_model, unop_type, Context, Error, NType, NTypeModel, Scope,
    StructProto, TypeId, TypeModel,
};
use crate::source::{Span, Spanned};

verus! {

// ---------------------------------------------------------------------------
// What checking a program gives, stated over mathematical values: the type
// of each expression, the names and bindings each statement leaves, or the
// first error met.
// ---------------------------------------------------------------------------

/// A scope as a mathematical value: names with their types, in the order
/// they were bound.
pub type ScopeM = Seq<(Seq<char>, NTypeModel)>;

/// What the checker knows, as a mathematical value: the struct type names (a
/// type's id is its position), the struct definitions with their ids, and
/// the scopes, innermost last.
pub struct CtxM {
    pub names: Seq<Seq<char>>,
    pub protos: Seq<(nat, ScopeM)>,
    pub scopes: Seq<ScopeM>,
}

/// A checking error as a mathematical value.
pub enum CheckErr {
    MissingTypeDefinition { name: Seq<char> },
    Unbound { ident: Seq<char>, span: Span },
    Mismatch { expected: NTypeModel, found: NTypeModel, span: Span },
    ExpectedFunction { found: NTypeModel, span: Span },
    UnexpectedField { ident: Seq<char>, span: Span },
    InvalidTypeForUnOp { op: UnOp, expr: Spanned<NTypeModel> },
    InvalidTypeForBinOp { op: BinOp, lhs: Spanned<NTypeModel>, rhs: Spanned<NTypeModel> },
    WrongNumberOfElements { expected: nat, found: nat, span: Span },
    MalformedControlFow { span: Span },
    Rejected { message: &'static str, span: Span },
}

pub open spec fn scope_m(s: Seq<(String, NType)>) -> ScopeM {
    s.map_values(|e: (String, NType)| (e.0@, e.1@))
}

pub open spec fn scopes_m(v: Seq<Scope>) -> Seq<ScopeM> {
    v.map_values(|s: Scope| scope_m(s@))
}

pub open spec fn protos_m(v: Seq<(TypeId, StructProto)>) -> Seq<(nat, ScopeM)> {
    v.map_values(|e: (TypeId, StructProto)| (e.0 as nat, scope_m(e.1.fields@)))
}

pub open spec fn ctx_m(c: Context) -> CtxM {
    CtxM { names: strings_model(c.names@), protos: protos_m(c.protos@), scopes: scopes_m(c.scopes@) }
}

pub open spec fn check_err_m(e: Error) -> CheckErr {
    match e {
        Error::MissingTypeDefinition { name } => CheckErr::MissingTypeDefinition { name: name@ },
        Error::Unbound { ident, span } => CheckErr::Unbound { ident: ident@, span },
        Error::Mismatch { expected, found, span } => CheckErr::Mismatch {
            expected: expected@,
            found: found@,
            span,
        },
        Error::ExpectedFunction { found, span } => CheckErr::ExpectedFunction { found: found@, span },
        Error::UnexpectedField { ident, span } => CheckErr::UnexpectedField { ident: ident@, span },
        Error::InvalidTypeForUnOp { op, expr } => CheckErr::InvalidTypeForUnOp {
            op,
            expr: Spanned { data: expr.data@, span: expr.span },
        },
        Error::InvalidTypeForBinOp { op, lhs, rhs } => CheckErr::InvalidTypeForBinOp {
            op,
            lhs: Spanned { data: lhs.data@, span: lhs.span },
            rhs: Spanned { data: rhs.data@, span: rhs.span },
        },
        Error::WrongNumberOfElements { expected, found, span } => CheckErr::WrongNumberOfElements {
            expected: expected as nat,
            found: found as nat,
            span,
        },
        Error::MalformedControlFow { span } => CheckErr::MalformedControlFow { span },
        Error::Rejected { message, span } => CheckErr::Rejected { message, span },
    }
}

/// The names of a scope.
pub open spec fn keys_m(s: ScopeM) -> Seq<Seq<char>> {
    s.map_values(|e: (Seq<char>, NTypeModel)| e.0)
}

/// The type bound to `x` in a scope.
pub open spec fn scope_get(s: ScopeM, x: Seq<char>) -> Option<NTypeModel> {
    let k = key_index(keys_m(s), x);
    if k >= 0 {
        Some(s[k].1)
    } else {
        None
    }
}

/// The type bound to `x` in the innermost scope that binds it.
pub open spec fn lookup_m(scopes: Seq<ScopeM>, x: Seq<char>) -> Option<NTypeModel>
    decreases scopes.len(),
{
    if scopes.len() == 0 {
        None
    } else {
        match scope_get(scopes.last(), x) {
            Some(t) => Some(t),
            None => lookup_m(scopes.drop_last(), x),
        }
    }
}

pub proof fn lemma_scope_m(s: Seq<(String, NType)>, x: Seq<char>)
    ensures
        keys_m(scope_m(s)) == scope_keys(s),
        scope_get(scope_m(s), x) == scope_lookup(s, x),
{
    assert(keys_m(scope_m(s)) =~= scope_keys(s));
    lemma_key_index(scope_keys(s), x);
}

pub proof fn lemma_lookup_m(scopes: Seq<Scope>, x: Seq<char>)
    ensures
        lookup_m(scopes_m(scopes), x) == lookup(scopes, x),
    decreases scopes.len(),
{
    if scopes.len() > 0 {
        assert(scopes_m(scopes).drop_last() =~= scopes_m(scopes.drop_last()));
        lemma_scope_m(scopes.last()@, x);
        lemma_lookup_m(scopes.drop_last(), x);
    }
}

/// `c` with other struct type names.
pub open spec fn with_names(c: CtxM, names: Seq<Seq<char>>) -> CtxM {
    CtxM { names, ..c }
}

/// `c` with other scopes.
pub open spec fn with_scopes(c: CtxM, scopes: Seq<ScopeM>) -> CtxM {
    CtxM { scopes, ..c }
}

/// Binds `x` to `t` in a scope: in place where `x` is bound, at the end
/// otherwise.
pub open spec fn scope_bind(s: ScopeM, x: Seq<char>, t: NTypeModel) -> ScopeM {
    let k = key_index(keys_m(s), x);
    if k >= 0 {
        s.update(k, (x, t))
    } else {
        s.push((x, t))
    }
}

/// Binds `x` to `t` in the innermost scope, where `x` must not be bound yet.
pub open spec fn bind_local(c: CtxM, x: Seq<char>, t: NTypeModel, span: Span) -> Result<CtxM, CheckErr> {
    if scope_get(c.scopes.last(), x) is Some {
        Err(CheckErr::Rejected { message: "a name is bound twice in one scope", span })
    } else {
        Ok(with_scopes(c, c.scopes.update(c.scopes.len() - 1, c.scopes.last().push((x, t)))))
    }
}

/// Position of the first definition of struct type `id`, or -1.
pub open spec fn proto_index(protos: Seq<(nat, ScopeM)>, id: nat) -> int
    decreases protos.len(),
{
    if protos.len() == 0 {
        -1
    } else {
        let k = proto_index(protos.drop_last(), id);
        if k >= 0 {
            k
        } else if protos.last().0 == id {
            protos.len() - 1
        } else {
            -1
        }
    }
}

pub proof fn lemma_proto_index(protos: Seq<(nat, ScopeM)>, id: nat)
    ensures
        -1 <= proto_index(protos, id) < protos.len(),
        proto_index(protos, id) >= 0 ==> protos[proto_index(protos, id)].0 == id,
        proto_index(protos, id) >= 0 ==> forall|j: int|
            0 <= j < proto_index(protos, id) ==> protos[j].0 != id,
        proto_index(protos, id) < 0 ==> forall|j: int| 0 <= j < protos.len() ==> protos[j].0 != id,
    decreases protos.len(),
{
    if protos.len() > 0 {
        lemma_proto_index(protos.drop_last(), id);
        assert forall|j: int| 0 <= j < protos.len() - 1 implies protos[j] == protos.drop_last()[j] by {}
    }
}

/// The fields of struct type `id`, as its first definition gives them.
pub open spec fn proto_fields(protos: Seq<(nat, ScopeM)>, id: nat) -> Option<ScopeM> {
    let k = proto_index(protos, id);
    if k >= 0 {
        Some(protos[k].1)
    } else {
        None
    }
}


/// The type with one level of list less.
pub open spec fn unlist(t: NTypeModel) -> NTypeModel {
    NTypeModel { nesting: (t.nesting - 1) as nat, inner: t.inner }
}

/// The type of an expression, with the struct type names known after
/// checking it, or the first error.
pub open spec fn check_expr(c: CtxM, e: Spanned<Expr>) -> Result<(NTypeModel, Seq<Seq<char>>), CheckErr>
    decreases e, 0int, 0int,
{
    match e.data {
        Expr::Nil => Ok((plain(TypeModel::Nil), c.names)),
        Expr::True | Expr::False => Ok((plain(TypeModel::Boolean), c.names)),
        Expr::Integer(_) => Ok((plain(TypeModel::Integer), c.names)),
        Expr::String(_) => Ok((plain(TypeModel::String), c.names)),
        Expr::Identifier(x) => match lookup_m(c.scopes, x@) {
            Some(t) => Ok((t, c.names)),
            None => Err(CheckErr::Unbound { ident: x@, span: e.span }),
        },
        Expr::List { elements } => if elements.data@.len() == 0 {
            Err(CheckErr::Rejected { message: "an empty list has no type", span: e.span })
        } else {
            match check_expr(c, elements.data@[0]) {
                Err(er) => Err(er),
                Ok((base, n1)) => match check_list(with_names(c, n1), elements.data@, 1, base) {
                    Err(er) => Err(er),
                    Ok(n2) => if base.nesting >= usize::MAX {
                        Err(CheckErr::Rejected { message: "lists nested too deep", span: e.span })
                    } else {
                        Ok((NTypeModel { nesting: base.nesting + 1, inner: base.inner }, n2))
                    },
                },
            }
        },
        Expr::UnOp { expr, op } => match check_expr(c, *expr) {
            Err(er) => Err(er),
            Ok((t, n)) => match unop_type(op.data, t) {
                Some(u) => Ok((u, n)),
                None => Err(
                    CheckErr::InvalidTypeForUnOp { op: op.data, expr: Spanned { data: t, span: expr.span } },
                ),
            },
        },
        Expr::BinOp { rhs, lhs, op } => match check_expr(c, *rhs) {
            Err(er) => Err(er),
            Ok((rt, n1)) => match check_expr(with_names(c, n1), *lhs) {
                Err(er) => Err(er),
                Ok((lt, n2)) => match binop_type(op.data, lt, rt) {
                    Some(t) => Ok((t, n2)),
                    None => Err(
                        CheckErr::InvalidTypeForBinOp {
                            op: op.data,
                            lhs: Spanned { data: lt, span: lhs.span },
                            rhs: Spanned { data: rt, span: rhs.span },
                        },
                    ),
                },
            },
        },
        Expr::Table { .. } => Err(CheckErr::Rejected { message: "tables have no type yet", span: e.span }),
        Expr::Call { expr: callee, args } => match check_expr(c, *callee) {
            Err(er) => Err(er),
            Ok((t, n1)) => check_call(with_names(c, n1), t, callee.span, args.data@),
        },
        Expr::TypeConstructor { name, fields } => {
            let id = key_index(c.names, name.data@);
            if id < 0 {
                Err(CheckErr::Rejected { message: "undefined type", span: name.span })
            } else {
                match proto_fields(c.protos, id as nat) {
                    None => Err(
                        CheckErr::Rejected { message: "type used before its definition", span: name.span },
                    ),
                    Some(pf) => match check_fields(c, pf, fields.data@, 0) {
                        Err(er) => Err(er),
                        Ok(n) => Ok((plain(TypeModel::Struct(id as nat)), n)),
                    },
                }
            }
        },
        Expr::Func { body } => match check_func(c, body.data) {
            Err(er) => Err(er),
            Ok((t, n)) => Ok((plain(t.inner), n)),
        },
        Expr::Member { expr, member } => match check_expr(c, *expr) {
            Err(er) => Err(er),
            Ok((t, n)) => if t.nesting != 0 {
                Err(CheckErr::Rejected { message: "member access on a list", span: expr.span })
            } else {
                match t.inner {
                    TypeModel::Struct(id) => match proto_fields(c.protos, id) {
                        None => Err(
                            CheckErr::Rejected { message: "struct type without definition", span: expr.span },
                        ),
                        Some(pf) => match scope_get(pf, member.data@) {
                            Some(ft) => Ok((ft, n)),
                            None => Err(CheckErr::UnexpectedField { ident: member.data@, span: member.span }),
                        },
                    },
                    _ => Err(
                        CheckErr::Rejected {
                            message: "member access on a value that is not a struct",
                            span: expr.span,
                        },
                    ),
                }
            },
        },
        Expr::Index { expr, index } => match check_expr(c, *expr) {
            Err(er) => Err(er),
            Ok((vt, n1)) => if vt.nesting == 0 {
                Err(CheckErr::Rejected { message: "indexing a value that is not a list", span: expr.span })
            } else {
                match check_expr(with_names(c, n1), *index) {
                    Err(er) => Err(er),
                    Ok((it, n2)) => if it != plain(TypeModel::Integer) {
                        Err(CheckErr::Mismatch { expected: plain(TypeModel::Integer), found: it, span: index.span })
                    } else {
                        Ok((unlist(vt), n2))
                    },
                }
            },
        },
    }
}

/// Checks that the elements of a list from the `i`-th on have type `base`,
/// giving the names known after them.
pub open spec fn check_list(c: CtxM, els: Seq<Spanned<Expr>>, i: int, base: NTypeModel) -> Result<
    Seq<Seq<char>>,
    CheckErr,
>
    decreases els, 0int, els.len() - i,
{
    if i < 0 || i >= els.len() {
        Ok(c.names)
    } else {
        match check_expr(c, els[i]) {
            Err(er) => Err(er),
            Ok((t, n)) => if t != base {
                Err(CheckErr::Mismatch { expected: base, found: t, span: els[i].span })
            } else {
                check_list(with_names(c, n), els, i + 1, base)
            },
        }
    }
}

/// Checks the fields of a type constructor from the `i`-th on against the
/// fields `pf` of the type's definition.
pub open spec fn check_fields(c: CtxM, pf: ScopeM, fs: Seq<Spanned<FieldConstructor>>, i: int) -> Result<
    Seq<Seq<char>>,
    CheckErr,
>
    decreases fs, 0int, fs.len() - i,
{
    if i < 0 || i >= fs.len() {
        Ok(c.names)
    } else {
        let f = fs[i];
        match f.data {
            FieldConstructor::Implicit(x) => match lookup_m(c.scopes, x@) {
                None => Err(CheckErr::Unbound { ident: x@, span: f.span }),
                Some(t) => match scope_get(pf, x@) {
                    None => Err(CheckErr::UnexpectedField { ident: x@, span: f.span }),
                    Some(ft) => if !can_coerce_spec(ft, t) {
                        Err(CheckErr::Mismatch { expected: ft, found: t, span: f.span })
                    } else {
                        check_fields(c, pf, fs, i + 1)
                    },
                },
            },
            FieldConstructor::Explicit { name, expr } => match check_expr(c, expr) {
                Err(er) => Err(er),
                Ok((t, n)) => match scope_get(pf, name.data@) {
                    None => Err(CheckErr::UnexpectedField { ident: name.data@, span: name.span }),
                    Some(ft) => if !can_coerce_spec(ft, t) {
                        Err(CheckErr::Mismatch { expected: ft, found: t, span: name.span })
                    } else {
                        check_fields(with_names(c, n), pf, fs, i + 1)
                    },
                },
            },
        }
    }
}

/// The type a call of a value of type `callee` gives, with the names known
/// after its arguments.
pub open spec fn check_call(c: CtxM, callee: NTypeModel, span: Span, exprs: Seq<Spanned<Expr>>) -> Result<
    (NTypeModel, Seq<Seq<char>>),
    CheckErr,
>
    decreases exprs, 1int, 0int,
{
    match callee.inner {
        TypeModel::Func(args, ret) => if callee.nesting != 0 {
            Err(CheckErr::ExpectedFunction { found: callee, span })
        } else if args.len() != exprs.len() {
            Err(CheckErr::WrongNumberOfElements { expected: args.len(), found: exprs.len(), span })
        } else {
            match check_args(c, args, exprs, 0) {
                Err(er) => Err(er),
                Ok(n) => Ok((*ret, n)),
            }
        },
        _ => Err(CheckErr::ExpectedFunction { found: callee, span }),
    }
}

/// Checks the arguments of a call from the `i`-th on against the parameter
/// types.
pub open spec fn check_args(c: CtxM, args: Seq<NTypeModel>, exprs: Seq<Spanned<Expr>>, i: int) -> Result<
    Seq<Seq<char>>,
    CheckErr,
>
    decreases exprs, 0int, exprs.len() - i,
{
    if i < 0 || i >= exprs.len() {
        Ok(c.names)
    } else {
        match check_expr(c, exprs[i]) {
            Err(er) => Err(er),
            Ok((t, n)) => if !can_coerce_spec(args[i], t) {
                Err(CheckErr::Mismatch { expected: args[i], found: t, span: exprs[i].span })
            } else {
                check_args(with_names(c, n), args, exprs, i + 1)
            },
        }
    }
}

/// The parameters of a function from the `i`-th on: their types, in order,
/// and the scope that binds them, a later one of the same name replacing an
/// earlier one; with the names known after their types.
pub open spec fn params_s(
    names: Seq<Seq<char>>,
    params: Seq<Spanned<ast::ArgDef>>,
    i: int,
    scope: ScopeM,
    types: Seq<NTypeModel>,
) -> (Seq<Seq<char>>, ScopeM, Seq<NTypeModel>)
    decreases params.len() - i,
{
    if i < 0 || i >= params.len() {
        (names, scope, types)
    } else {
        let (n, t) = process_type_spec(names, params[i].data.typ.data);
        params_s(n, params, i + 1, scope_bind(scope, params[i].data.name.data@, t), types.push(t))
    }
}

/// The type of a function, with the names known after its body: its
/// parameters are bound in a new scope and its body is checked against its
/// return type, `nil` when none is written.
pub open spec fn check_func(c: CtxM, body: FuncBody) -> Result<(NTypeModel, Seq<Seq<char>>), CheckErr>
    decreases body, 0int, 0int,
{
    let (n1, scope, args) = params_s(c.names, body.args.data@, 0, Seq::empty(), Seq::empty());
    let (n2, ret) = match body.ret {
        Some(t) => process_type_spec(n1, t.data),
        None => (n1, plain(TypeModel::Nil)),
    };
    let inner = CtxM { names: n2, protos: c.protos, scopes: c.scopes.push(scope) };
    match check_stmts(inner, body.body.data@, 0, Some(Spanned { data: ret, span: body.args.span })) {
        Err(er) => Err(er),
        Ok(c2) => Ok((plain(TypeModel::Func(args, Box::new(ret))), c2.names)),
    }
}

/// Checks statements from the `i`-th on in a function returning `ret`
/// (outside any function when `None`), giving what is known after them.
pub open spec fn check_stmts(c: CtxM, stmts: Seq<Spanned<Stmt>>, i: int, ret: Option<Spanned<NTypeModel>>) -> Result<
    CtxM,
    CheckErr,
>
    decreases stmts, 0int, stmts.len() - i,
{
    if i < 0 || i >= stmts.len() {
        Ok(c)
    } else {
        match check_stmt(c, stmts[i], ret) {
            Err(er) => Err(er),
            Ok(c2) => check_stmts(c2, stmts, i + 1, ret),
        }
    }
}

/// Checks a block in a new scope, which is dropped after it.
pub open spec fn check_block(c: CtxM, stmts: Seq<Spanned<Stmt>>, ret: Option<Spanned<NTypeModel>>) -> Result<
    CtxM,
    CheckErr,
>
    decreases stmts, 1int, 0int,
{
    match check_stmts(with_scopes(c, c.scopes.push(Seq::empty())), stmts, 0, ret) {
        Err(er) => Err(er),
        Ok(c2) => Ok(with_scopes(c2, c2.scopes.drop_last())),
    }
}

/// Checks a statement in a function returning `ret`, giving what is known
/// after it.
pub open spec fn check_stmt(c: CtxM, s: Spanned<Stmt>, ret: Option<Spanned<NTypeModel>>) -> Result<
    CtxM,
    CheckErr,
>
    decreases s, 1int, 0int,
{
    match s.data {
        Stmt::TypeDef { .. } | Stmt::Break => Ok(c),
        Stmt::Return { expr } => match ret {
            None => Err(CheckErr::MalformedControlFow { span: s.span }),
            Some(r) => {
                let res = match expr {
                    Some(x) => match check_expr(c, x) {
                        Err(er) => Err(er),
                        Ok((t, n)) => Ok((t, x.span, n)),
                    },
                    None => Ok((plain(TypeModel::Nil), s.span, c.names)),
                };
                match res {
                    Err(er) => Err(er),
                    Ok((t, span, n)) => if !can_coerce_spec(r.data, t) {
                        Err(CheckErr::Mismatch { expected: r.data, found: t, span })
                    } else {
                        Ok(with_names(c, n))
                    },
                }
            },
        },
        Stmt::Call { expr, args } => match check_expr(c, *expr) {
            Err(er) => Err(er),
            Ok((t, n1)) => match check_call(with_names(c, n1), t, expr.span, args.data@) {
                Err(er) => Err(er),
                Ok((_, n2)) => Ok(with_names(c, n2)),
            },
        },
        Stmt::Binding { lhs, rhs } => if lhs.data@.len() != rhs.data@.len() {
            Err(
                CheckErr::WrongNumberOfElements {
                    expected: lhs.data@.len(),
                    found: rhs.data@.len(),
                    span: lhs.span,
                },
            )
        } else {
            check_bindings(c, s, 0)
        },
        Stmt::Assign { lhs, rhs } => if lhs.data@.len() != rhs.data@.len() {
            Err(
                CheckErr::WrongNumberOfElements {
                    expected: lhs.data@.len(),
                    found: rhs.data@.len(),
                    span: lhs.span,
                },
            )
        } else {
            check_assigns(c, s, 0)
        },
        Stmt::If { condition, then_block, else_if_blocks, else_block } => match check_cond(c, *condition) {
            Err(er) => Err(er),
            Ok(n1) => match check_block(with_names(c, n1), then_block.data@, ret) {
                Err(er) => Err(er),
                Ok(c2) => match check_else_ifs(c2, else_if_blocks@, 0, ret) {
                    Err(er) => Err(er),
                    Ok(c3) => match else_block {
                        Some(b) => check_block(c3, b.data@, ret),
                        None => Ok(c3),
                    },
                },
            },
        },
        Stmt::ForNum { .. } => Err(
            CheckErr::Rejected { message: "numeric for loops are not checked yet", span: s.span },
        ),
        Stmt::FuncDef { name, body, .. } => match check_func(c, body) {
            Err(er) => Err(er),
            Ok((t, n)) => bind_local(with_names(c, n), name.data@, t, name.span),
        },
    }
}

/// Checks a condition, which must be a boolean.
pub open spec fn check_cond(c: CtxM, cond: Spanned<Expr>) -> Result<Seq<Seq<char>>, CheckErr>
    decreases cond, 1int, 0int,
{
    match check_expr(c, cond) {
        Err(er) => Err(er),
        Ok((t, n)) => if t != plain(TypeModel::Boolean) {
            Err(CheckErr::Mismatch { expected: plain(TypeModel::Boolean), found: t, span: cond.span })
        } else {
            Ok(n)
        },
    }
}

/// Checks the `elseif` clauses from the `i`-th on.
pub open spec fn check_else_ifs(
    c: CtxM,
    blocks: Seq<(Spanned<Expr>, Spanned<Vec<Spanned<Stmt>>>)>,
    i: int,
    ret: Option<Spanned<NTypeModel>>,
) -> Result<CtxM, CheckErr>
    decreases blocks, 0int, blocks.len() - i,
{
    if i < 0 || i >= blocks.len() {
        Ok(c)
    } else {
        match check_cond(c, blocks[i].0) {
            Err(er) => Err(er),
            Ok(n1) => match check_block(with_names(c, n1), blocks[i].1.data@, ret) {
                Err(er) => Err(er),
                Ok(c2) => check_else_ifs(c2, blocks, i + 1, ret),
            },
        }
    }
}

/// Checks the bindings of a `local` statement from the `i`-th on: each name
/// is bound in the innermost scope to the type of its expression.
pub open spec fn check_bindings(c: CtxM, s: Spanned<Stmt>, i: int) -> Result<CtxM, CheckErr>
    decreases s, 0int, (match s.data {
        Stmt::Binding { rhs, .. } => rhs.data@.len() as int,
        _ => 0,
    }) - i,
{
    match s.data {
        Stmt::Binding { lhs, rhs } => if i < 0 || i >= rhs.data@.len() || i >= lhs.data@.len() {
            Ok(c)
        } else {
            match check_expr(c, rhs.data@[i]) {
                Err(er) => Err(er),
                Ok((t, n)) => match bind_local(with_names(c, n), lhs.data@[i].data@, t, lhs.data@[i].span) {
                    Err(er) => Err(er),
                    Ok(c2) => check_bindings(c2, s, i + 1),
                },
            }
        },
        _ => Ok(c),
    }
}

/// Checks the assignments of an assignment statement from the `i`-th on:
/// each value must fit its place.
pub open spec fn check_assigns(c: CtxM, s: Spanned<Stmt>, i: int) -> Result<CtxM, CheckErr>
    decreases s, 0int, (match s.data {
        Stmt::Assign { rhs, .. } => rhs.data@.len() as int,
        _ => 0,
    }) - i,
{
    match s.data {
        Stmt::Assign { lhs, rhs } => if i < 0 || i >= rhs.data@.len() || i >= lhs.data@.len() {
            Ok(c)
        } else {
            match check_expr(c, lhs.data@[i]) {
                Err(er) => Err(er),
                Ok((lt, n1)) => match check_expr(with_names(c, n1), rhs.data@[i]) {
                    Err(er) => Err(er),
                    Ok((rt, n2)) => if !can_coerce_spec(lt, rt) {
                        Err(CheckErr::Mismatch { expected: lt, found: rt, span: rhs.data@[i].span })
                    } else {
                        check_assigns(with_names(c, n2), s, i + 1)
                    },
                },
            }
        },
        _ => Ok(c),
    }
}


/// The return type a function body is checked against, as a mathematical
/// value.
pub open spec fn ret_m(ret: Option<&Spanned<NType>>) -> Option<Spanned<NTypeModel>> {
    match ret {
        Some(r) => Some(Spanned { data: r.data@, span: r.span }),
        None => None,
    }
}

/// Checking an expression from `before` gave `r` and left `after`, as the
/// checking `s` states.
pub open spec fn expr_checked(
    before: Context,
    after: Context,
    r: Result<NType, Error>,
    s: Result<(NTypeModel, Seq<Seq<char>>), CheckErr>,
) -> bool {
    match (r, s) {
        (Ok(t), Ok((tm, n))) => t@ == tm && ctx_m(after) == with_names(ctx_m(before), n),
        (Err(e), Err(em)) => check_err_m(e) == em,
        _ => false,
    }
}

/// Checking statements gave `r` and left `after`, as the checking `s`
/// states.
pub open spec fn stmt_checked(after: Context, r: Result<(), Error>, s: Result<CtxM, CheckErr>) -> bool {
    match (r, s) {
        (Ok(_), Ok(c)) => ctx_m(after) == c,
        (Err(e), Err(em)) => check_err_m(e) == em,
        _ => false,
    }
}


/// What a local binding does to the scopes, as mathematical values.
pub proof fn lemma_bind_local_m(before: Seq<Scope>, after: Seq<Scope>, x: String, t: NType)
    requires
        before.len() > 0,
        after.len() == before.len(),
        after.drop_last() == before.drop_last(),
        after.last()@ == before.last()@.push((x, t)),
    ensures
        scopes_m(after) == scopes_m(before).update(
            before.len() - 1,
            scopes_m(before).last().push((x@, t@)),
        ),
{
    assert(scope_m(after.last()@) =~= scope_m(before.last()@).push((x@, t@)));
    assert forall|i: int| 0 <= i < before.len() - 1 implies after[i] == before[i] by {
        assert(after[i] == after.drop_last()[i]);
    }
    assert(scopes_m(after) =~= scopes_m(before).update(
        before.len() - 1,
        scopes_m(before).last().push((x@, t@)),
    ));
}

/// The innermost scope binds `x` as its exec form does.
pub proof fn lemma_last_scope_m(scopes: Seq<Scope>, x: Seq<char>)
    requires
        scopes.len() > 0,
    ensures
        scope_get(scopes_m(scopes).last(), x) == scope_lookup(scopes.last()@, x),
{
    lemma_scope_m(scopes.last()@, x);
}


/// A new innermost scope, as mathematical values.
pub proof fn lemma_push_scope_m(before: Seq<Scope>, after: Seq<Scope>)
    requires
        after.len() == before.len() + 1,
        after.drop_last() == before,
        after.last()@ == Seq::<(String, NType)>::empty(),
    ensures
        scopes_m(after) == scopes_m(before).push(Seq::empty()),
{
    assert(scope_m(after.last()@) =~= Seq::empty());
    assert forall|i: int| 0 <= i < before.len() implies after[i] == before[i] by {
        assert(after[i] == after.drop_last()[i]);
    }
    assert(scopes_m(after) =~= scopes_m(before).push(Seq::empty()));
}


/// The fields of a struct definition, each with its type, and the names
/// known after their types.
pub open spec fn fields_s(names: Seq<Seq<char>>, fields: Seq<Spanned<ast::ArgDef>>) -> (Seq<Seq<char>>, ScopeM)
    decreases fields.len(),
{
    if fields.len() == 0 {
        (names, Seq::empty())
    } else {
        let (n1, fs) = fields_s(names, fields.drop_last());
        let (n2, t) = process_type_spec(n1, fields.last().data.typ.data);
        (n2, fs.push((fields.last().data.name.data@, t)))
    }
}

/// The struct definitions of the statements from the `i`-th on, each with
/// its type's id (a new name gets the next id), and the names known after
/// them; or the error of a type defined twice.
pub open spec fn collect_defs(
    stmts: Seq<Spanned<Stmt>>,
    i: int,
    names: Seq<Seq<char>>,
    protos: Seq<(nat, ScopeM)>,
) -> Result<(Seq<Seq<char>>, Seq<(nat, ScopeM)>), CheckErr>
    decreases stmts.len() - i,
{
    if i < 0 || i >= stmts.len() {
        Ok((names, protos))
    } else {
        match stmts[i].data {
            Stmt::TypeDef { name, fields } => {
                let k = key_index(names, name.data@);
                if k >= 0 && proto_index(protos, k as nat) >= 0 {
                    Err(CheckErr::Rejected { message: "a type is defined twice", span: name.span })
                } else {
                    let (id, names1) = if k >= 0 {
                        (k as nat, names)
                    } else {
                        (names.len(), names.push(name.data@))
                    };
                    let (names2, fs) = fields_s(names1, fields.data@);
                    collect_defs(stmts, i + 1, names2, protos.push((id, fs)))
                }
            },
            _ => collect_defs(stmts, i + 1, names, protos),
        }
    }
}

/// The types of the built-in functions: `print`, `test`, `exec`, `exit`.
pub open spec fn builtin_scope_m() -> ScopeM {
    seq![
        ("print"@, plain(TypeModel::Func(seq![plain(TypeModel::Any)], Box::new(plain(TypeModel::Integer))))),
        (
            "test"@,
            plain(
                TypeModel::Func(
                    seq![
                        plain(TypeModel::Func(Seq::empty(), Box::new(plain(TypeModel::Nil)))),
                        plain(TypeModel::Integer),
                    ],
                    Box::new(plain(TypeModel::Nil)),
                ),
            ),
        ),
        (
            "exec"@,
            plain(
                TypeModel::Func(
                    seq![NTypeModel { nesting: 1, inner: TypeModel::String }],
                    Box::new(plain(TypeModel::String)),
                ),
            ),
        ),
        ("exit"@, plain(TypeModel::Func(Seq::empty(), Box::new(plain(TypeModel::Nil))))),
    ]
}

/// The first struct type name from the `t`-th on that has no definition.
pub open spec fn first_undefined(names: Seq<Seq<char>>, protos: Seq<(nat, ScopeM)>, t: int) -> Option<Seq<char>>
    decreases names.len() - t,
{
    if t < 0 || t >= names.len() {
        None
    } else if proto_index(protos, t as nat) < 0 {
        Some(names[t])
    } else {
        first_undefined(names, protos, t + 1)
    }
}

/// What checking a program gives: its struct definitions are collected,
/// its statements are checked in order in the scope of the built-in
/// functions, and every struct type name must then have a definition.
pub open spec fn check_program(stmts: Seq<Spanned<Stmt>>) -> Result<(), CheckErr> {
    match collect_defs(stmts, 0, Seq::empty(), Seq::empty()) {
        Err(er) => Err(er),
        Ok((names, protos)) => match check_stmts(
            CtxM { names, protos, scopes: seq![builtin_scope_m()] },
            stmts,
            0,
            None,
        ) {
            Err(er) => Err(er),
            Ok(c) => match first_undefined(c.names, c.protos, 0) {
                Some(n) => Err(CheckErr::MissingTypeDefinition { name: n }),
                None => Ok(()),
            },
        },
    }
}

} // verus!
