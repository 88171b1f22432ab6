use vstd::prelude::*;

use crate::ast::{BinOp, Element, Expr, FieldConstructor, FuncBody, Stmt, UnOp};
use crate::interpreter::{
    assigned, binding_place, int_arith, int_compare, is_arith, is_comparison, lemma_binding_place, text_of,
    value_keys, value_lookup, Builtin, Context, Error, Scope, Table, Value,
};
use crate::resolution::{key_index, lemma_key_index, Prototypes};
use crate::source::{Span, Spanned};
use crate::text::decimal;

verus! {

// ---------------------------------------------------------------------------
// What running a program does, stated over mathematical values: the value
// of each expression and the scopes, heap and tables that each step leaves.
// The host's answers are the one thing running does not decide: the
// semantics takes them, in order, from `answers`, and records what the host
// was asked and answered.
// ---------------------------------------------------------------------------

/// A runtime value as a mathematical value.
pub enum ValueM {
    Nil,
    Boolean(bool),
    Integer(i64),
    String(Seq<char>),
    List(nat),
    Struct { typ: Seq<char>, fields: nat },
    Table(nat),
    Func(FuncBody),
    FFI(Builtin),
}

/// A table as a mathematical value.
pub struct TableM {
    pub indexed: Seq<(i64, ValueM)>,
    pub named: Seq<(Seq<char>, ValueM)>,
}

pub type ScopeV = Seq<(Seq<char>, ValueM)>;

/// The interpreter's state as a mathematical value: the scopes (innermost
/// last), the heap of lists and struct fields, the tables, and what the host
/// was asked and answered.
pub struct StateM {
    pub scopes: Seq<ScopeV>,
    pub heap: Seq<Seq<ValueM>>,
    pub tables: Seq<TableM>,
    pub log: Seq<(Seq<Seq<char>>, Seq<char>)>,
}

/// A runtime error as a mathematical value.
pub enum RunErr {
    Return { span: Span, value: ValueM },
    Break { span: Span },
    MalformedControlFlow { span: Span },
    Custom { message: Seq<char>, span: Span },
    OutOfBound { len: nat, index: i64, span: Span },
    Unbound { ident: Seq<char>, span: Span },
    Exit { span: Span },
    NotAFunction { span: Span, found: ValueM },
    FFI(&'static str),
    TypeMismatch { expected: &'static str, found: ValueM, span: Span },
    Rejected { message: &'static str, span: Span },
}

pub open spec fn value_m(v: Value) -> ValueM {
    match v {
        Value::Nil => ValueM::Nil,
        Value::Boolean(b) => ValueM::Boolean(b),
        Value::Integer(x) => ValueM::Integer(x),
        Value::String(x) => ValueM::String(x@),
        Value::List(i) => ValueM::List(i as nat),
        Value::Struct { typ, fields } => ValueM::Struct { typ: typ@, fields: fields as nat },
        Value::Table(t) => ValueM::Table(t as nat),
        Value::Func(f) => ValueM::Func(*f),
        Value::FFI(f) => ValueM::FFI(f),
    }
}

pub open spec fn values_m(v: Seq<Value>) -> Seq<ValueM> {
    v.map_values(|x: Value| value_m(x))
}

pub open spec fn scope_vm(s: Seq<(String, Value)>) -> ScopeV {
    s.map_values(|e: (String, Value)| (e.0@, value_m(e.1)))
}

pub open spec fn indexed_m(v: Seq<(i64, Value)>) -> Seq<(i64, ValueM)> {
    v.map_values(|e: (i64, Value)| (e.0, value_m(e.1)))
}

pub open spec fn named_m(v: Seq<(String, Value)>) -> Seq<(Seq<char>, ValueM)> {
    v.map_values(|e: (String, Value)| (e.0@, value_m(e.1)))
}

pub open spec fn table_m(t: Table) -> TableM {
    TableM { indexed: indexed_m(t.indexed@), named: named_m(t.named@) }
}

pub open spec fn scopes_vm(v: Seq<Scope>) -> Seq<ScopeV> {
    v.map_values(|s: Scope| scope_vm(s@))
}

pub open spec fn heap_m(v: Seq<Vec<Value>>) -> Seq<Seq<ValueM>> {
    v.map_values(|h: Vec<Value>| values_m(h@))
}

pub open spec fn tables_m(v: Seq<Table>) -> Seq<TableM> {
    v.map_values(|t: Table| table_m(t))
}

pub open spec fn state_m(c: Context) -> StateM {
    StateM { scopes: scopes_vm(c.scopes@), heap: heap_m(c.heap@), tables: tables_m(c.tables@), log: c.log@ }
}

pub open spec fn err_m(e: Error) -> RunErr {
    match e {
        Error::Return { span, value } => RunErr::Return { span, value: value_m(value) },
        Error::Break { span } => RunErr::Break { span },
        Error::MalformedControlFlow { span } => RunErr::MalformedControlFlow { span },
        Error::Custom { message, span } => RunErr::Custom { message: message@, span },
        Error::OutOfBound { len, index, span } => RunErr::OutOfBound { len: len as nat, index, span },
        Error::Unbound { ident, span } => RunErr::Unbound { ident: ident@, span },
        Error::Exit { span } => RunErr::Exit { span },
        Error::NotAFunction { span, found } => RunErr::NotAFunction { span, found: value_m(found) },
        Error::FFI(m) => RunErr::FFI(m),
        Error::TypeMismatch { expected, found, span } => RunErr::TypeMismatch {
            expected,
            found: value_m(found),
            span,
        },
        Error::Rejected { message, span } => RunErr::Rejected { message, span },
    }
}

pub open spec fn res_m(r: Result<Value, Error>) -> Result<ValueM, RunErr> {
    match r {
        Ok(v) => Ok(value_m(v)),
        Err(e) => Err(err_m(e)),
    }
}

pub open spec fn unit_m(r: Result<(), Error>) -> Result<(), RunErr> {
    match r {
        Ok(_) => Ok(()),
        Err(e) => Err(err_m(e)),
    }
}

/// The host's answers `answers` agree with what `log` records.
pub open spec fn agrees(log: Seq<(Seq<Seq<char>>, Seq<char>)>, answers: Seq<Seq<char>>) -> bool {
    &&& log.len() <= answers.len()
    &&& forall|i: int| 0 <= i < log.len() ==> #[trigger] log[i].1 == answers[i]
}

/// A log that is the same log with one more exchange at its end has grown.
pub proof fn lemma_log_push(a: Seq<(Seq<Seq<char>>, Seq<char>)>, x: (Seq<Seq<char>>, Seq<char>))
    ensures
        log_grows(a, a.push(x)),
{
    assert forall|answers: Seq<Seq<char>>| #[trigger] agrees(a.push(x), answers) implies agrees(a, answers) by {
        assert forall|i: int| 0 <= i < a.len() implies #[trigger] a[i].1 == answers[i] by {
            assert(a.push(x)[i] == a[i]);
        }
    }
}

// ---------------------------------------------------------------------------
// Scopes
// ---------------------------------------------------------------------------

pub open spec fn keys_v(s: ScopeV) -> Seq<Seq<char>> {
    s.map_values(|e: (Seq<char>, ValueM)| e.0)
}

/// Where `x` is bound: the innermost scope that binds it and the entry.
pub open spec fn place_v(scopes: Seq<ScopeV>, x: Seq<char>) -> Option<(int, int)>
    decreases scopes.len(),
{
    if scopes.len() == 0 {
        None
    } else {
        let k = key_index(keys_v(scopes.last()), x);
        if k >= 0 {
            Some(((scopes.len() - 1) as int, k))
        } else {
            place_v(scopes.drop_last(), x)
        }
    }
}

/// The value bound to `x` in the innermost scope that binds it.
pub open spec fn lookup_v(scopes: Seq<ScopeV>, x: Seq<char>) -> Option<ValueM> {
    match place_v(scopes, x) {
        Some((s, k)) => Some(scopes[s][k].1),
        None => None,
    }
}

/// Binds `x` to `v`: the innermost binding of `x` takes the value, or, where
/// no scope binds `x`, the innermost scope gets a new binding.
pub open spec fn assign_v(scopes: Seq<ScopeV>, x: Seq<char>, v: ValueM) -> Seq<ScopeV> {
    match place_v(scopes, x) {
        Some((s, k)) => scopes.update(s, scopes[s].update(k, (scopes[s][k].0, v))),
        None => scopes.update(scopes.len() - 1, scopes.last().push((x, v))),
    }
}

pub proof fn lemma_place_v(scopes: Seq<Scope>, x: Seq<char>)
    ensures
        place_v(scopes_vm(scopes), x) == binding_place(scopes, x),
    decreases scopes.len(),
{
    if scopes.len() > 0 {
        assert(keys_v(scopes_vm(scopes).last()) =~= value_keys(scopes.last()@));
        assert(scopes_vm(scopes).drop_last() =~= scopes_vm(scopes.drop_last()));
        lemma_place_v(scopes.drop_last(), x);
    }
}


pub proof fn lemma_lookup_v(scopes: Seq<Scope>, x: Seq<char>)
    ensures
        lookup_v(scopes_vm(scopes), x) == match value_lookup(scopes, x) {
            Some(v) => Some(value_m(v)),
            None => None,
        },
{
    lemma_place_v(scopes, x);
    lemma_binding_place(scopes, x);
}

pub proof fn lemma_assign_v(before: Seq<Scope>, x: String, v: Value, after: Seq<Scope>)
    requires
        before.len() > 0,
        assigned(before, x, v, after),
    ensures
        scopes_vm(after) == assign_v(scopes_vm(before), x@, value_m(v)),
{
    lemma_place_v(before, x@);
    lemma_binding_place(before, x@);
    match binding_place(before, x@) {
        Some((sc, k)) => {
            assert(scope_vm(after[sc]@) =~= scope_vm(before[sc]@).update(k, (before[sc]@[k].0@, value_m(v))));
            assert(scopes_vm(after) =~= assign_v(scopes_vm(before), x@, value_m(v)));
        },
        None => {
            assert(scope_vm(after.last()@) =~= scope_vm(before.last()@).push((x@, value_m(v))));
            assert forall|i: int| 0 <= i < before.len() - 1 implies after[i] == before[i] by {
                assert(after[i] == after.drop_last()[i]);
            }
            assert(scopes_vm(after) =~= assign_v(scopes_vm(before), x@, value_m(v)));
        },
    }
}

pub proof fn lemma_text_m(v: Value)
    ensures
        text_of(v) == text_m(value_m(v)),
{
}

// ---------------------------------------------------------------------------
// Operations on values
// ---------------------------------------------------------------------------

/// Whether a value counts as true in a condition.
pub open spec fn truthy_m(v: ValueM, s: StateM) -> bool {
    match v {
        ValueM::Nil => false,
        ValueM::Boolean(b) => b,
        ValueM::Integer(x) => x != 0,
        ValueM::String(t) => t.len() != 0,
        ValueM::List(i) => s.heap[i as int].len() != 0,
        ValueM::Table(t) => s.tables[t as int].indexed.len() != 0 || s.tables[t as int].named.len() != 0,
        _ => true,
    }
}

/// How a value reads when it is joined to a string.
pub open spec fn text_m(v: ValueM) -> Seq<char> {
    match v {
        ValueM::Nil => "nil"@,
        ValueM::Boolean(true) => "true"@,
        ValueM::Boolean(false) => "false"@,
        ValueM::Integer(x) => decimal(x as int),
        ValueM::String(t) => t,
        ValueM::Struct { typ, .. } => typ + "{…}"@,
        ValueM::Table(_) => "{…}"@,
        ValueM::List(_) => "[…]"@,
        ValueM::Func(_) => "fn{…}"@,
        ValueM::FFI(_) => "ffi{…}"@,
    }
}

/// A binary operation on two values: a string joined with the text of
/// anything; integer arithmetic (where the result fits and nothing is
/// divided by zero) and comparison; `and` gives the right operand when the
/// left one is true and the left one otherwise, `or` the left one when it is
/// true and the right one otherwise; two lists joined
/// into a new list.
pub open spec fn binop_m(op: BinOp, l: ValueM, r: ValueM, s: StateM, span: Span) -> (Result<ValueM, RunErr>, StateM) {
    if op is Add && l is String {
        (Ok(ValueM::String(l->String_0 + text_m(r))), s)
    } else if l is Integer && r is Integer && is_arith(op) {
        match int_arith(op, l->Integer_0, r->Integer_0) {
            Some(c) => (Ok(ValueM::Integer(c)), s),
            None => (Err(RunErr::Rejected { message: "integer overflow or division by zero", span }), s),
        }
    } else if l is Integer && r is Integer && is_comparison(op) {
        (Ok(ValueM::Boolean(int_compare(op, l->Integer_0, r->Integer_0))), s)
    } else if op is And {
        (Ok(if truthy_m(l, s) { r } else { l }), s)
    } else if op is Or {
        (Ok(if truthy_m(l, s) { l } else { r }), s)
    } else if op is Add && l is List && r is List {
        (
            Ok(ValueM::List(s.heap.len())),
            StateM { heap: s.heap.push(s.heap[l->List_0 as int] + s.heap[r->List_0 as int]), ..s },
        )
    } else {
        (Err(RunErr::Rejected { message: "no rule for this operation", span }), s)
    }
}

/// Where field `member` of struct type `typ` is stored.
pub open spec fn offset_m(p: Prototypes, typ: Seq<char>, member: Seq<char>) -> Option<usize> {
    offset_from(p.offsets@, typ, member, 0)
}

/// The first offset entry from the `i`-th on for `typ` and `member`.
pub open spec fn offset_from(offsets: Seq<((String, String), usize)>, typ: Seq<char>, member: Seq<char>, i: int) -> Option<usize>
    decreases offsets.len() - i,
{
    if i < 0 || i >= offsets.len() {
        None
    } else if offsets[i].0.0@ == typ && offsets[i].0.1@ == member {
        Some(offsets[i].1)
    } else {
        offset_from(offsets, typ, member, i + 1)
    }
}

/// How many fields struct type `typ` has.
pub open spec fn size_m(p: Prototypes, typ: Seq<char>) -> Option<usize> {
    size_from(p.sizes@, typ, 0)
}

pub open spec fn size_from(sizes: Seq<(String, usize)>, typ: Seq<char>, i: int) -> Option<usize>
    decreases sizes.len() - i,
{
    if i < 0 || i >= sizes.len() {
        None
    } else if sizes[i].0@ == typ {
        Some(sizes[i].1)
    } else {
        size_from(sizes, typ, i + 1)
    }
}

/// The value a table holds under name `x`, `nil` where it holds none.
pub open spec fn named_get(named: Seq<(Seq<char>, ValueM)>, x: Seq<char>, i: int) -> ValueM
    decreases named.len() - i,
{
    if i < 0 || i >= named.len() {
        ValueM::Nil
    } else if named[i].0 == x {
        named[i].1
    } else {
        named_get(named, x, i + 1)
    }
}

/// The value a table holds under integer key `k`, `nil` where it holds none.
pub open spec fn indexed_get(indexed: Seq<(i64, ValueM)>, k: i64, i: int) -> ValueM
    decreases indexed.len() - i,
{
    if i < 0 || i >= indexed.len() {
        ValueM::Nil
    } else if indexed[i].0 == k {
        indexed[i].1
    } else {
        indexed_get(indexed, k, i + 1)
    }
}

/// Binds name `x` to `v` among a table's named entries: in place where `x`
/// is there, at the end otherwise.
pub open spec fn named_bind(named: Seq<(Seq<char>, ValueM)>, x: Seq<char>, v: ValueM) -> Seq<(Seq<char>, ValueM)> {
    let k = key_index(keys_v(named), x);
    if k >= 0 {
        named.update(k, (x, v))
    } else {
        named.push((x, v))
    }
}

/// The words a list of values hands to the host: `nil` gives none, a
/// boolean, integer or string its text; any other value is refused.
pub open spec fn words_m(args: Seq<ValueM>, i: int, acc: Seq<Seq<char>>) -> Result<Seq<Seq<char>>, RunErr>
    decreases args.len() - i,
{
    if i < 0 || i >= args.len() {
        Ok(acc)
    } else {
        match args[i] {
            ValueM::Nil => words_m(args, i + 1, acc),
            ValueM::Boolean(true) => words_m(args, i + 1, acc.push("true"@)),
            ValueM::Boolean(false) => words_m(args, i + 1, acc.push("false"@)),
            ValueM::Integer(x) => words_m(args, i + 1, acc.push(decimal(x as int))),
            ValueM::String(t) => words_m(args, i + 1, acc.push(t)),
            _ => Err(RunErr::FFI("ff::extern_test::invalid_arg")),
        }
    }
}

/// The scope that binds a function's parameters from the `i`-th on to the
/// arguments, a later one of the same name replacing an earlier one;
/// arguments beyond the parameters are dropped.
pub open spec fn params_v(params: Seq<Spanned<crate::ast::ArgDef>>, args: Seq<ValueM>, i: int, scope: ScopeV) -> ScopeV
    decreases params.len() - i,
{
    if i < 0 || i >= params.len() || i >= args.len() {
        scope
    } else {
        params_v(params, args, i + 1, named_bind(scope, params[i].data.name.data@, args[i]))
    }
}

pub open spec fn with_scopes(s: StateM, scopes: Seq<ScopeV>) -> StateM {
    StateM { scopes, ..s }
}

/// The state with its innermost scope dropped.
pub open spec fn pop_m(s: StateM) -> StateM {
    with_scopes(s, s.scopes.drop_last())
}

/// The state with a new heap cell holding `cells`.
pub open spec fn alloc_m(s: StateM, cells: Seq<ValueM>) -> StateM {
    StateM { heap: s.heap.push(cells), ..s }
}

/// The state with `v` at position `k` of heap cell `c`.
pub open spec fn store_m(s: StateM, c: nat, k: int, v: ValueM) -> StateM {
    StateM { heap: s.heap.update(c as int, s.heap[c as int].update(k, v)), ..s }
}


// ---------------------------------------------------------------------------
// Running code
// ---------------------------------------------------------------------------

/// Evaluates an expression with calls nested at most `d` deep, giving its
/// value or error and the state after it.
pub open spec fn run_expr(p: Prototypes, s: StateM, e: Spanned<Expr>, d: nat, answers: Seq<Seq<char>>) -> (
    Result<ValueM, RunErr>,
    StateM,
)
    decreases d, e, 0int, 0int,
{
    match e.data {
        Expr::Nil => (Ok(ValueM::Nil), s),
        Expr::True => (Ok(ValueM::Boolean(true)), s),
        Expr::False => (Ok(ValueM::Boolean(false)), s),
        Expr::Integer(x) => (Ok(ValueM::Integer(x)), s),
        Expr::String(x) => (Ok(ValueM::String(x@)), s),
        Expr::Identifier(x) => match lookup_v(s.scopes, x@) {
            Some(v) => (Ok(v), s),
            None => (Err(RunErr::Unbound { ident: x@, span: e.span }), s),
        },
        Expr::List { elements } => match run_list(p, s, elements.data@, 0, Seq::empty(), d, answers) {
            (Err(er), s1) => (Err(er), s1),
            (Ok(vs), s1) => (Ok(ValueM::List(s1.heap.len())), alloc_m(s1, vs)),
        },
        Expr::Table { elements } => match run_table(
            p,
            s,
            elements@,
            0,
            TableM { indexed: Seq::empty(), named: Seq::empty() },
            0,
            d,
            answers,
        ) {
            (Err(er), s1) => (Err(er), s1),
            (Ok(t), s1) => (Ok(ValueM::Table(s1.tables.len())), StateM { tables: s1.tables.push(t), ..s1 }),
        },
        Expr::UnOp { expr, op } => match run_expr(p, s, *expr, d, answers) {
            (Err(er), s1) => (Err(er), s1),
            (Ok(v), s1) => match (op.data, v) {
                (UnOp::Neg, ValueM::Integer(x)) => if x == i64::MIN {
                    (Err(RunErr::Rejected { message: "integer overflow", span: expr.span }), s1)
                } else {
                    (Ok(ValueM::Integer((0 - x) as i64)), s1)
                },
                (UnOp::Not, ValueM::Boolean(b)) => (Ok(ValueM::Boolean(!b)), s1),
                _ => (Err(RunErr::Rejected { message: "no rule for this operation", span: expr.span }), s1),
            },
        },
        Expr::Member { expr, member } => match run_expr(p, s, *expr, d, answers) {
            (Err(er), s1) => (Err(er), s1),
            (Ok(v), s1) => match v {
                ValueM::Table(t) => (Ok(named_get(s1.tables[t as int].named, member.data@, 0)), s1),
                ValueM::Struct { typ, fields } => match offset_m(p, typ, member.data@) {
                    None => (Err(RunErr::Rejected { message: "no layout for this field", span: expr.span }), s1),
                    Some(o) => if o >= s1.heap[fields as int].len() {
                        (Err(RunErr::Rejected { message: "no layout for this field", span: expr.span }), s1)
                    } else {
                        (Ok(s1.heap[fields as int][o as int]), s1)
                    },
                },
                _ => (Err(RunErr::TypeMismatch { expected: "Struct", found: v, span: expr.span }), s1),
            },
        },
        Expr::Index { expr, index } => match run_expr(p, s, *expr, d, answers) {
            (Err(er), s1) => (Err(er), s1),
            (Ok(v), s1) => match run_expr(p, s1, *index, d, answers) {
                (Err(er), s2) => (Err(er), s2),
                (Ok(iv), s2) => match (v, iv) {
                    (ValueM::Table(t), ValueM::Integer(k)) => (Ok(indexed_get(s2.tables[t as int].indexed, k, 0)), s2),
                    (ValueM::List(l), ValueM::Integer(k)) => if k < 0 || k >= s2.heap[l as int].len() {
                        (
                            Err(RunErr::OutOfBound { len: s2.heap[l as int].len(), index: k, span: index.span }),
                            s2,
                        )
                    } else {
                        (Ok(s2.heap[l as int][k as int]), s2)
                    },
                    _ => (Err(RunErr::TypeMismatch { expected: "List", found: v, span: expr.span }), s2),
                },
            },
        },
        Expr::BinOp { rhs, lhs, op } => match run_expr(p, s, *rhs, d, answers) {
            (Err(er), s1) => (Err(er), s1),
            (Ok(r), s1) => match run_expr(p, s1, *lhs, d, answers) {
                (Err(er), s2) => (Err(er), s2),
                (Ok(l), s2) => binop_m(op.data, l, r, s2, op.span),
            },
        },
        Expr::TypeConstructor { name, fields } => match size_m(p, name.data@) {
            None => (Err(RunErr::Rejected { message: "no layout for this type", span: name.span }), s),
            Some(n) => match run_ctor(
                p,
                s,
                name.data@,
                fields.data@,
                0,
                Seq::new(n as nat, |i: int| ValueM::Nil),
                d,
                answers,
            ) {
                (Err(er), s1) => (Err(er), s1),
                (Ok(holder), s1) => (
                    Ok(ValueM::Struct { typ: name.data@, fields: s1.heap.len() }),
                    alloc_m(s1, holder),
                ),
            },
        },
        Expr::Call { expr: callee, args } => match run_expr(p, s, *callee, d, answers) {
            (Err(er), s1) => (Err(er), s1),
            (Ok(f), s1) => run_call(p, s1, f, callee.span, args.data@, d, answers),
        },
        Expr::Func { .. } => (Err(RunErr::Rejected { message: "function expressions are not run yet", span: e.span }), s),
    }
}

/// Evaluates expressions from the `i`-th on, in order, after the values
/// `acc`.
pub open spec fn run_list(
    p: Prototypes,
    s: StateM,
    els: Seq<Spanned<Expr>>,
    i: int,
    acc: Seq<ValueM>,
    d: nat,
    answers: Seq<Seq<char>>,
) -> (Result<Seq<ValueM>, RunErr>, StateM)
    decreases d, els, 0int, els.len() - i,
{
    if i < 0 || i >= els.len() {
        (Ok(acc), s)
    } else {
        match run_expr(p, s, els[i], d, answers) {
            (Err(er), s1) => (Err(er), s1),
            (Ok(v), s1) => run_list(p, s1, els, i + 1, acc.push(v), d, answers),
        }
    }
}

/// Evaluates the entries of a table from the `i`-th on into `t`; entries
/// without a name take the keys from `index` on.
pub open spec fn run_table(
    p: Prototypes,
    s: StateM,
    els: Seq<Spanned<Element>>,
    i: int,
    t: TableM,
    index: int,
    d: nat,
    answers: Seq<Seq<char>>,
) -> (Result<TableM, RunErr>, StateM)
    decreases d, els, 0int, els.len() - i,
{
    if i < 0 || i >= els.len() {
        (Ok(t), s)
    } else {
        match els[i].data {
            Element::Indexed(x) => match run_expr(p, s, x, d, answers) {
                (Err(er), s1) => (Err(er), s1),
                (Ok(v), s1) => if index >= i64::MAX {
                    (Err(RunErr::Rejected { message: "too many table entries", span: els[i].span }), s1)
                } else {
                    run_table(
                        p,
                        s1,
                        els,
                        i + 1,
                        TableM { indexed: t.indexed.push((index as i64, v)), ..t },
                        index + 1,
                        d,
                        answers,
                    )
                },
            },
            Element::Named { name, expr } => match run_expr(p, s, expr, d, answers) {
                (Err(er), s1) => (Err(er), s1),
                (Ok(v), s1) => run_table(
                    p,
                    s1,
                    els,
                    i + 1,
                    TableM { named: named_bind(t.named, name.data@, v), ..t },
                    index,
                    d,
                    answers,
                ),
            },
        }
    }
}

/// Fills the fields of a struct of type `typ` from the `i`-th field on.
pub open spec fn run_ctor(
    p: Prototypes,
    s: StateM,
    typ: Seq<char>,
    fields: Seq<Spanned<FieldConstructor>>,
    i: int,
    holder: Seq<ValueM>,
    d: nat,
    answers: Seq<Seq<char>>,
) -> (Result<Seq<ValueM>, RunErr>, StateM)
    decreases d, fields, 0int, fields.len() - i,
{
    if i < 0 || i >= fields.len() {
        (Ok(holder), s)
    } else {
        let f = fields[i];
        let (rv, s1, fname) = match f.data {
            FieldConstructor::Implicit(x) => (
                match lookup_v(s.scopes, x@) {
                    Some(v) => Ok(v),
                    None => Err(RunErr::Unbound { ident: x@, span: f.span }),
                },
                s,
                x@,
            ),
            FieldConstructor::Explicit { name, expr } => {
                let (r, s1) = run_expr(p, s, expr, d, answers);
                (r, s1, name.data@)
            },
        };
        match rv {
            Err(er) => (Err(er), s1),
            Ok(v) => match offset_m(p, typ, fname) {
                None => (Err(RunErr::Rejected { message: "no layout for this field", span: f.span }), s1),
                Some(o) => if o >= holder.len() {
                    (Err(RunErr::Rejected { message: "no layout for this field", span: f.span }), s1)
                } else {
                    run_ctor(p, s1, typ, fields, i + 1, holder.update(o as int, v), d, answers)
                },
            },
        }
    }
}

/// Calls `f` with the values of `args`.
pub open spec fn run_call(
    p: Prototypes,
    s: StateM,
    f: ValueM,
    span: Span,
    args: Seq<Spanned<Expr>>,
    d: nat,
    answers: Seq<Seq<char>>,
) -> (Result<ValueM, RunErr>, StateM)
    decreases d, args, 1int, 0int,
{
    match run_list(p, s, args, 0, Seq::empty(), d, answers) {
        (Err(er), s1) => (Err(er), s1),
        (Ok(vs), s1) => match f {
            ValueM::Func(body) => if d == 0 {
                (Err(RunErr::Rejected { message: "calls nested too deep", span }), s1)
            } else {
                run_func(p, s1, body, vs, (d - 1) as nat, answers)
            },
            ValueM::FFI(b) => if d == 0 {
                (Err(RunErr::Rejected { message: "calls nested too deep", span }), s1)
            } else {
                run_builtin(p, s1, b, span, vs, (d - 1) as nat, answers)
            },
            _ => (Err(RunErr::NotAFunction { span, found: f }), s1),
        },
    }
}

/// Calls a built-in function: `print` gives the number of its arguments,
/// `test` calls a function a number of times, `exec` hands words to the host
/// and gives its answer, `exit` stops the program.
pub open spec fn run_builtin(
    p: Prototypes,
    s: StateM,
    b: Builtin,
    span: Span,
    args: Seq<ValueM>,
    d: nat,
    answers: Seq<Seq<char>>,
) -> (Result<ValueM, RunErr>, StateM)
    decreases d, args, 1int, 0int,
{
    match b {
        Builtin::Exit => (Err(RunErr::Exit { span }), s),
        Builtin::Print => (Ok(ValueM::Integer(args.len() as i64)), s),
        Builtin::Test => if args.len() != 2 {
            (Err(RunErr::FFI("ffi::test")), s)
        } else {
            match (args[0], args[1]) {
                (ValueM::Func(_), ValueM::Integer(_)) => run_test(p, s, args, 0, span, d, answers),
                _ => (Err(RunErr::FFI("ffi::test")), s),
            }
        },
        Builtin::Exec => match words_m(args, 0, Seq::empty()) {
            Err(er) => (Err(er), s),
            Ok(words) => if words.len() == 0 {
                (Err(RunErr::FFI("ffi::extern_test::no_args")), s)
            } else {
                let answer = answers[s.log.len() as int];
                (Ok(ValueM::String(answer)), StateM { log: s.log.push((words, answer)), ..s })
            },
        },
    }
}

/// Calls the function `args[0]` with no arguments, from the `count`-th time
/// to the `args[1]`-th.
pub open spec fn run_test(
    p: Prototypes,
    s: StateM,
    args: Seq<ValueM>,
    count: int,
    span: Span,
    d: nat,
    answers: Seq<Seq<char>>,
) -> (Result<ValueM, RunErr>, StateM)
    decreases d, args, 0int, args[1]->Integer_0 - count,
{
    if count >= args[1]->Integer_0 {
        (Ok(ValueM::Nil), s)
    } else if d == 0 {
        (Err(RunErr::Rejected { message: "calls nested too deep", span }), s)
    } else {
        match run_func(p, s, args[0]->Func_0, Seq::empty(), (d - 1) as nat, answers) {
            (Err(er), s1) => (Err(er), s1),
            (Ok(_), s1) => run_test(p, s1, args, count + 1, span, d, answers),
        }
    }
}

/// Calls a function body: the arguments are bound in a new scope, the body
/// runs, and the call gives what a `return` hands back, or `nil`.
pub open spec fn run_func(
    p: Prototypes,
    s: StateM,
    body: FuncBody,
    args: Seq<ValueM>,
    d: nat,
    answers: Seq<Seq<char>>,
) -> (Result<ValueM, RunErr>, StateM)
    decreases d, body, 1int, 0int,
{
    let scope = params_v(body.args.data@, args, 0, Seq::empty());
    let (r, s1) = run_stmts(p, with_scopes(s, s.scopes.push(scope)), body.body.data@, 0, d, answers);
    func_outcome(r, s1)
}

/// What a call gives once its body ran to `r` in the state `s`.
pub open spec fn func_outcome(r: Result<(), RunErr>, s: StateM) -> (Result<ValueM, RunErr>, StateM) {
    match r {
        Ok(_) => (Ok(ValueM::Nil), pop_m(s)),
        Err(RunErr::Return { value, .. }) => (Ok(value), pop_m(s)),
        Err(RunErr::Break { span }) => (Err(RunErr::MalformedControlFlow { span }), s),
        Err(er) => (Err(er), s),
    }
}

/// Runs statements from the `i`-th on.
pub open spec fn run_stmts(
    p: Prototypes,
    s: StateM,
    stmts: Seq<Spanned<Stmt>>,
    i: int,
    d: nat,
    answers: Seq<Seq<char>>,
) -> (Result<(), RunErr>, StateM)
    decreases d, stmts, 0int, stmts.len() - i,
{
    if i < 0 || i >= stmts.len() {
        (Ok(()), s)
    } else {
        match run_stmt(p, s, stmts[i], d, answers) {
            (Err(er), s1) => (Err(er), s1),
            (Ok(_), s1) => run_stmts(p, s1, stmts, i + 1, d, answers),
        }
    }
}

/// Runs a block in a new scope, which is dropped after it.
pub open spec fn run_block(p: Prototypes, s: StateM, stmts: Seq<Spanned<Stmt>>, d: nat, answers: Seq<Seq<char>>) -> (
    Result<(), RunErr>,
    StateM,
)
    decreases d, stmts, 1int, 0int,
{
    match run_stmts(p, with_scopes(s, s.scopes.push(Seq::empty())), stmts, 0, d, answers) {
        (Err(er), s1) => (Err(er), s1),
        (Ok(_), s1) => (Ok(()), pop_m(s1)),
    }
}

/// Runs a statement.
pub open spec fn run_stmt(p: Prototypes, s: StateM, st: Spanned<Stmt>, d: nat, answers: Seq<Seq<char>>) -> (
    Result<(), RunErr>,
    StateM,
)
    decreases d, st, 2int, 0int,
{
    match st.data {
        Stmt::Break => (Err(RunErr::Break { span: st.span }), s),
        Stmt::Return { expr } => match expr {
            Some(x) => match run_expr(p, s, x, d, answers) {
                (Err(er), s1) => (Err(er), s1),
                (Ok(v), s1) => (Err(RunErr::Return { span: st.span, value: v }), s1),
            },
            None => (Err(RunErr::Return { span: st.span, value: ValueM::Nil }), s),
        },
        Stmt::Call { expr, args } => match run_expr(p, s, *expr, d, answers) {
            (Err(er), s1) => (Err(er), s1),
            (Ok(f), s1) => match run_call(p, s1, f, expr.span, args.data@, d, answers) {
                (Err(er), s2) => (Err(er), s2),
                (Ok(_), s2) => (Ok(()), s2),
            },
        },
        Stmt::Binding { .. } => run_bindings(p, s, st, 0, d, answers),
        Stmt::Assign { .. } => run_assigns(p, s, st, 0, d, answers),
        Stmt::If { condition, then_block, .. } => match run_expr(p, s, *condition, d, answers) {
            (Err(er), s1) => (Err(er), s1),
            (Ok(c), s1) => if truthy_m(c, s1) {
                run_block(p, s1, then_block.data@, d, answers)
            } else {
                run_else_ifs(p, s1, st, 0, d, answers)
            },
        },
        Stmt::ForNum { .. } => (Err(RunErr::Rejected { message: "numeric for loops are not run yet", span: st.span }), s),
        Stmt::TypeDef { .. } => (Ok(()), s),
        Stmt::FuncDef { name, body, .. } => (Ok(()), with_scopes(s, assign_v(s.scopes, name.data@, ValueM::Func(body)))),
    }
}

/// The `elseif` clauses of an `if` statement from the `i`-th on, then its
/// `else` block.
pub open spec fn run_else_ifs(p: Prototypes, s: StateM, st: Spanned<Stmt>, i: int, d: nat, answers: Seq<Seq<char>>) -> (
    Result<(), RunErr>,
    StateM,
)
    decreases d, st, 1int, (match st.data {
        Stmt::If { else_if_blocks, .. } => else_if_blocks@.len() as int,
        _ => 0,
    }) - i,
{
    match st.data {
        Stmt::If { else_if_blocks, else_block, .. } => if i < 0 || i >= else_if_blocks@.len() {
            match else_block {
                Some(b) => run_block(p, s, b.data@, d, answers),
                None => (Ok(()), s),
            }
        } else {
            match run_expr(p, s, else_if_blocks@[i].0, d, answers) {
                (Err(er), s1) => (Err(er), s1),
                (Ok(c), s1) => if truthy_m(c, s1) {
                    run_block(p, s1, else_if_blocks@[i].1.data@, d, answers)
                } else {
                    run_else_ifs(p, s1, st, i + 1, d, answers)
                },
            }
        },
        _ => (Ok(()), s),
    }
}

/// The bindings of a `local` statement from the `i`-th on.
pub open spec fn run_bindings(p: Prototypes, s: StateM, st: Spanned<Stmt>, i: int, d: nat, answers: Seq<Seq<char>>) -> (
    Result<(), RunErr>,
    StateM,
)
    decreases d, st, 1int, (match st.data {
        Stmt::Binding { rhs, .. } => rhs.data@.len() as int,
        _ => 0,
    }) - i,
{
    match st.data {
        Stmt::Binding { lhs, rhs } => if i < 0 || i >= lhs.data@.len() || i >= rhs.data@.len() {
            (Ok(()), s)
        } else {
            match run_expr(p, s, rhs.data@[i], d, answers) {
                (Err(er), s1) => (Err(er), s1),
                (Ok(v), s1) => run_bindings(
                    p,
                    with_scopes(s1, assign_v(s1.scopes, lhs.data@[i].data@, v)),
                    st,
                    i + 1,
                    d,
                    answers,
                ),
            }
        },
        _ => (Ok(()), s),
    }
}

/// The assignments of an assignment statement from the `i`-th on.
pub open spec fn run_assigns(p: Prototypes, s: StateM, st: Spanned<Stmt>, i: int, d: nat, answers: Seq<Seq<char>>) -> (
    Result<(), RunErr>,
    StateM,
)
    decreases d, st, 1int, (match st.data {
        Stmt::Assign { rhs, .. } => rhs.data@.len() as int,
        _ => 0,
    }) - i,
{
    match st.data {
        Stmt::Assign { lhs, rhs } => if i < 0 || i >= lhs.data@.len() || i >= rhs.data@.len() {
            (Ok(()), s)
        } else {
            match run_expr(p, s, rhs.data@[i], d, answers) {
                (Err(er), s1) => (Err(er), s1),
                (Ok(rv), s1) => match lhs.data@[i].data {
                    Expr::Identifier(x) => run_assigns(
                        p,
                        with_scopes(s1, assign_v(s1.scopes, x@, rv)),
                        st,
                        i + 1,
                        d,
                        answers,
                    ),
                    Expr::Member { expr, member } => match run_expr(p, s1, *expr, d, answers) {
                        (Err(er), s2) => (Err(er), s2),
                        (Ok(v), s2) => match v {
                            ValueM::Struct { typ, fields } => match offset_m(p, typ, member.data@) {
                                None => (
                                    Err(RunErr::Rejected { message: "no layout for this field", span: expr.span }),
                                    s2,
                                ),
                                Some(o) => if o >= s2.heap[fields as int].len() {
                                    (
                                        Err(RunErr::Rejected { message: "no layout for this field", span: expr.span }),
                                        s2,
                                    )
                                } else {
                                    run_assigns(p, store_m(s2, fields, o as int, rv), st, i + 1, d, answers)
                                },
                            },
                            _ => (Err(RunErr::TypeMismatch { expected: "Type", found: v, span: expr.span }), s2),
                        },
                    },
                    Expr::Index { expr, index } => match run_expr(p, s1, *expr, d, answers) {
                        (Err(er), s2) => (Err(er), s2),
                        (Ok(v), s2) => match run_expr(p, s2, *index, d, answers) {
                            (Err(er), s3) => (Err(er), s3),
                            (Ok(iv), s3) => match v {
                                ValueM::List(l) => match iv {
                                    ValueM::Integer(k) => if k < 0 || k >= s3.heap[l as int].len() {
                                        (
                                            Err(
                                                RunErr::OutOfBound {
                                                    len: s3.heap[l as int].len(),
                                                    index: k,
                                                    span: index.span,
                                                },
                                            ),
                                            s3,
                                        )
                                    } else {
                                        run_assigns(p, store_m(s3, l, k as int, rv), st, i + 1, d, answers)
                                    },
                                    _ => (
                                        Err(RunErr::TypeMismatch { expected: "int", found: iv, span: index.span }),
                                        s3,
                                    ),
                                },
                                _ => (Err(RunErr::TypeMismatch { expected: "List", found: v, span: expr.span }), s3),
                            },
                        },
                    },
                    _ => (
                        Err(
                            RunErr::Rejected {
                                message: "assignment to an expression that is not a place",
                                span: lhs.data@[i].span,
                            },
                        ),
                        s1,
                    ),
                },
            }
        },
        _ => (Ok(()), s),
    }
}


/// What the host was asked and answered before is still recorded, first.
pub open spec fn log_grows(a: Seq<(Seq<Seq<char>>, Seq<char>)>, b: Seq<(Seq<Seq<char>>, Seq<char>)>) -> bool {
    &&& a.len() <= b.len()
    &&& forall|i: int| 0 <= i < a.len() ==> #[trigger] b[i] == a[i]
    &&& forall|answers: Seq<Seq<char>>| #[trigger] agrees(b, answers) ==> agrees(a, answers)
}

// ---------------------------------------------------------------------------
// What the interpreter's functions did, for every run of the host whose
// answers agree with what the state after them records.
// ---------------------------------------------------------------------------

pub open spec fn expr_done(before: Context, after: Context, e: Spanned<Expr>, d: nat, r: Result<Value, Error>) -> bool {
    forall|answers: Seq<Seq<char>>|
        agrees(after.log@, answers) ==> #[trigger] run_expr(before.protos, state_m(before), e, d, answers) == (
            res_m(r),
            state_m(after),
        )
}

pub open spec fn call_done(
    before: Context,
    after: Context,
    f: ValueM,
    span: Span,
    args: Seq<Spanned<Expr>>,
    d: nat,
    r: Result<Value, Error>,
) -> bool {
    forall|answers: Seq<Seq<char>>|
        agrees(after.log@, answers) ==> #[trigger] run_call(before.protos, state_m(before), f, span, args, d, answers)
            == (res_m(r), state_m(after))
}

pub open spec fn builtin_done(
    before: Context,
    after: Context,
    b: Builtin,
    span: Span,
    args: Seq<ValueM>,
    d: nat,
    r: Result<Value, Error>,
) -> bool {
    forall|answers: Seq<Seq<char>>|
        agrees(after.log@, answers) ==> #[trigger] run_builtin(before.protos, state_m(before), b, span, args, d, answers)
            == (res_m(r), state_m(after))
}

pub open spec fn func_done(
    before: Context,
    after: Context,
    body: FuncBody,
    args: Seq<ValueM>,
    d: nat,
    r: Result<Value, Error>,
) -> bool {
    forall|answers: Seq<Seq<char>>|
        agrees(after.log@, answers) ==> #[trigger] run_func(before.protos, state_m(before), body, args, d, answers) == (
            res_m(r),
            state_m(after),
        )
}

pub open spec fn stmts_done(before: Context, after: Context, stmts: Seq<Spanned<Stmt>>, d: nat, r: Result<(), Error>) -> bool {
    forall|answers: Seq<Seq<char>>|
        agrees(after.log@, answers) ==> #[trigger] run_stmts(before.protos, state_m(before), stmts, 0, d, answers) == (
            unit_m(r),
            state_m(after),
        )
}

pub open spec fn block_done(before: Context, after: Context, stmts: Seq<Spanned<Stmt>>, d: nat, r: Result<(), Error>) -> bool {
    forall|answers: Seq<Seq<char>>|
        agrees(after.log@, answers) ==> #[trigger] run_block(before.protos, state_m(before), stmts, d, answers) == (
            unit_m(r),
            state_m(after),
        )
}

pub open spec fn stmt_done(before: Context, after: Context, st: Spanned<Stmt>, d: nat, r: Result<(), Error>) -> bool {
    forall|answers: Seq<Seq<char>>|
        agrees(after.log@, answers) ==> #[trigger] run_stmt(before.protos, state_m(before), st, d, answers) == (
            unit_m(r),
            state_m(after),
        )
}

pub open spec fn else_ifs_done(before: Context, after: Context, st: Spanned<Stmt>, d: nat, r: Result<(), Error>) -> bool {
    forall|answers: Seq<Seq<char>>|
        agrees(after.log@, answers) ==> #[trigger] run_else_ifs(before.protos, state_m(before), st, 0, d, answers)
            == (unit_m(r), state_m(after))
}

/// The scope of the built-in functions.
pub open spec fn builtins_v() -> ScopeV {
    seq![
        ("print"@, ValueM::FFI(Builtin::Print)),
        ("test"@, ValueM::FFI(Builtin::Test)),
        ("exec"@, ValueM::FFI(Builtin::Exec)),
        ("exit"@, ValueM::FFI(Builtin::Exit)),
    ]
}

/// The state a program starts in: the built-in functions in one scope, no
/// heap cells, no tables, nothing asked of the host.
pub open spec fn initial_m() -> StateM {
    StateM { scopes: seq![builtins_v()], heap: Seq::empty(), tables: Seq::empty(), log: Seq::empty() }
}

/// What running a program gives when the host answers with `answers`: the
/// statements run in order from the initial state, calls nested at most
/// `MAX_CALL_DEPTH` deep.
pub open spec fn run_program(p: Prototypes, stmts: Seq<Spanned<Stmt>>, answers: Seq<Seq<char>>) -> (
    Result<(), RunErr>,
    StateM,
) {
    run_stmts(p, initial_m(), stmts, 0, crate::interpreter::MAX_CALL_DEPTH as nat, answers)
}

/// The words handed to the host, as mathematical values.
pub open spec fn words_v(v: Seq<String>) -> Seq<Seq<char>> {
    v.map_values(|w: String| w@)
}


/// Integer comparisons follow the order of the integers: `a < b`, `a <= b`,
/// `a > b`, `a >= b`, `a == b` and `a != b` give exactly whether the two
/// numbers stand in that relation, and leave the state as it was.
pub proof fn law_integer_comparisons(a: i64, b: i64, s: StateM, span: Span)
    ensures
        binop_m(BinOp::LT, ValueM::Integer(a), ValueM::Integer(b), s, span) == (Ok::<ValueM, RunErr>(ValueM::Boolean(a < b)), s),
        binop_m(BinOp::LE, ValueM::Integer(a), ValueM::Integer(b), s, span) == (Ok::<ValueM, RunErr>(ValueM::Boolean(a <= b)), s),
        binop_m(BinOp::GT, ValueM::Integer(a), ValueM::Integer(b), s, span) == (Ok::<ValueM, RunErr>(ValueM::Boolean(a > b)), s),
        binop_m(BinOp::GE, ValueM::Integer(a), ValueM::Integer(b), s, span) == (Ok::<ValueM, RunErr>(ValueM::Boolean(a >= b)), s),
        binop_m(BinOp::EQ, ValueM::Integer(a), ValueM::Integer(b), s, span) == (Ok::<ValueM, RunErr>(ValueM::Boolean(a == b)), s),
        binop_m(BinOp::NE, ValueM::Integer(a), ValueM::Integer(b), s, span) == (Ok::<ValueM, RunErr>(ValueM::Boolean(a != b)), s),
{
}

/// Integer `+`, `-` and `*` give the mathematical result when it fits in 64
/// bits, and are refused otherwise.
pub proof fn law_integer_arithmetic(a: i64, b: i64, s: StateM, span: Span)
    ensures
        binop_m(BinOp::Add, ValueM::Integer(a), ValueM::Integer(b), s, span).1 == s,
        binop_m(BinOp::Add, ValueM::Integer(a), ValueM::Integer(b), s, span).0 == if i64::MIN <= a + b <= i64::MAX {
            Ok::<ValueM, RunErr>(ValueM::Integer((a + b) as i64))
        } else {
            Err(RunErr::Rejected { message: "integer overflow or division by zero", span })
        },
        binop_m(BinOp::Sub, ValueM::Integer(a), ValueM::Integer(b), s, span).0 == if i64::MIN <= a - b <= i64::MAX {
            Ok::<ValueM, RunErr>(ValueM::Integer((a - b) as i64))
        } else {
            Err(RunErr::Rejected { message: "integer overflow or division by zero", span })
        },
        binop_m(BinOp::Mul, ValueM::Integer(a), ValueM::Integer(b), s, span).0 == if i64::MIN <= a * b <= i64::MAX {
            Ok::<ValueM, RunErr>(ValueM::Integer((a * b) as i64))
        } else {
            Err(RunErr::Rejected { message: "integer overflow or division by zero", span })
        },
{
}

/// `and` gives its right operand when the left one is true and the left one
/// otherwise; `or` gives its left operand when it is true and the right one
/// otherwise; on booleans they are conjunction and disjunction.
pub proof fn law_and_or(x: bool, y: bool, s: StateM, span: Span)
    ensures
        binop_m(BinOp::And, ValueM::Boolean(x), ValueM::Boolean(y), s, span) == (Ok::<ValueM, RunErr>(ValueM::Boolean(x && y)), s),
        binop_m(BinOp::Or, ValueM::Boolean(x), ValueM::Boolean(y), s, span) == (Ok::<ValueM, RunErr>(ValueM::Boolean(x || y)), s),
{
}

/// `-x` of an integer `x` other than the smallest is the integer `0 - x`, and
/// `not b` of a boolean is its negation; the state is the one the operand
/// left.
pub proof fn law_unary_operators(
    p: Prototypes,
    s: StateM,
    inner: Spanned<Expr>,
    op: Spanned<UnOp>,
    span: Span,
    d: nat,
    answers: Seq<Seq<char>>,
    v: ValueM,
    s1: StateM,
)
    requires
        run_expr(p, s, inner, d, answers) == (Ok::<ValueM, RunErr>(v), s1),
    ensures
        ({
            let e = Spanned { data: Expr::UnOp { expr: Box::new(inner), op }, span };
            &&& (op.data is Neg && v is Integer && v->Integer_0 != i64::MIN) ==> run_expr(p, s, e, d, answers)
                == (Ok::<ValueM, RunErr>(ValueM::Integer((0 - v->Integer_0) as i64)), s1)
            &&& (op.data is Not && v is Boolean) ==> run_expr(p, s, e, d, answers) == (
                Ok::<ValueM, RunErr>(ValueM::Boolean(!v->Boolean_0)),
                s1,
            )
        }),
{
}
} // verus!
