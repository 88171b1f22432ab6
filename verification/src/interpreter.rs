use vstd::prelude::*;

use crate::ast::{self, BinOp, Element, Expr, FieldConstructor, FuncBody, Stmt, UnOp};
use crate::resolution::{key_index, lemma_key_index, Prototypes};
use crate::semantics::{
    agrees, lemma_log_push, run_func, block_done, builtin_done, call_done, else_ifs_done, expr_done, func_done, indexed_get, indexed_m,
    keys_v, log_grows, named_get, run_block, unit_m, RunErr, named_m, params_v, run_assigns, run_bindings, run_ctor, run_else_ifs,
    run_list, run_stmts, run_table, run_test, run_builtin, run_call, run_expr, run_stmt, err_m, offset_m, func_outcome, named_bind, builtins_v, initial_m, run_program, stmt_done, stmts_done, words_m, words_v, TableM, ValueM,
    alloc_m, binop_m, heap_m, lemma_assign_v, lemma_text_m, lemma_lookup_v, lookup_v, assign_v, pop_m, res_m, scope_vm, scopes_vm,
    state_m, store_m, table_m, tables_m, truthy_m, value_m, values_m, with_scopes, StateM,
};
use crate::source::{span_text, Source, Span, Spanned};
use crate::text::{debug_str, decimal, int_to_string, push_str, str_debug, usize_to_string};

verus! {

/// The functions that every program can call.
#[derive(Debug, Clone, Copy, PartialEq, Eq, Structural)]
pub enum Builtin {
    Print,
    Test,
    Exec,
    Exit,
}

/// Runtime values. Lists and struct fields live in the interpreter's heap
/// and are shared by every value that refers to them; tables live in the
/// interpreter's table store. The language has no floating-point value.
#[derive(Debug)]
pub enum Value<'a> {
    Nil,
    Boolean(bool),
    Integer(i64),
    String(String),
    List(usize),
    Struct { typ: String, fields: usize },
    Table(usize),
    Func(&'a FuncBody),
    FFI(Builtin),
}

/// A table: values under integer keys and under names.
#[derive(Debug)]
pub struct Table<'a> {
    pub indexed: Vec<(i64, Value<'a>)>,
    pub named: Vec<(String, Value<'a>)>,
}

#[derive(Debug)]
pub enum Error<'a> {
    Return { span: Span, value: Value<'a> },
    Break { span: Span },
    MalformedControlFlow { span: Span },
    Custom { message: String, span: Span },
    OutOfBound { len: usize, index: i64, span: Span },
    Unbound { ident: String, span: Span },
    Exit { span: Span },
    NotAFunction { span: Span, found: Value<'a> },
    FFI(&'static str),
    TypeMismatch { expected: &'static str, found: Value<'a>, span: Span },
    /// A program that the interpreter does not run: an operation it has no
    /// rule for, an integer overflow or division by zero, a struct type or
    /// field it has no layout for, a numeric `for`, or calls nested deeper
    /// than the call depth allows.
    Rejected { message: &'static str, span: Span },
}

/// How a value is shown in a report. Lists and struct fields live in the
/// interpreter's heap, which an error does not carry, so their contents show
/// as an ellipsis.
pub open spec fn value_debug(v: Value) -> Seq<char> {
    match v {
        Value::Nil => "nil"@,
        Value::Boolean(true) => "true"@,
        Value::Boolean(false) => "false"@,
        Value::Integer(x) => decimal(x as int),
        Value::String(s) => str_debug(s@),
        Value::List(_) => "[…]"@,
        Value::Struct { typ, .. } => typ@ + " {…}"@,
        Value::Table(_) => "{…}"@,
        Value::Func(_) => "fn{…}"@,
        Value::FFI(_) => "ffi{…}"@,
    }
}

fn value_debug_text(v: &Value) -> (r: String)
    ensures
        r@ == value_debug(*v),
{
    match v {
        Value::Nil => "nil".to_owned(),
        Value::Boolean(true) => "true".to_owned(),
        Value::Boolean(false) => "false".to_owned(),
        Value::Integer(x) => int_to_string(*x),
        Value::String(s) => debug_str(s.as_str()),
        Value::List(_) => "[…]".to_owned(),
        Value::Struct { typ, .. } => {
            let mut out = typ.clone();
            push_str(&mut out, " {…}");
            out
        },
        Value::Table(_) => "{…}".to_owned(),
        Value::Func(_) => "fn{…}".to_owned(),
        Value::FFI(_) => "ffi{…}".to_owned(),
    }
}

/// The report of a runtime error: what went wrong, where, and the value met
/// where one was.
pub open spec fn run_error_text(s: Seq<char>, name: Seq<char>, e: Error) -> Seq<char> {
    match e {
        Error::Return { span, .. } | Error::Break { span } | Error::MalformedControlFlow { span } => {
            "error: malformed control flow\n"@ + span_text(s, name, span)
        },
        Error::Exit { span } => "exit\n"@ + span_text(s, name, span),
        Error::Unbound { ident, span } => "error: unbound ident `"@ + ident@ + "`\n"@ + span_text(
            s,
            name,
            span,
        ),
        Error::OutOfBound { len, index, span } => "error: index "@ + decimal(index as int)
            + " out of bounds 0.."@ + decimal(len as int) + span_text(s, name, span),
        Error::NotAFunction { found, span } => "error: expected this expression to be a function\n"@
            + span_text(s, name, span) + "but found:\n"@ + value_debug(found),
        Error::Custom { message, span } => message@ + "\n"@ + span_text(s, name, span),
        Error::TypeMismatch { expected, found, span } => "error: type mismatch, expected: "@
            + expected@ + "\n"@ + span_text(s, name, span) + "but found:\n"@ + value_debug(found),
        Error::FFI(f) => "error: extern function `"@ + f@ + "` internal error"@,
        Error::Rejected { message, span } => "error: "@ + message@ + "\n"@ + span_text(s, name, span),
    }
}

impl<'a> Error<'a> {
    /// Reports the error.
    pub fn pretty_print(&self, source: &Source) -> (r: String)
        requires
            source@.len() < usize::MAX,
        ensures
            r@ == run_error_text(source@, source.name@, *self),
    {
        match self {
            Error::Return { span, .. } | Error::Break { span } | Error::MalformedControlFlow { span } => {
                let mut out = "error: malformed control flow\n".to_owned();
                push_str(&mut out, source.print_span(*span).as_str());
                out
            },
            Error::Exit { span } => {
                let mut out = "exit\n".to_owned();
                push_str(&mut out, source.print_span(*span).as_str());
                out
            },
            Error::Unbound { ident, span } => {
                let mut out = "error: unbound ident `".to_owned();
                push_str(&mut out, ident.as_str());
                push_str(&mut out, "`\n");
                push_str(&mut out, source.print_span(*span).as_str());
                out
            },
            Error::OutOfBound { len, index, span } => {
                let mut out = "error: index ".to_owned();
                push_str(&mut out, int_to_string(*index).as_str());
                push_str(&mut out, " out of bounds 0..");
                push_str(&mut out, usize_to_string(*len).as_str());
                push_str(&mut out, source.print_span(*span).as_str());
                out
            },
            Error::NotAFunction { found, span } => {
                let mut out = "error: expected this expression to be a function\n".to_owned();
                push_str(&mut out, source.print_span(*span).as_str());
                push_str(&mut out, "but found:\n");
                push_str(&mut out, value_debug_text(found).as_str());
                out
            },
            Error::Custom { message, span } => {
                let mut out = message.clone();
                push_str(&mut out, "\n");
                push_str(&mut out, source.print_span(*span).as_str());
                out
            },
            Error::TypeMismatch { expected, found, span } => {
                let mut out = "error: type mismatch, expected: ".to_owned();
                push_str(&mut out, expected);
                push_str(&mut out, "\n");
                push_str(&mut out, source.print_span(*span).as_str());
                push_str(&mut out, "but found:\n");
                push_str(&mut out, value_debug_text(found).as_str());
                out
            },
            Error::FFI(f) => {
                let mut out = "error: extern function `".to_owned();
                push_str(&mut out, f);
                push_str(&mut out, "` internal error");
                out
            },
            Error::Rejected { message, span } => {
                let mut out = "error: ".to_owned();
                push_str(&mut out, message);
                push_str(&mut out, "\n");
                push_str(&mut out, source.print_span(*span).as_str());
                out
            },
        }
    }
}

/// What runs the commands that a program hands to `exec`.
pub trait Host {
    /// Runs the command `args[0]` with the other arguments, and gives what it
    /// printed, or a description of why it could not run.
    fn exec(&mut self, args: Vec<String>) -> String;
}

/// How deep function calls may nest: as deep as a `usize` counts, so that
/// nesting is bounded only by the machine, while every run still provably
/// ends.
pub const MAX_CALL_DEPTH: usize = usize::MAX;

pub type Scope<'a> = Vec<(String, Value<'a>)>;

/// The interpreter's state: the struct layouts, the scopes (innermost last),
/// the heap of lists and struct fields, the tables, and, for proofs, what
/// the host was asked to run and answered, in order.
pub struct Context<'a> {
    pub protos: Prototypes,
    pub scopes: Vec<Scope<'a>>,
    pub heap: Vec<Vec<Value<'a>>>,
    pub tables: Vec<Table<'a>>,
    pub log: Ghost<Seq<(Seq<Seq<char>>, Seq<char>)>>,
}

/// A value refers only to heap cells and tables that exist.
pub open spec fn valid(v: Value, heap_len: nat, tables_len: nat) -> bool {
    match v {
        Value::List(i) => i < heap_len,
        Value::Struct { fields, .. } => fields < heap_len,
        Value::Table(t) => t < tables_len,
        _ => true,
    }
}

impl<'a> Context<'a> {
    pub open spec fn holds(&self, v: Value<'a>) -> bool {
        valid(v, self.heap@.len(), self.tables@.len())
    }

    /// There is a scope to bind names in, and every stored value refers only
    /// to heap cells and tables that exist.
    pub open spec fn wf(&self) -> bool {
        &&& self.scopes@.len() > 0
        &&& forall|s: int, k: int|
            0 <= s < self.scopes@.len() && 0 <= k < self.scopes@[s]@.len() ==> self.holds(
                #[trigger] self.scopes@[s]@[k].1,
            )
        &&& forall|c: int, k: int|
            0 <= c < self.heap@.len() && 0 <= k < self.heap@[c]@.len() ==> self.holds(
                #[trigger] self.heap@[c]@[k],
            )
        &&& forall|t: int, k: int|
            0 <= t < self.tables@.len() && 0 <= k < self.tables@[t].indexed@.len() ==> self.holds(
                #[trigger] self.tables@[t].indexed@[k].1,
            )
        &&& forall|t: int, k: int|
            0 <= t < self.tables@.len() && 0 <= k < self.tables@[t].named@.len() ==> self.holds(
                #[trigger] self.tables@[t].named@[k].1,
            )
    }

    /// The state after running code from `before`: the heap and the tables
    /// only grow and the layouts stay.
    pub open spec fn extends(&self, before: Context<'a>) -> bool {
        &&& self.wf()
        &&& before.heap@.len() <= self.heap@.len()
        &&& before.tables@.len() <= self.tables@.len()
        &&& self.protos == before.protos
        &&& log_grows(before.log@, self.log@)
    }
}

impl<'a> Value<'a> {
    /// A copy of the value; a list, struct or table copy refers to the same
    /// contents.
    pub fn duplicate(&self) -> (r: Value<'a>)
        ensures
            r == *self,
    {
        match self {
            Value::Nil => Value::Nil,
            Value::Boolean(b) => Value::Boolean(*b),
            Value::Integer(x) => Value::Integer(*x),
            Value::String(s) => Value::String(s.clone()),
            Value::List(i) => Value::List(*i),
            Value::Struct { typ, fields } => Value::Struct { typ: typ.clone(), fields: *fields },
            Value::Table(t) => Value::Table(*t),
            Value::Func(f) => Value::Func(*f),
            Value::FFI(f) => Value::FFI(*f),
        }
    }

    /// Checks a value against a declared type: every value passes as it is.
    pub fn coerce(self, typ: &Spanned<ast::Type>) -> (r: Result<Value<'a>, Error<'a>>)
        ensures
            r == Ok::<Value<'a>, Error<'a>>(self),
    {
        Ok(self)
    }

    /// Whether the value counts as true in a condition: not `nil`, `false`,
    /// zero, an empty string, an empty list or an empty table.
    pub fn truthy(&self, ctx: &Context<'a>) -> (r: bool)
        requires
            ctx.holds(*self),
        ensures
            r == truthy_spec(*self, *ctx),
            r == truthy_m(value_m(*self), state_m(*ctx)),
    {
        match self {
            Value::Nil => false,
            Value::Boolean(v) => *v,
            Value::Integer(v) => *v != 0,
            Value::String(v) => !v.as_str().is_empty(),
            Value::List(i) => ctx.heap[*i].len() != 0,
            Value::Table(t) => ctx.tables[*t].indexed.len() != 0 || ctx.tables[*t].named.len() != 0,
            Value::Struct { .. } => true,
            Value::Func(_) => true,
            Value::FFI(_) => true,
        }
    }
}

/// Whether a value counts as true in a condition.
pub open spec fn truthy_spec<'a>(v: Value<'a>, ctx: Context<'a>) -> bool {
    match v {
        Value::Nil => false,
        Value::Boolean(b) => b,
        Value::Integer(x) => x != 0,
        Value::String(s) => s@.len() != 0,
        Value::List(i) => ctx.heap@[i as int]@.len() != 0,
        Value::Table(t) => ctx.tables@[t as int].indexed@.len() != 0 || ctx.tables@[t as int].named@.len() != 0,
        _ => true,
    }
}

/// How a value reads when it is joined to a string.
pub open spec fn text_of(v: Value) -> Seq<char> {
    match v {
        Value::Nil => "nil"@,
        Value::Boolean(true) => "true"@,
        Value::Boolean(false) => "false"@,
        Value::Integer(x) => decimal(x as int),
        Value::String(s) => s@,
        Value::Struct { typ, .. } => typ@ + "{…}"@,
        Value::Table(_) => "{…}"@,
        Value::List(_) => "[…]"@,
        Value::Func(_) => "fn{…}"@,
        Value::FFI(_) => "ffi{…}"@,
    }
}

/// Appends the text of a value to `buffer`.
fn append_text(buffer: &mut String, v: &Value)
    ensures
        final(buffer)@ == old(buffer)@ + text_of(*v),
{
    match v {
        Value::Nil => push_str(buffer, "nil"),
        Value::Boolean(true) => push_str(buffer, "true"),
        Value::Boolean(false) => push_str(buffer, "false"),
        Value::Integer(x) => {
            let t = int_to_string(*x);
            push_str(buffer, t.as_str());
        },
        Value::String(x) => push_str(buffer, x.as_str()),
        Value::Struct { typ, .. } => {
            push_str(buffer, typ.as_str());
            push_str(buffer, "{…}");
            assert(buffer@ =~= old(buffer)@ + text_of(*v));
        },
        Value::Table(_) => push_str(buffer, "{…}"),
        Value::List(_) => push_str(buffer, "[…]"),
        Value::Func(_) => push_str(buffer, "fn{…}"),
        Value::FFI(_) => push_str(buffer, "ffi{…}"),
    }
}

/// The keys of a scope.
pub open spec fn value_keys<'a>(scope: Seq<(String, Value<'a>)>) -> Seq<Seq<char>> {
    scope.map_values(|e: (String, Value<'a>)| e.0@)
}

/// The value bound to `x` in the innermost scope that binds it.
pub open spec fn value_lookup<'a>(scopes: Seq<Scope<'a>>, x: Seq<char>) -> Option<Value<'a>>
    decreases scopes.len(),
{
    if scopes.len() == 0 {
        None
    } else {
        let k = key_index(value_keys(scopes.last()@), x);
        if k >= 0 {
            Some(scopes.last()@[k].1)
        } else {
            value_lookup(scopes.drop_last(), x)
        }
    }
}

/// Position of the first entry of a scope whose key is `x`.
fn find_binding<'a>(scope: &Scope<'a>, x: &String) -> (r: Option<usize>)
    ensures
        match r {
            Some(i) => key_index(value_keys(scope@), x@) == i && i < scope@.len(),
            None => key_index(value_keys(scope@), x@) < 0,
        },
{
    let ghost keys = value_keys(scope@);
    proof {
        lemma_key_index(keys, x@);
    }
    let mut i: usize = 0;
    while i < scope.len()
        invariant
            i <= scope@.len(),
            keys == value_keys(scope@),
            keys.len() == scope@.len(),
            forall|j: int| 0 <= j < i ==> keys[j] != x@,
            -1 <= key_index(keys, x@) < keys.len(),
            key_index(keys, x@) >= 0 ==> keys[key_index(keys, x@)] == x@,
            key_index(keys, x@) >= 0 ==> forall|j: int| 0 <= j < key_index(keys, x@) ==> keys[j] != x@,
            key_index(keys, x@) < 0 ==> forall|j: int| 0 <= j < keys.len() ==> keys[j] != x@,
        decreases scope@.len() - i,
    {
        if scope[i].0 == *x {
            assert(keys[i as int] == x@);
            return Some(i);
        }
        i += 1;
    }
    None
}

/// Where `x` is bound: the innermost scope that binds it and the entry.
pub open spec fn binding_place<'a>(scopes: Seq<Scope<'a>>, x: Seq<char>) -> Option<(int, int)>
    decreases scopes.len(),
{
    if scopes.len() == 0 {
        None
    } else {
        let k = key_index(value_keys(scopes.last()@), x);
        if k >= 0 {
            Some(((scopes.len() - 1) as int, k))
        } else {
            binding_place(scopes.drop_last(), x)
        }
    }
}

pub proof fn lemma_binding_place<'a>(scopes: Seq<Scope<'a>>, x: Seq<char>)
    ensures
        match binding_place(scopes, x) {
            Some((s, k)) => {
                &&& 0 <= s < scopes.len()
                &&& k == key_index(value_keys(scopes[s]@), x)
                &&& 0 <= k < scopes[s]@.len()
                &&& value_lookup(scopes, x) == Some(scopes[s]@[k].1)
                &&& forall|t: int| s < t < scopes.len() ==> key_index(value_keys(#[trigger] scopes[t]@), x) < 0
            },
            None => {
                &&& value_lookup(scopes, x) is None
                &&& forall|t: int| 0 <= t < scopes.len() ==> key_index(value_keys(#[trigger] scopes[t]@), x) < 0
            },
        },
    decreases scopes.len(),
{
    if scopes.len() > 0 {
        lemma_key_index(value_keys(scopes.last()@), x);
        lemma_binding_place(scopes.drop_last(), x);
        assert forall|t: int| 0 <= t < scopes.len() - 1 implies scopes[t] == scopes.drop_last()[t] by {}
    }
}

/// `after` is `before` with `x` bound to `v`: the innermost binding of `x`
/// takes the value, or, where no scope binds `x`, the innermost scope gets a
/// new binding.
pub open spec fn assigned<'a>(before: Seq<Scope<'a>>, x: String, v: Value<'a>, after: Seq<Scope<'a>>) -> bool {
    &&& after.len() == before.len()
    &&& match binding_place(before, x@) {
        Some((s, k)) => {
            &&& forall|t: int| 0 <= t < before.len() && t != s ==> #[trigger] after[t] == before[t]
            &&& after[s]@ == before[s]@.update(k, (before[s]@[k].0, v))
        },
        None => {
            &&& after.drop_last() == before.drop_last()
            &&& after.last()@ == before.last()@.push((x, v))
        },
    }
}

/// After a name is bound to a value, looking the name up gives that value.
pub proof fn law_lookup_after_set<'a>(before: Seq<Scope<'a>>, x: String, v: Value<'a>, after: Seq<Scope<'a>>)
    requires
        before.len() > 0,
        assigned(before, x, v, after),
    ensures
        value_lookup(after, x@) == Some(v),
{
    lemma_binding_place(before, x@);
    lemma_binding_place(after, x@);
    match binding_place(before, x@) {
        Some((s, k)) => {
            assert(value_keys(after[s]@) =~= value_keys(before[s]@));
            lemma_key_index(value_keys(before[s]@), x@);
            assert forall|t: int| s < t < after.len() implies key_index(value_keys(#[trigger] after[t]@), x@) < 0 by {
                assert(after[t] == before[t]);
            }
            match binding_place(after, x@) {
                Some((s2, k2)) => {
                    assert(s2 == s);
                },
                None => {
                    assert(key_index(value_keys(after[s]@), x@) < 0);
                },
            }
        },
        None => {
            let last = before.len() - 1;
            let keys = value_keys(before[last]@);
            assert(before.last() == before[last]);
            assert(value_keys(after.last()@) =~= keys.push(x@));
            assert(keys.push(x@).drop_last() =~= keys);
            assert(key_index(keys, x@) < 0);
        },
    }
}

impl<'a> Context<'a> {
    /// Opens a new innermost scope holding `scope`.
    fn push_scope(&mut self, scope: Scope<'a>)
        requires
            old(self).wf(),
            forall|k: int| 0 <= k < scope@.len() ==> old(self).holds(#[trigger] scope@[k].1),
        ensures
            final(self).wf(),
            final(self).scopes@ == old(self).scopes@.push(scope),
            final(self).heap == old(self).heap,
            final(self).tables == old(self).tables,
            final(self).protos == old(self).protos,
            state_m(*final(self)) == with_scopes(
                state_m(*old(self)),
                state_m(*old(self)).scopes.push(scope_vm(scope@)),
            ),
    {
        self.scopes.push(scope);
        assert(scopes_vm(self.scopes@) =~= scopes_vm(old(self).scopes@).push(scope_vm(scope@)));
        assert forall|s: int, k: int|
            0 <= s < self.scopes@.len() && 0 <= k < self.scopes@[s]@.len() implies self.holds(
                #[trigger] self.scopes@[s]@[k].1,
            ) by {
            if s < old(self).scopes@.len() {
                assert(self.scopes@[s] == old(self).scopes@[s]);
            }
        }
    }

    fn push(&mut self)
        requires
            old(self).wf(),
        ensures
            final(self).wf(),
            final(self).scopes@.len() == old(self).scopes@.len() + 1,
            final(self).scopes@.drop_last() == old(self).scopes@,
            final(self).scopes@.last()@.len() == 0,
            final(self).heap == old(self).heap,
            final(self).tables == old(self).tables,
            final(self).protos == old(self).protos,
            state_m(*final(self)) == with_scopes(state_m(*old(self)), state_m(*old(self)).scopes.push(Seq::empty())),
    {
        assert(scope_vm(Seq::<(String, Value<'a>)>::empty()) =~= Seq::empty());
        self.push_scope(Vec::new());
        assert(self.scopes@.drop_last() =~= old(self).scopes@);
    }

    fn pop(&mut self)
        requires
            old(self).wf(),
            old(self).scopes@.len() > 1,
        ensures
            final(self).wf(),
            final(self).scopes@ == old(self).scopes@.drop_last(),
            final(self).heap == old(self).heap,
            final(self).tables == old(self).tables,
            final(self).protos == old(self).protos,
            state_m(*final(self)) == pop_m(state_m(*old(self))),
    {
        self.scopes.pop();
        assert(scopes_vm(self.scopes@) =~= scopes_vm(old(self).scopes@).drop_last());
        assert forall|s: int, k: int|
            0 <= s < self.scopes@.len() && 0 <= k < self.scopes@[s]@.len() implies self.holds(
                #[trigger] self.scopes@[s]@[k].1,
            ) by {
            assert(self.scopes@[s] == old(self).scopes@[s]);
        }
    }

    /// The value bound to `ident` in the innermost scope that binds it.
    pub fn get(&mut self, ident: &String, span: Span) -> (r: Result<Value<'a>, Error<'a>>)
        requires
            old(self).wf(),
        ensures
            *final(self) == *old(self),
            match value_lookup(old(self).scopes@, ident@) {
                Some(v) => r == Ok::<Value<'a>, Error<'a>>(v),
                None => r matches Err(Error::Unbound { ident: i, span: sp }) && i@ == ident@ && sp
                    == span,
            },
            r matches Ok(v) ==> old(self).holds(v),
            match lookup_v(state_m(*old(self)).scopes, ident@) {
                Some(v) => r matches Ok(x) && value_m(x) == v,
                None => r matches Err(Error::Unbound { ident: i, span: sp }) && i@ == ident@ && sp
                    == span,
            },
    {
        proof {
            lemma_binding_place(self.scopes@, ident@);
            lemma_lookup_v(self.scopes@, ident@);
        }
        let mut i = self.scopes.len();
        assert(self.scopes@.take(i as int) =~= self.scopes@);
        while i > 0
            invariant
                i <= self.scopes@.len(),
                self.wf(),
                value_lookup(self.scopes@, ident@) == value_lookup(self.scopes@.take(i as int), ident@),
            decreases i,
        {
            let scope = &self.scopes[i - 1];
            assert(self.scopes@.take(i as int).last() == *scope);
            match find_binding(scope, ident) {
                Some(k) => {
                    proof {
                        lemma_lookup_v(self.scopes@, ident@);
                    }
                    return Ok(scope[k].1.duplicate());
                },
                None => {},
            }
            assert(self.scopes@.take(i as int).drop_last() =~= self.scopes@.take(i - 1));
            i -= 1;
        }
        proof {
            lemma_lookup_v(self.scopes@, ident@);
        }
        Err(Error::Unbound { ident: ident.clone(), span })
    }

    /// Binds `ident` to `val`: where a scope already binds the name, the
    /// innermost such binding takes the value; otherwise the innermost scope
    /// gets a new binding.
    pub fn set(&mut self, ident: &String, val: Value<'a>, span: Span) -> (r: Result<(), Error<'a>>)
        requires
            old(self).wf(),
            old(self).holds(val),
        ensures
            r is Ok,
            final(self).wf(),
            final(self).heap == old(self).heap,
            final(self).tables == old(self).tables,
            final(self).protos == old(self).protos,
            assigned(old(self).scopes@, *ident, val, final(self).scopes@),
            state_m(*final(self)) == with_scopes(
                state_m(*old(self)),
                assign_v(state_m(*old(self)).scopes, ident@, value_m(val)),
            ),
    {
        proof {
            lemma_binding_place(self.scopes@, ident@);
        }
        let ghost old_scopes = self.scopes@;
        let ghost v0 = val;
        let mut i = self.scopes.len();
        assert(old_scopes.take(i as int) =~= old_scopes);
        while i > 0
            invariant
                i <= self.scopes@.len(),
                self.scopes@ == old_scopes,
                old_scopes == old(self).scopes@,
                *self == *old(self),
                old(self).holds(val),
                v0 == val,
                self.wf(),
                binding_place(old_scopes, ident@) == binding_place(old_scopes.take(i as int), ident@),
            decreases i,
        {
            assert(old_scopes.take(i as int).last() == old_scopes[i - 1]);
            let found = find_binding(&self.scopes[i - 1], ident);
            match found {
                Some(k) => {
                    let mut scope = self.scopes.remove(i - 1);
                    let name = scope[k].0.clone();
                    scope.remove(k);
                    scope.insert(k, (name, val));
                    self.scopes.insert(i - 1, scope);
                    proof {
                        assert(self.scopes@ =~= old_scopes.update(i - 1, self.scopes@[i - 1]));
                        assert(self.scopes@[i - 1]@ =~= old_scopes[i - 1]@.update(k as int, (old_scopes[i - 1]@[k as int].0, val)));
                        assert forall|s: int, q: int|
                            0 <= s < self.scopes@.len() && 0 <= q < self.scopes@[s]@.len() implies self.holds(
                                #[trigger] self.scopes@[s]@[q].1,
                            ) by {
                            if s != i - 1 {
                                assert(self.scopes@[s] == old_scopes[s]);
                            } else if q != k {
                                assert(self.scopes@[s]@[q] == old_scopes[s]@[q]);
                            }
                        }
                        lemma_assign_v(old_scopes, *ident, v0, self.scopes@);
                    }
                    return Ok(());
                },
                None => {},
            }
            assert(old_scopes.take(i as int).drop_last() =~= old_scopes.take(i - 1));
            i -= 1;
        }
        let mut last = self.scopes.pop().unwrap();
        last.push((ident.clone(), val));
        self.scopes.push(last);
        proof {
            assert(self.scopes@.drop_last() =~= old_scopes.drop_last());
            assert forall|s: int, q: int|
                0 <= s < self.scopes@.len() && 0 <= q < self.scopes@[s]@.len() implies self.holds(
                    #[trigger] self.scopes@[s]@[q].1,
                ) by {
                if s < self.scopes@.len() - 1 {
                    assert(self.scopes@[s] == old_scopes[s]);
                } else if q < old_scopes.last()@.len() {
                    assert(self.scopes@[s]@[q] == old_scopes.last()@[q]);
                }
            }
        }
        proof {
            lemma_assign_v(old_scopes, *ident, v0, self.scopes@);
        }
        Ok(())
    }
}

/// Integer arithmetic, where the result fits in 64 bits and a division does
/// not divide by zero.
pub open spec fn int_arith(op: BinOp, a: i64, b: i64) -> Option<i64> {
    match op {
        BinOp::Add => a.checked_add(b),
        BinOp::Sub => a.checked_sub(b),
        BinOp::Mul => a.checked_mul(b),
        BinOp::Div => a.checked_div(b),
        _ => None,
    }
}

/// Integer comparison.
pub open spec fn int_compare(op: BinOp, a: i64, b: i64) -> bool {
    match op {
        BinOp::EQ => a == b,
        BinOp::NE => a != b,
        BinOp::LT => a < b,
        BinOp::GT => a > b,
        BinOp::LE => a <= b,
        _ => a >= b,
    }
}

pub open spec fn is_arith(op: BinOp) -> bool {
    op is Add || op is Sub || op is Mul || op is Div
}

pub open spec fn is_comparison(op: BinOp) -> bool {
    op is EQ || op is NE || op is LT || op is GT || op is LE || op is GE
}

/// What a binary operation on two values gives: a string joined with the
/// text of anything; integer arithmetic and comparison; `and` gives the right
/// operand when the left one is true and the left one otherwise, `or` the left
/// one when it is true and the right one otherwise; two lists joined into a
/// new list.
pub open spec fn binop_outcome<'a>(
    op: BinOp,
    lhs: Value<'a>,
    rhs: Value<'a>,
    before: Context<'a>,
    after: Context<'a>,
    r: Result<Value<'a>, Error<'a>>,
) -> bool {
    if op is Add && lhs is String {
        &&& r matches Ok(Value::String(s))
        &&& s@ == lhs->String_0@ + text_of(rhs)
        &&& after == before
    } else if is_arith(op) && lhs is Integer && rhs is Integer {
        &&& after == before
        &&& match int_arith(op, lhs->Integer_0, rhs->Integer_0) {
            Some(c) => r == Ok::<Value<'a>, Error<'a>>(Value::Integer(c)),
            None => r matches Err(Error::Rejected { .. }),
        }
    } else if is_comparison(op) && lhs is Integer && rhs is Integer {
        &&& after == before
        &&& r == Ok::<Value<'a>, Error<'a>>(
            Value::Boolean(int_compare(op, lhs->Integer_0, rhs->Integer_0)),
        )
    } else if op is And {
        &&& after == before
        &&& r == Ok::<Value<'a>, Error<'a>>(if truthy_spec(lhs, before) { rhs } else { lhs })
    } else if op is Or {
        &&& after == before
        &&& r == Ok::<Value<'a>, Error<'a>>(if truthy_spec(lhs, before) { lhs } else { rhs })
    } else if op is Add && lhs is List && rhs is List {
        &&& r == Ok::<Value<'a>, Error<'a>>(Value::List(before.heap@.len() as usize))
        &&& after.heap@.len() == before.heap@.len() + 1
        &&& after.heap@.drop_last() == before.heap@
        &&& after.heap@.last()@ == before.heap@[lhs->List_0 as int]@ + before.heap@[rhs->List_0 as int]@
        &&& after.scopes == before.scopes
        &&& after.tables == before.tables
        &&& after.protos == before.protos
    } else {
        &&& after == before
        &&& r matches Err(Error::Rejected { .. })
    }
}

impl<'a> Context<'a> {
    /// Adds a heap cell holding `cells`, giving its index.
    fn alloc_cell(&mut self, cells: Vec<Value<'a>>) -> (r: usize)
        requires
            old(self).wf(),
            forall|k: int| 0 <= k < cells@.len() ==> old(self).holds(#[trigger] cells@[k]),
        ensures
            final(self).extends(*old(self)),
            r == old(self).heap@.len(),
            final(self).heap@ == old(self).heap@.push(cells),
            final(self).scopes == old(self).scopes,
            final(self).tables == old(self).tables,
            state_m(*final(self)) == alloc_m(state_m(*old(self)), values_m(cells@)),
    {
        let r = self.heap.len();
        let ghost cells0 = cells@;
        self.heap.push(cells);
        assert(heap_m(self.heap@) =~= heap_m(old(self).heap@).push(values_m(cells0)));
        proof {
            assert forall|c: int, k: int|
                0 <= c < self.heap@.len() && 0 <= k < self.heap@[c]@.len() implies self.holds(
                    #[trigger] self.heap@[c]@[k],
                ) by {
                if c < r {
                    assert(self.heap@[c] == old(self).heap@[c]);
                }
            }
            assert forall|s: int, k: int|
                0 <= s < self.scopes@.len() && 0 <= k < self.scopes@[s]@.len() implies self.holds(
                    #[trigger] self.scopes@[s]@[k].1,
                ) by {
                assert(old(self).holds(self.scopes@[s]@[k].1));
            }
            assert forall|t: int, k: int|
                0 <= t < self.tables@.len() && 0 <= k < self.tables@[t].indexed@.len() implies self.holds(
                    #[trigger] self.tables@[t].indexed@[k].1,
                ) by {
                assert(old(self).holds(self.tables@[t].indexed@[k].1));
            }
            assert forall|t: int, k: int|
                0 <= t < self.tables@.len() && 0 <= k < self.tables@[t].named@.len() implies self.holds(
                    #[trigger] self.tables@[t].named@[k].1,
                ) by {
                assert(old(self).holds(self.tables@[t].named@[k].1));
            }
        }
        r
    }

    /// Adds a table, giving its index.
    #[verifier::spinoff_prover]
    fn alloc_table(&mut self, table: Table<'a>) -> (r: usize)
        requires
            old(self).wf(),
            forall|k: int| 0 <= k < table.indexed@.len() ==> old(self).holds(#[trigger] table.indexed@[k].1),
            forall|k: int| 0 <= k < table.named@.len() ==> old(self).holds(#[trigger] table.named@[k].1),
        ensures
            final(self).extends(*old(self)),
            r == old(self).tables@.len(),
            final(self).tables@ == old(self).tables@.push(table),
            final(self).scopes == old(self).scopes,
            final(self).heap == old(self).heap,
            state_m(*final(self)) == (StateM {
                tables: state_m(*old(self)).tables.push(table_m(table)),
                ..state_m(*old(self))
            }),
    {
        let r = self.tables.len();
        let ghost t0 = table;
        self.tables.push(table);
        assert(tables_m(self.tables@) =~= tables_m(old(self).tables@).push(table_m(t0)));
        proof {
            assert forall|c: int, k: int|
                0 <= c < self.heap@.len() && 0 <= k < self.heap@[c]@.len() implies self.holds(
                    #[trigger] self.heap@[c]@[k],
                ) by {
                assert(old(self).holds(self.heap@[c]@[k]));
            }
            assert forall|s: int, k: int|
                0 <= s < self.scopes@.len() && 0 <= k < self.scopes@[s]@.len() implies self.holds(
                    #[trigger] self.scopes@[s]@[k].1,
                ) by {
                assert(old(self).holds(self.scopes@[s]@[k].1));
            }
            assert forall|t: int, k: int|
                0 <= t < self.tables@.len() && 0 <= k < self.tables@[t].indexed@.len() implies self.holds(
                    #[trigger] self.tables@[t].indexed@[k].1,
                ) by {
                if t < r {
                    assert(self.tables@[t] == old(self).tables@[t]);
                }
            }
            assert forall|t: int, k: int|
                0 <= t < self.tables@.len() && 0 <= k < self.tables@[t].named@.len() implies self.holds(
                    #[trigger] self.tables@[t].named@[k].1,
                ) by {
                if t < r {
                    assert(self.tables@[t] == old(self).tables@[t]);
                    assert(old(self).holds(old(self).tables@[t].named@[k].1));
                } else {
                    assert(self.tables@[t] == table);
                    assert(old(self).holds(table.named@[k].1));
                }
            }
        }
        r
    }

    /// Stores `v` at position `k` of heap cell `cell`.
    fn store(&mut self, cell: usize, k: usize, v: Value<'a>)
        requires
            old(self).wf(),
            cell < old(self).heap@.len(),
            k < old(self).heap@[cell as int]@.len(),
            old(self).holds(v),
        ensures
            final(self).extends(*old(self)),
            final(self).heap@.len() == old(self).heap@.len(),
            forall|c: int| 0 <= c < old(self).heap@.len() && c != cell ==> #[trigger] final(self).heap@[c] == old(self).heap@[c],
            final(self).heap@[cell as int]@ == old(self).heap@[cell as int]@.update(k as int, v),
            final(self).scopes == old(self).scopes,
            final(self).tables == old(self).tables,
            state_m(*final(self)) == store_m(state_m(*old(self)), cell as nat, k as int, value_m(v)),
    {
        let ghost v0 = v;
        let mut contents = self.heap.remove(cell);
        contents.remove(k);
        contents.insert(k, v);
        self.heap.insert(cell, contents);
        proof {
            assert(self.heap@ =~= old(self).heap@.update(cell as int, self.heap@[cell as int]));
            assert(self.heap@[cell as int]@ =~= old(self).heap@[cell as int]@.update(k as int, v0));
            assert(values_m(self.heap@[cell as int]@) =~= values_m(old(self).heap@[cell as int]@).update(k as int, value_m(v0)));
            assert(heap_m(self.heap@) =~= heap_m(old(self).heap@).update(cell as int, values_m(old(self).heap@[cell as int]@).update(k as int, value_m(v0))));
            assert forall|c: int, q: int|
                0 <= c < self.heap@.len() && 0 <= q < self.heap@[c]@.len() implies self.holds(
                    #[trigger] self.heap@[c]@[q],
                ) by {
                if c != cell {
                    assert(self.heap@[c] == old(self).heap@[c]);
                } else if q != k {
                    assert(self.heap@[c]@[q] == old(self).heap@[c]@[q]);
                }
            }
        }
    }
}

/// Applies a binary operator to two values.
fn apply_binop<'a>(ctx: &mut Context<'a>, op: BinOp, lhs: Value<'a>, rhs: Value<'a>, span: Span) -> (r: Result<Value<'a>, Error<'a>>)
    requires
        old(ctx).wf(),
        old(ctx).holds(lhs),
        old(ctx).holds(rhs),
    ensures
        final(ctx).extends(*old(ctx)),
        final(ctx).scopes == old(ctx).scopes,
        r matches Ok(v) ==> final(ctx).holds(v),
        binop_outcome(op, lhs, rhs, *old(ctx), *final(ctx), r),
        (res_m(r), state_m(*final(ctx))) == binop_m(op, value_m(lhs), value_m(rhs), state_m(*old(ctx)), span),
{
    let rejected = Error::Rejected { message: "no rule for this operation", span };
    match op {
        BinOp::Add => {
            if let Value::String(l) = &lhs {
                let mut buffer = l.clone();
                append_text(&mut buffer, &rhs);
                return Ok(Value::String(buffer));
            }
        },
        _ => {},
    }
    match (&lhs, &rhs) {
        (Value::Integer(l), Value::Integer(r)) => {
            let (l, r) = (*l, *r);
            match op {
                BinOp::Add | BinOp::Sub | BinOp::Mul | BinOp::Div => {
                    let res = match op {
                        BinOp::Add => l.checked_add(r),
                        BinOp::Sub => l.checked_sub(r),
                        BinOp::Mul => l.checked_mul(r),
                        _ => l.checked_div(r),
                    };
                    return match res {
                        Some(c) => Ok(Value::Integer(c)),
                        None => Err(Error::Rejected { message: "integer overflow or division by zero", span }),
                    };
                },
                BinOp::EQ => {
                    return Ok(Value::Boolean(l == r));
                },
                BinOp::NE => {
                    return Ok(Value::Boolean(l != r));
                },
                BinOp::LT => {
                    return Ok(Value::Boolean(l < r));
                },
                BinOp::GT => {
                    return Ok(Value::Boolean(l > r));
                },
                BinOp::LE => {
                    return Ok(Value::Boolean(l <= r));
                },
                BinOp::GE => {
                    return Ok(Value::Boolean(l >= r));
                },
                _ => {},
            }
        },
        _ => {},
    }
    match op {
        BinOp::And => {
            return Ok(if lhs.truthy(ctx) { rhs } else { lhs });
        },
        BinOp::Or => {
            return Ok(if lhs.truthy(ctx) { lhs } else { rhs });
        },
        _ => {},
    }
    match (op, &lhs, &rhs) {
        (BinOp::Add, Value::List(l), Value::List(r)) => {
            let left = &ctx.heap[*l];
            let right = &ctx.heap[*r];
            let mut res: Vec<Value<'a>> = Vec::new();
            let mut i: usize = 0;
            while i < left.len()
                invariant
                    ctx.wf(),
                    *l < ctx.heap@.len(),
                    *left == ctx.heap@[*l as int],
                    i <= left@.len(),
                    res@ == left@.take(i as int),
                decreases left@.len() - i,
            {
                res.push(left[i].duplicate());
                i += 1;
                assert(res@ =~= left@.take(i as int));
            }
            let mut j: usize = 0;
            while j < right.len()
                invariant
                    ctx.wf(),
                    *r < ctx.heap@.len(),
                    *right == ctx.heap@[*r as int],
                    j <= right@.len(),
                    res@ == left@ + right@.take(j as int),
                decreases right@.len() - j,
            {
                res.push(right[j].duplicate());
                j += 1;
                assert(res@ =~= left@ + right@.take(j as int));
            }
            assert(left@.take(left@.len() as int) =~= left@);
            assert(right@.take(right@.len() as int) =~= right@);
            proof {
                assert forall|k: int| 0 <= k < res@.len() implies ctx.holds(#[trigger] res@[k]) by {
                    if k < left@.len() {
                        assert(res@[k] == ctx.heap@[*l as int]@[k]);
                    } else {
                        assert(res@[k] == ctx.heap@[*r as int]@[k - left@.len()]);
                    }
                }
            }
            let ghost before = *ctx;
            assert(values_m(res@) =~= state_m(before).heap[*l as int] + state_m(before).heap[*r as int]);
            let cell = ctx.alloc_cell(res);
            proof {
                assert(ctx.heap@.drop_last() =~= before.heap@);
            }
            Ok(Value::List(cell))
        },
        _ => Err(rejected),
    }
}

/// After running code, the state extends the one before, has as many scopes,
/// and any value handed back is one the state holds.
pub open spec fn ran<'a>(before: Context<'a>, after: Context<'a>, r: Result<Value<'a>, Error<'a>>) -> bool {
    &&& after.extends(before)
    &&& after.scopes@.len() >= before.scopes@.len()
    &&& (r matches Ok(v) ==> after.holds(v))
    &&& (r matches Err(Error::Return { value, .. }) ==> after.holds(value))
}

/// The same for code that gives no value.
pub open spec fn ran_unit<'a>(before: Context<'a>, after: Context<'a>, r: Result<(), Error<'a>>) -> bool {
    &&& after.extends(before)
    &&& after.scopes@.len() >= before.scopes@.len()
    &&& (r matches Err(Error::Return { value, .. }) ==> after.holds(value))
}

proof fn lemma_extends_trans<'a>(a: Context<'a>, b: Context<'a>, c: Context<'a>)
    requires
        b.extends(a),
        c.extends(b),
    ensures
        c.extends(a),
{
}

/// Evaluates an expression.
#[verifier::spinoff_prover]
fn eval_expr<'a, H: Host>(ctx: &mut Context<'a>, host: &mut H, expr: &'a Spanned<Expr>, depth: usize) -> (r: Result<Value<'a>, Error<'a>>)
    requires
        old(ctx).wf(),
    ensures
        ran(*old(ctx), *final(ctx), r),
        expr_done(*old(ctx), *final(ctx), *expr, depth as nat, r),
    decreases depth, expr, 1int,
{
    match &expr.data {
        Expr::Nil => Ok(Value::Nil),
        Expr::True => Ok(Value::Boolean(true)),
        Expr::False => Ok(Value::Boolean(false)),
        Expr::Integer(val) => Ok(Value::Integer(*val)),
        Expr::String(val) => Ok(Value::String(val.clone())),
        Expr::Identifier(ident) => ctx.get(ident, expr.span),
        Expr::List { .. } => eval_list(ctx, host, expr, depth),
        Expr::Table { .. } => eval_table(ctx, host, expr, depth),
        Expr::UnOp { .. } => eval_unop(ctx, host, expr, depth),
        Expr::Member { .. } => eval_member(ctx, host, expr, depth),
        Expr::Index { .. } => eval_index(ctx, host, expr, depth),
        Expr::BinOp { .. } => eval_binop(ctx, host, expr, depth),
        Expr::TypeConstructor { .. } => eval_ctor(ctx, host, expr, depth),
        Expr::Call { .. } => eval_call(ctx, host, expr, depth),
        Expr::Func { .. } => Err(Error::Rejected { message: "function expressions are not run yet", span: expr.span }),
    }
}

/// Evaluates the elements of a list into a new heap cell.
#[verifier::spinoff_prover]
#[verifier::loop_isolation(false)]
fn eval_list<'a, H: Host>(
    ctx: &mut Context<'a>,
    host: &mut H,
    expr: &'a Spanned<Expr>,
    depth: usize,
) -> (r: Result<Value<'a>, Error<'a>>)
    requires
        old(ctx).wf(),
        expr.data is List,
    ensures
        ran(*old(ctx), *final(ctx), r),
        expr_done(*old(ctx), *final(ctx), *expr, depth as nat, r),
    decreases depth, expr, 0int,
{
    match &expr.data {
        Expr::List { elements } => {
            let ghost ctx0 = *ctx;
            let ghost p = ctx0.protos;
            let ghost d = depth as nat;
            let mut res: Vec<Value<'a>> = Vec::new();
            let mut i: usize = 0;
            assert(values_m(res@) =~= Seq::empty());
            while i < elements.data.len()
                invariant
                    i <= elements.data@.len(),
                    ctx.extends(ctx0),
                    ctx.scopes@.len() >= ctx0.scopes@.len(),
                    forall|k: int| 0 <= k < res@.len() ==> ctx.holds(#[trigger] res@[k]),
                    forall|answers: Seq<Seq<char>>|
                        agrees(ctx.log@, answers) ==> #[trigger] run_list(p, state_m(ctx0), elements.data@, 0, Seq::empty(), d, answers)
                            == run_list(p, state_m(*ctx), elements.data@, i as int, values_m(res@), d, answers),
                decreases elements.data@.len() - i,
            {
                proof {
                    vstd::std_specs::vec::axiom_vec_index_decreases(elements.data, i as int);
                }
                let ghost mid = *ctx;
                let ghost acc = res@;
                let r1 = eval_expr(ctx, host, &elements.data[i], depth);
                proof {
                    lemma_extends_trans(ctx0, mid, *ctx);
                    assert forall|answers: Seq<Seq<char>>| agrees(ctx.log@, answers) implies #[trigger] run_list(p, state_m(ctx0), elements.data@, 0, Seq::empty(), d, answers) == (match res_m(r1) {
                        Err(er) => (Err::<Seq<ValueM>, RunErr>(er), state_m(*ctx)),
                        Ok(v) => run_list(p, state_m(*ctx), elements.data@, i + 1, values_m(acc).push(v), d, answers),
                    }) by {
                        assert(run_list(p, state_m(ctx0), elements.data@, 0, Seq::empty(), d, answers) == run_list(p, state_m(mid), elements.data@, i as int, values_m(acc), d, answers));
                        assert(run_expr(p, state_m(mid), elements.data@[i as int], d, answers) == (res_m(r1), state_m(*ctx)));
                    }
                }
                let e = match r1 {
                    Ok(v) => v,
                    Err(e) => {
                        proof {
                            assert forall|answers: Seq<Seq<char>>| agrees(ctx.log@, answers) implies #[trigger] run_expr(p, state_m(ctx0), *expr, d, answers) == (res_m(r1), state_m(*ctx)) by {
                                assert(run_list(p, state_m(ctx0), elements.data@, 0, Seq::empty(), d, answers) == (Err::<Seq<ValueM>, RunErr>(err_m(e)), state_m(*ctx)));
                            }
                        }
                        return Err(e);
                    },
                };
                proof {
                    assert forall|k: int| 0 <= k < res@.len() implies ctx.holds(#[trigger] res@[k]) by {
                        assert(mid.holds(res@[k]));
                    }
                }
                res.push(e);
                assert(values_m(res@) =~= values_m(acc).push(value_m(e)));
                i += 1;
            }
            let ghost mid = *ctx;
            let ghost vals = values_m(res@);
            proof {
                assert forall|answers: Seq<Seq<char>>| agrees(ctx.log@, answers) implies #[trigger] run_list(p, state_m(ctx0), elements.data@, 0, Seq::empty(), d, answers) == (Ok::<Seq<ValueM>, RunErr>(vals), state_m(mid)) by {
                    assert(run_list(p, state_m(*ctx), elements.data@, i as int, vals, d, answers) == (Ok::<Seq<ValueM>, RunErr>(vals), state_m(mid)));
                }
            }
            let cell = ctx.alloc_cell(res);
            proof {
                lemma_extends_trans(ctx0, mid, *ctx);
                assert forall|answers: Seq<Seq<char>>| agrees(ctx.log@, answers) implies #[trigger] run_expr(p, state_m(ctx0), *expr, d, answers) == (Ok::<ValueM, RunErr>(ValueM::List(cell as nat)), state_m(*ctx)) by {
                    assert(run_list(p, state_m(ctx0), elements.data@, 0, Seq::empty(), d, answers) == (Ok::<Seq<ValueM>, RunErr>(vals), state_m(mid)));
                    assert(state_m(mid).heap.len() == cell);
                }
            }
            Ok(Value::List(cell))
        },
        _ => Ok(Value::Nil),
    }
}

/// Evaluates the entries of a table into a new table.
#[verifier::spinoff_prover]
#[verifier::rlimit(40)]
#[verifier::loop_isolation(false)]
fn eval_table<'a, H: Host>(
    ctx: &mut Context<'a>,
    host: &mut H,
    expr: &'a Spanned<Expr>,
    depth: usize,
) -> (r: Result<Value<'a>, Error<'a>>)
    requires
        old(ctx).wf(),
        expr.data is Table,
    ensures
        ran(*old(ctx), *final(ctx), r),
        expr_done(*old(ctx), *final(ctx), *expr, depth as nat, r),
    decreases depth, expr, 0int,
{
    match &expr.data {
        Expr::Table { elements } => {
            let ghost ctx0 = *ctx;
            let ghost p = ctx0.protos;
            let ghost d = depth as nat;
            let mut named: Vec<(String, Value<'a>)> = Vec::new();
            let mut indexed: Vec<(i64, Value<'a>)> = Vec::new();
            let mut index: i64 = 0;
            let mut i: usize = 0;
            assert(indexed_m(indexed@) =~= Seq::empty());
            assert(named_m(named@) =~= Seq::empty());
            while i < elements.len()
                invariant
                    i <= elements@.len(),
                    ctx.extends(ctx0),
                    ctx.scopes@.len() >= ctx0.scopes@.len(),
                    forall|k: int| 0 <= k < named@.len() ==> ctx.holds(#[trigger] named@[k].1),
                    forall|k: int| 0 <= k < indexed@.len() ==> ctx.holds(#[trigger] indexed@[k].1),
                    0 <= index,
                    forall|answers: Seq<Seq<char>>|
                        agrees(ctx.log@, answers) ==> #[trigger] run_table(
                            p,
                            state_m(ctx0),
                            elements@,
                            0,
                            TableM { indexed: Seq::empty(), named: Seq::empty() },
                            0,
                            d,
                            answers,
                        ) == run_table(
                            p,
                            state_m(*ctx),
                            elements@,
                            i as int,
                            TableM { indexed: indexed_m(indexed@), named: named_m(named@) },
                            index as int,
                            d,
                            answers,
                        ),
                decreases elements@.len() - i,
            {
                proof {
                    vstd::std_specs::vec::axiom_vec_index_decreases(*elements, i as int);
                }
                let e = &elements[i];
                let ghost mid = *ctx;
                let ghost named0 = named@;
                let ghost indexed0 = indexed@;
                let x = match &e.data {
                    Element::Indexed(x) => x,
                    Element::Named { expr: x, .. } => x,
                };
                let rv = eval_expr(ctx, host, x, depth);
                proof {
                    lemma_extends_trans(ctx0, mid, *ctx);
                    assert forall|answers: Seq<Seq<char>>| agrees(ctx.log@, answers) implies #[trigger] run_table(p, state_m(ctx0), elements@, 0, TableM { indexed: Seq::empty(), named: Seq::empty() }, 0, d, answers) == (match res_m(rv) {
                        Err(er) => (Err::<TableM, RunErr>(er), state_m(*ctx)),
                        Ok(v) => match e.data {
                            Element::Indexed(_) => if index >= i64::MAX {
                                (
                                    Err::<TableM, RunErr>(RunErr::Rejected { message: "too many table entries", span: e.span }),
                                    state_m(*ctx),
                                )
                            } else {
                                run_table(
                                    p,
                                    state_m(*ctx),
                                    elements@,
                                    i + 1,
                                    TableM { indexed: indexed_m(indexed0).push((index, v)), named: named_m(named0) },
                                    index + 1,
                                    d,
                                    answers,
                                )
                            },
                            Element::Named { name, .. } => run_table(
                                p,
                                state_m(*ctx),
                                elements@,
                                i + 1,
                                TableM { indexed: indexed_m(indexed0), named: named_bind(named_m(named0), name.data@, v) },
                                index as int,
                                d,
                                answers,
                            ),
                        },
                    }) by {
                        assert(run_table(p, state_m(ctx0), elements@, 0, TableM { indexed: Seq::empty(), named: Seq::empty() }, 0, d, answers) == run_table(p, state_m(mid), elements@, i as int, TableM { indexed: indexed_m(indexed0), named: named_m(named0) }, index as int, d, answers));
                        assert(run_expr(p, state_m(mid), *x, d, answers) == (res_m(rv), state_m(*ctx)));
                    }
                }
                let v = match rv {
                    Ok(v) => v,
                    Err(er) => {
                        proof {
                            assert forall|answers: Seq<Seq<char>>| agrees(ctx.log@, answers) implies #[trigger] run_expr(p, state_m(ctx0), *expr, d, answers) == (res_m(rv), state_m(*ctx)) by {
                                assert(run_table(p, state_m(ctx0), elements@, 0, TableM { indexed: Seq::empty(), named: Seq::empty() }, 0, d, answers) == (Err::<TableM, RunErr>(err_m(er)), state_m(*ctx)));
                            }
                        }
                        return Err(er);
                    },
                };
                proof {
                    assert forall|k: int| 0 <= k < named@.len() implies ctx.holds(#[trigger] named@[k].1) by {
                        assert(mid.holds(named@[k].1));
                    }
                    assert forall|k: int| 0 <= k < indexed@.len() implies ctx.holds(#[trigger] indexed@[k].1) by {
                        assert(mid.holds(indexed@[k].1));
                    }
                }
                match &e.data {
                    Element::Indexed(_) => {
                        if index == i64::MAX {
                            proof {
                                assert forall|answers: Seq<Seq<char>>| agrees(ctx.log@, answers) implies #[trigger] run_expr(p, state_m(ctx0), *expr, d, answers) == (Err::<ValueM, RunErr>(RunErr::Rejected { message: "too many table entries", span: e.span }), state_m(*ctx)) by {
                                    assert(run_table(p, state_m(ctx0), elements@, 0, TableM { indexed: Seq::empty(), named: Seq::empty() }, 0, d, answers) == (Err::<TableM, RunErr>(RunErr::Rejected { message: "too many table entries", span: e.span }), state_m(*ctx)));
                                }
                            }
                            return Err(Error::Rejected { message: "too many table entries", span: e.span });
                        }
                        indexed.push((index, v));
                        assert(indexed_m(indexed@) =~= indexed_m(indexed0).push((index, value_m(v))));
                        index += 1;
                    },
                    Element::Named { name, .. } => {
                        let found = find_binding(&named, &name.data);
                        proof {
                            assert(value_keys(named@) =~= keys_v(named_m(named@)));
                        }
                        match found {
                            Some(f) => {
                                named.remove(f);
                                named.insert(f, (name.data.clone(), v));
                                assert(named@ =~= named0.update(f as int, (name.data, v)));
                                assert(named_m(named@) =~= named_m(named0).update(f as int, (name.data@, value_m(v))));
                                assert forall|k: int| 0 <= k < named@.len() implies ctx.holds(#[trigger] named@[k].1) by {}
                            },
                            None => {
                                named.push((name.data.clone(), v));
                                assert(named_m(named@) =~= named_m(named0).push((name.data@, value_m(v))));
                            },
                        }
                    },
                }
                i += 1;
            }
            let ghost mid = *ctx;
            let ghost t = Table { named, indexed };
            let ghost tm = TableM { indexed: indexed_m(indexed@), named: named_m(named@) };
            assert(table_m(t) == tm);
            proof {
                assert forall|answers: Seq<Seq<char>>| agrees(ctx.log@, answers) implies #[trigger] run_table(p, state_m(ctx0), elements@, 0, TableM { indexed: Seq::empty(), named: Seq::empty() }, 0, d, answers) == (Ok::<TableM, RunErr>(tm), state_m(mid)) by {
                    assert(run_table(p, state_m(*ctx), elements@, i as int, tm, index as int, d, answers) == (Ok::<TableM, RunErr>(tm), state_m(mid)));
                }
            }
            let t = ctx.alloc_table(Table { named, indexed });
            proof {
                lemma_extends_trans(ctx0, mid, *ctx);
                assert forall|answers: Seq<Seq<char>>| agrees(ctx.log@, answers) implies #[trigger] run_expr(p, state_m(ctx0), *expr, d, answers) == (Ok::<ValueM, RunErr>(ValueM::Table(t as nat)), state_m(*ctx)) by {
                    assert(run_table(p, state_m(ctx0), elements@, 0, TableM { indexed: Seq::empty(), named: Seq::empty() }, 0, d, answers) == (Ok::<TableM, RunErr>(tm), state_m(mid)));
                    assert(state_m(mid).tables.len() == t);
                }
            }
            Ok(Value::Table(t))
        },
        _ => Ok(Value::Nil),
    }
}

/// Applies a prefix operator.
#[verifier::spinoff_prover]
fn eval_unop<'a, H: Host>(
    ctx: &mut Context<'a>,
    host: &mut H,
    expr: &'a Spanned<Expr>,
    depth: usize,
) -> (r: Result<Value<'a>, Error<'a>>)
    requires
        old(ctx).wf(),
        expr.data is UnOp,
    ensures
        ran(*old(ctx), *final(ctx), r),
        expr_done(*old(ctx), *final(ctx), *expr, depth as nat, r),
    decreases depth, expr, 0int,
{
    match &expr.data {
        Expr::UnOp { expr: inner, op } => {
            let ghost ctx0 = *ctx;
            let ghost p = ctx0.protos;
            let ghost d = depth as nat;
            let r1 = eval_expr(ctx, host, inner, depth);
            let r = match r1 {
                Err(e) => Err(e),
                Ok(val) => match (op.data, val) {
                    (UnOp::Neg, Value::Integer(x)) => if x == i64::MIN {
                        Err(Error::Rejected { message: "integer overflow", span: inner.span })
                    } else {
                        Ok(Value::Integer(-x))
                    },
                    (UnOp::Not, Value::Boolean(b)) => Ok(Value::Boolean(!b)),
                    _ => Err(Error::Rejected { message: "no rule for this operation", span: inner.span }),
                },
            };
            proof {
                assert forall|answers: Seq<Seq<char>>| agrees(ctx.log@, answers) implies #[trigger] run_expr(p, state_m(ctx0), *expr, d, answers) == (res_m(r), state_m(*ctx)) by {
                    assert(run_expr(p, state_m(ctx0), **inner, d, answers) == (res_m(r1), state_m(*ctx)));
                }
            }
            r
        },
        _ => Ok(Value::Nil),
    }
}

/// The value that table `t` binds to the name `member`, or `nil`.
fn named_value<'a>(ctx: &Context<'a>, t: usize, member: &String) -> (r: Value<'a>)
    requires
        ctx.wf(),
        t < ctx.tables@.len(),
    ensures
        ctx.holds(r),
        value_m(r) == named_get(named_m(ctx.tables@[t as int].named@), member@, 0),
{
    let table = &ctx.tables[t];
    let ghost nm = named_m(table.named@);
    let mut j: usize = 0;
    while j < table.named.len()
        invariant
            j <= table.named@.len(),
            t < ctx.tables@.len(),
            ctx.wf(),
            *table == ctx.tables@[t as int],
            nm == named_m(table.named@),
            named_get(nm, member@, j as int) == named_get(nm, member@, 0),
        decreases table.named@.len() - j,
    {
        if table.named[j].0 == *member {
            return table.named[j].1.duplicate();
        }
        j += 1;
    }
    Value::Nil
}

/// The value that table `t` holds at the key `k`, or `nil`.
fn indexed_value<'a>(ctx: &Context<'a>, t: usize, k: i64) -> (r: Value<'a>)
    requires
        ctx.wf(),
        t < ctx.tables@.len(),
    ensures
        ctx.holds(r),
        value_m(r) == indexed_get(indexed_m(ctx.tables@[t as int].indexed@), k, 0),
{
    let table = &ctx.tables[t];
    let ghost im = indexed_m(table.indexed@);
    let mut j: usize = 0;
    while j < table.indexed.len()
        invariant
            j <= table.indexed@.len(),
            t < ctx.tables@.len(),
            ctx.wf(),
            *table == ctx.tables@[t as int],
            im == indexed_m(table.indexed@),
            indexed_get(im, k, j as int) == indexed_get(im, k, 0),
        decreases table.indexed@.len() - j,
    {
        if table.indexed[j].0 == k {
            return table.indexed[j].1.duplicate();
        }
        j += 1;
    }
    Value::Nil
}

/// Reads a member of a table or a struct.
#[verifier::spinoff_prover]
#[verifier::loop_isolation(false)]
fn eval_member<'a, H: Host>(
    ctx: &mut Context<'a>,
    host: &mut H,
    expr: &'a Spanned<Expr>,
    depth: usize,
) -> (r: Result<Value<'a>, Error<'a>>)
    requires
        old(ctx).wf(),
        expr.data is Member,
    ensures
        ran(*old(ctx), *final(ctx), r),
        expr_done(*old(ctx), *final(ctx), *expr, depth as nat, r),
    decreases depth, expr, 0int,
{
    match &expr.data {
        Expr::Member { expr: inner, member } => {
            let ghost ctx0 = *ctx;
            let ghost p = ctx0.protos;
            let ghost d = depth as nat;
            let span = inner.span;
            let r1 = eval_expr(ctx, host, inner, depth);
            let r = match r1 {
                Err(e) => Err(e),
                Ok(val) => match val {
                    Value::Table(t) => Ok(named_value(ctx, t, &member.data)),
                    Value::Struct { typ, fields } => match ctx.protos.offset(&typ, &member.data) {
                        None => Err(Error::Rejected { message: "no layout for this field", span }),
                        Some(offset) => if offset >= ctx.heap[fields].len() {
                            Err(Error::Rejected { message: "no layout for this field", span })
                        } else {
                            Ok(ctx.heap[fields][offset].duplicate())
                        },
                    },
                    _ => Err(Error::TypeMismatch { expected: "Struct", found: val, span }),
                },
            };
            proof {
                assert forall|answers: Seq<Seq<char>>| agrees(ctx.log@, answers) implies #[trigger] run_expr(p, state_m(ctx0), *expr, d, answers) == (res_m(r), state_m(*ctx)) by {
                    assert(run_expr(p, state_m(ctx0), **inner, d, answers) == (res_m(r1), state_m(*ctx)));
                }
            }
            r
        },
        _ => Ok(Value::Nil),
    }
}

/// Reads an element of a list or a table.
#[verifier::spinoff_prover]
#[verifier::loop_isolation(false)]
fn eval_index<'a, H: Host>(
    ctx: &mut Context<'a>,
    host: &mut H,
    expr: &'a Spanned<Expr>,
    depth: usize,
) -> (r: Result<Value<'a>, Error<'a>>)
    requires
        old(ctx).wf(),
        expr.data is Index,
    ensures
        ran(*old(ctx), *final(ctx), r),
        expr_done(*old(ctx), *final(ctx), *expr, depth as nat, r),
    decreases depth, expr, 0int,
{
    match &expr.data {
        Expr::Index { expr: inner, index } => {
            let ghost ctx0 = *ctx;
            let ghost p = ctx0.protos;
            let ghost d = depth as nat;
            let span = inner.span;
            let r1 = eval_expr(ctx, host, inner, depth);
            let val = match r1 {
                Ok(v) => v,
                Err(e) => {
                    proof {
                    assert forall|answers: Seq<Seq<char>>| agrees(ctx.log@, answers) implies #[trigger] run_expr(p, state_m(ctx0), *expr, d, answers) == (res_m(r1), state_m(*ctx)) by {
                        assert(run_expr(p, state_m(ctx0), **inner, d, answers) == (res_m(r1), state_m(*ctx)));
                    }
                    }
                    return Err(e);
                },
            };
            let ghost mid = *ctx;
            let r2 = eval_expr(ctx, host, index, depth);
            proof {
                lemma_extends_trans(ctx0, mid, *ctx);
                assert(ctx.holds(val));
            }
            let r = match r2 {
                Err(e) => Err(e),
                Ok(idx) => match (&val, idx) {
                    (Value::Table(t), Value::Integer(i)) => Ok(indexed_value(ctx, *t, i)),
                    (Value::List(l), Value::Integer(i)) => {
                        let len = ctx.heap[*l].len();
                        if i < 0 || (i as u64) >= (len as u64) {
                            Err(Error::OutOfBound { index: i, len, span: index.span })
                        } else {
                            Ok(ctx.heap[*l][i as usize].duplicate())
                        }
                    },
                    _ => Err(Error::TypeMismatch { expected: "List", found: val, span }),
                },
            };
            proof {
                assert forall|answers: Seq<Seq<char>>| agrees(ctx.log@, answers) implies #[trigger] run_expr(p, state_m(ctx0), *expr, d, answers) == (res_m(r), state_m(*ctx)) by {
                    assert(run_expr(p, state_m(ctx0), **inner, d, answers) == (Ok::<ValueM, RunErr>(value_m(val)), state_m(mid)));
                    assert(run_expr(p, state_m(mid), **index, d, answers) == (res_m(r2), state_m(*ctx)));
                    if let Ok(idx) = r2 {
                        match (val, idx) {
                            (Value::List(l), Value::Integer(k)) => {
                                assert(state_m(*ctx).heap[l as int] == values_m(ctx.heap@[l as int]@));
                                if 0 <= k < ctx.heap@[l as int]@.len() {
                                    assert(state_m(*ctx).heap[l as int][k as int] == value_m(ctx.heap@[l as int]@[k as int]));
                                }
                                assert(res_m(r) == (run_expr(p, state_m(ctx0), *expr, d, answers)).0);
                            },
                            (Value::Table(t), Value::Integer(k)) => {
                                assert(state_m(*ctx).tables[t as int] == table_m(ctx.tables@[t as int]));
                                assert(res_m(r) == (run_expr(p, state_m(ctx0), *expr, d, answers)).0);
                            },
                            _ => {
                                assert(res_m(r) == (run_expr(p, state_m(ctx0), *expr, d, answers)).0);
                            },
                        }
                    } else {
                        assert(res_m(r) == (run_expr(p, state_m(ctx0), *expr, d, answers)).0);
                    }
                }
            }
            r
        },
        _ => Ok(Value::Nil),
    }
}

/// Applies a binary operator; its right operand is evaluated first.
#[verifier::spinoff_prover]
fn eval_binop<'a, H: Host>(
    ctx: &mut Context<'a>,
    host: &mut H,
    expr: &'a Spanned<Expr>,
    depth: usize,
) -> (r: Result<Value<'a>, Error<'a>>)
    requires
        old(ctx).wf(),
        expr.data is BinOp,
    ensures
        ran(*old(ctx), *final(ctx), r),
        expr_done(*old(ctx), *final(ctx), *expr, depth as nat, r),
    decreases depth, expr, 0int,
{
    match &expr.data {
        Expr::BinOp { rhs, lhs, op } => {
            let ghost ctx0 = *ctx;
            let ghost p = ctx0.protos;
            let ghost d = depth as nat;
            let r1 = eval_expr(ctx, host, rhs, depth);
            let r_val = match r1 {
                Ok(v) => v,
                Err(e) => {
                    proof {
                        assert forall|answers: Seq<Seq<char>>| agrees(ctx.log@, answers) implies #[trigger] run_expr(
                            p,
                            state_m(ctx0),
                            *expr,
                            d,
                            answers,
                        ) == (res_m(r1), state_m(*ctx)) by {
                            assert(run_expr(p, state_m(ctx0), **rhs, d, answers) == (res_m(r1), state_m(*ctx)));
                        }
                    }
                    return Err(e);
                },
            };
            let ghost mid = *ctx;
            let r2 = eval_expr(ctx, host, lhs, depth);
            proof {
                lemma_extends_trans(ctx0, mid, *ctx);
                assert forall|answers: Seq<Seq<char>>| agrees(ctx.log@, answers) implies #[trigger] run_expr(
                    p,
                    state_m(ctx0),
                    *expr,
                    d,
                    answers,
                ) == (match res_m(r2) {
                    Err(er) => (Err::<ValueM, RunErr>(er), state_m(*ctx)),
                    Ok(l) => binop_m(op.data, l, value_m(r_val), state_m(*ctx), op.span),
                }) by {
                    assert(run_expr(p, state_m(ctx0), **rhs, d, answers) == (
                        Ok::<ValueM, RunErr>(value_m(r_val)),
                        state_m(mid),
                    ));
                    assert(run_expr(p, state_m(mid), **lhs, d, answers) == (res_m(r2), state_m(*ctx)));
                }
            }
            let l_val = match r2 {
                Ok(v) => v,
                Err(e) => {
                    return Err(e);
                },
            };
            let ghost mid2 = *ctx;
            proof {
                assert(ctx.holds(r_val));
            }
            let res = apply_binop(ctx, op.data, l_val, r_val, op.span);
            proof {
                lemma_extends_trans(ctx0, mid2, *ctx);
                assert forall|answers: Seq<Seq<char>>| agrees(ctx.log@, answers) implies #[trigger] run_expr(
                    p,
                    state_m(ctx0),
                    *expr,
                    d,
                    answers,
                ) == (res_m(res), state_m(*ctx)) by {
                    assert(agrees(mid2.log@, answers));
                    assert(run_expr(p, state_m(ctx0), *expr, d, answers) == binop_m(
                        op.data,
                        value_m(l_val),
                        value_m(r_val),
                        state_m(mid2),
                        op.span,
                    ));
                }
            }
            res
        },
        _ => Ok(Value::Nil),
    }
}

/// Builds a struct: each field is stored at the place its type's layout
/// gives it, the others hold `nil`.
#[verifier::spinoff_prover]
#[verifier::rlimit(40)]
#[verifier::loop_isolation(false)]
fn eval_ctor<'a, H: Host>(
    ctx: &mut Context<'a>,
    host: &mut H,
    expr: &'a Spanned<Expr>,
    depth: usize,
) -> (r: Result<Value<'a>, Error<'a>>)
    requires
        old(ctx).wf(),
        expr.data is TypeConstructor,
    ensures
        ran(*old(ctx), *final(ctx), r),
        expr_done(*old(ctx), *final(ctx), *expr, depth as nat, r),
    decreases depth, expr, 0int,
{
    match &expr.data {
        Expr::TypeConstructor { name, fields } => {
            let ghost ctx0 = *ctx;
            let ghost p = ctx0.protos;
            let ghost d = depth as nat;
            let size = match ctx.protos.size(&name.data) {
                Some(size) => size,
                None => {
                    return Err(Error::Rejected { message: "no layout for this type", span: name.span });
                },
            };
            let mut holder: Vec<Value<'a>> = Vec::new();
            let mut k: usize = 0;
            while k < size
                invariant
                    k <= size,
                    holder@.len() == k,
                    forall|q: int| 0 <= q < holder@.len() ==> #[trigger] holder@[q] == Value::<'a>::Nil,
                decreases size - k,
            {
                holder.push(Value::Nil);
                k += 1;
            }
            let ghost nils = Seq::new(size as nat, |i: int| ValueM::Nil);
            assert(values_m(holder@) =~= nils);
            let mut i: usize = 0;
            while i < fields.data.len()
                invariant
                    i <= fields.data@.len(),
                    ctx.extends(ctx0),
                    ctx.scopes@.len() >= ctx0.scopes@.len(),
                    holder@.len() == size,
                    forall|q: int| 0 <= q < holder@.len() ==> ctx.holds(#[trigger] holder@[q]),
                    forall|answers: Seq<Seq<char>>|
                        agrees(ctx.log@, answers) ==> #[trigger] run_ctor(
                            p,
                            state_m(ctx0),
                            name.data@,
                            fields.data@,
                            0,
                            nils,
                            d,
                            answers,
                        ) == run_ctor(p, state_m(*ctx), name.data@, fields.data@, i as int, values_m(holder@), d, answers),
                decreases fields.data@.len() - i,
            {
                proof {
                    vstd::std_specs::vec::axiom_vec_index_decreases(fields.data, i as int);
                }
                let field = &fields.data[i];
                let ghost mid = *ctx;
                let ghost holder0 = holder@;
                let (field_name, rv) = match &field.data {
                    FieldConstructor::Implicit(ident) => (ident, ctx.get(ident, field.span)),
                    FieldConstructor::Explicit { name: fname, expr: x } => (&fname.data, eval_expr(ctx, host, x, depth)),
                };
                proof {
                    lemma_extends_trans(ctx0, mid, *ctx);
                    assert forall|answers: Seq<Seq<char>>| agrees(ctx.log@, answers) implies #[trigger] run_ctor(
                        p,
                        state_m(ctx0),
                        name.data@,
                        fields.data@,
                        0,
                        nils,
                        d,
                        answers,
                    ) == (match res_m(rv) {
                        Err(er) => (Err::<Seq<ValueM>, RunErr>(er), state_m(*ctx)),
                        Ok(v) => match offset_m(p, name.data@, field_name@) {
                            None => (
                                Err::<Seq<ValueM>, RunErr>(
                                    RunErr::Rejected { message: "no layout for this field", span: field.span },
                                ),
                                state_m(*ctx),
                            ),
                            Some(o) => if o >= holder0.len() {
                                (
                                    Err::<Seq<ValueM>, RunErr>(
                                        RunErr::Rejected { message: "no layout for this field", span: field.span },
                                    ),
                                    state_m(*ctx),
                                )
                            } else {
                                run_ctor(
                                    p,
                                    state_m(*ctx),
                                    name.data@,
                                    fields.data@,
                                    i + 1,
                                    values_m(holder0).update(o as int, v),
                                    d,
                                    answers,
                                )
                            },
                        },
                    }) by {
                        assert(run_ctor(p, state_m(ctx0), name.data@, fields.data@, 0, nils, d, answers) == run_ctor(
                            p,
                            state_m(mid),
                            name.data@,
                            fields.data@,
                            i as int,
                            values_m(holder0),
                            d,
                            answers,
                        ));
                        match field.data {
                            FieldConstructor::Implicit(_) => {},
                            FieldConstructor::Explicit { expr: x, .. } => {
                                assert(run_expr(p, state_m(mid), x, d, answers) == (res_m(rv), state_m(*ctx)));
                            },
                        }
                    }
                }
                let val = match rv {
                    Ok(v) => v,
                    Err(e) => {
                        proof {
                            assert forall|answers: Seq<Seq<char>>| agrees(ctx.log@, answers) implies #[trigger] run_expr(
                                p,
                                state_m(ctx0),
                                *expr,
                                d,
                                answers,
                            ) == (res_m(rv), state_m(*ctx)) by {
                                assert(run_ctor(p, state_m(ctx0), name.data@, fields.data@, 0, nils, d, answers) == (
                                    Err::<Seq<ValueM>, RunErr>(err_m(e)),
                                    state_m(*ctx),
                                ));
                            }
                        }
                        return Err(e);
                    },
                };
                proof {
                    assert forall|q: int| 0 <= q < holder@.len() implies ctx.holds(#[trigger] holder@[q]) by {
                        assert(mid.holds(holder@[q]));
                    }
                }
                let offset = match ctx.protos.offset(&name.data, field_name) {
                    Some(o) => o,
                    None => {
                        proof {
                            assert forall|answers: Seq<Seq<char>>| agrees(ctx.log@, answers) implies #[trigger] run_expr(
                                p,
                                state_m(ctx0),
                                *expr,
                                d,
                                answers,
                            ) == (
                                Err::<ValueM, RunErr>(
                                    RunErr::Rejected { message: "no layout for this field", span: field.span },
                                ),
                                state_m(*ctx),
                            ) by {
                                assert(run_ctor(p, state_m(ctx0), name.data@, fields.data@, 0, nils, d, answers) == (
                                    Err::<Seq<ValueM>, RunErr>(
                                        RunErr::Rejected { message: "no layout for this field", span: field.span },
                                    ),
                                    state_m(*ctx),
                                ));
                            }
                        }
                        return Err(Error::Rejected { message: "no layout for this field", span: field.span });
                    },
                };
                if offset >= holder.len() {
                    proof {
                        assert forall|answers: Seq<Seq<char>>| agrees(ctx.log@, answers) implies #[trigger] run_expr(
                            p,
                            state_m(ctx0),
                            *expr,
                            d,
                            answers,
                        ) == (
                            Err::<ValueM, RunErr>(RunErr::Rejected { message: "no layout for this field", span: field.span }),
                            state_m(*ctx),
                        ) by {
                            assert(run_ctor(p, state_m(ctx0), name.data@, fields.data@, 0, nils, d, answers) == (
                                Err::<Seq<ValueM>, RunErr>(
                                    RunErr::Rejected { message: "no layout for this field", span: field.span },
                                ),
                                state_m(*ctx),
                            ));
                        }
                    }
                    return Err(Error::Rejected { message: "no layout for this field", span: field.span });
                }
                holder.remove(offset);
                holder.insert(offset, val);
                assert(holder@ =~= holder0.update(offset as int, val));
                assert(values_m(holder@) =~= values_m(holder0).update(offset as int, value_m(val)));
                assert forall|q: int| 0 <= q < holder@.len() implies ctx.holds(#[trigger] holder@[q]) by {}
                i += 1;
            }
            let ghost mid = *ctx;
            let ghost filled = values_m(holder@);
            proof {
                assert forall|answers: Seq<Seq<char>>| agrees(ctx.log@, answers) implies #[trigger] run_ctor(
                    p,
                    state_m(ctx0),
                    name.data@,
                    fields.data@,
                    0,
                    nils,
                    d,
                    answers,
                ) == (Ok::<Seq<ValueM>, RunErr>(filled), state_m(mid)) by {
                    assert(run_ctor(p, state_m(*ctx), name.data@, fields.data@, i as int, filled, d, answers) == (
                        Ok::<Seq<ValueM>, RunErr>(filled),
                        state_m(mid),
                    ));
                }
            }
            let cell = ctx.alloc_cell(holder);
            let typ = name.data.clone();
            proof {
                lemma_extends_trans(ctx0, mid, *ctx);
                assert forall|answers: Seq<Seq<char>>| agrees(ctx.log@, answers) implies #[trigger] run_expr(p, state_m(ctx0), *expr, d, answers) == (Ok::<ValueM, RunErr>(ValueM::Struct { typ: typ@, fields: cell as nat }), state_m(*ctx)) by {
                    assert(run_ctor(p, state_m(ctx0), name.data@, fields.data@, 0, nils, d, answers) == (Ok::<Seq<ValueM>, RunErr>(filled), state_m(mid)));
                    assert(state_m(mid).heap.len() == cell);
                }
            }
            Ok(Value::Struct { typ, fields: cell })
        },
        _ => Ok(Value::Nil),
    }
}

/// Evaluates a callee and calls it.
#[verifier::spinoff_prover]
fn eval_call<'a, H: Host>(
    ctx: &mut Context<'a>,
    host: &mut H,
    expr: &'a Spanned<Expr>,
    depth: usize,
) -> (r: Result<Value<'a>, Error<'a>>)
    requires
        old(ctx).wf(),
        expr.data is Call,
    ensures
        ran(*old(ctx), *final(ctx), r),
        expr_done(*old(ctx), *final(ctx), *expr, depth as nat, r),
    decreases depth, expr, 0int,
{
    match &expr.data {
        Expr::Call { expr: callee, args } => {
            let ghost ctx0 = *ctx;
            let ghost p = ctx0.protos;
            let ghost d = depth as nat;
            let r1 = eval_expr(ctx, host, callee, depth);
            let func = match r1 {
                Ok(v) => v,
                Err(e) => {
                    proof {
                        assert forall|answers: Seq<Seq<char>>| agrees(ctx.log@, answers) implies #[trigger] run_expr(
                            p,
                            state_m(ctx0),
                            *expr,
                            d,
                            answers,
                        ) == (res_m(r1), state_m(*ctx)) by {
                            assert(run_expr(p, state_m(ctx0), **callee, d, answers) == (res_m(r1), state_m(*ctx)));
                        }
                    }
                    return Err(e);
                },
            };
            let ghost mid = *ctx;
            let res = call_value(ctx, host, func, callee.span, &args.data, depth);
            proof {
                lemma_extends_trans(ctx0, mid, *ctx);
                assert forall|answers: Seq<Seq<char>>| agrees(ctx.log@, answers) implies #[trigger] run_expr(
                    p,
                    state_m(ctx0),
                    *expr,
                    d,
                    answers,
                ) == (res_m(res), state_m(*ctx)) by {
                    assert(run_expr(p, state_m(ctx0), **callee, d, answers) == (
                        Ok::<ValueM, RunErr>(value_m(func)),
                        state_m(mid),
                    ));
                    assert(run_call(p, state_m(mid), value_m(func), callee.span, args.data@, d, answers) == (
                        res_m(res),
                        state_m(*ctx),
                    ));
                }
            }
            res
        },
        _ => Ok(Value::Nil),
    }
}

/// Evaluates the arguments of a call and calls `func` with them.
#[verifier::spinoff_prover]
#[verifier::loop_isolation(false)]
fn call_value<'a, H: Host>(ctx: &mut Context<'a>, host: &mut H, func: Value<'a>, span: Span, args: &'a Vec<Spanned<Expr>>, depth: usize) -> (r: Result<Value<'a>, Error<'a>>)
    requires
        old(ctx).wf(),
        old(ctx).holds(func),
    ensures
        ran(*old(ctx), *final(ctx), r),
        call_done(*old(ctx), *final(ctx), value_m(func), span, args@, depth as nat, r),
    decreases depth, args, 0int,
{
    let ghost ctx0 = *ctx;
    let ghost p = ctx0.protos;
    let ghost d = depth as nat;
    let ghost fm = value_m(func);
    let mut values: Vec<Value<'a>> = Vec::new();
    let mut i: usize = 0;
    assert(values_m(values@) =~= Seq::empty());
    while i < args.len()
        invariant
            i <= args@.len(),
            ctx.extends(ctx0),
            ctx.scopes@.len() >= ctx0.scopes@.len(),
            ctx.holds(func),
            forall|k: int| 0 <= k < values@.len() ==> ctx.holds(#[trigger] values@[k]),
            forall|answers: Seq<Seq<char>>|
                agrees(ctx.log@, answers) ==> #[trigger] run_list(p, state_m(ctx0), args@, 0, Seq::empty(), d, answers)
                    == run_list(p, state_m(*ctx), args@, i as int, values_m(values@), d, answers),
        decreases args@.len() - i,
    {
        proof {
            vstd::std_specs::vec::axiom_vec_index_decreases(*args, i as int);
        }
        let ghost mid = *ctx;
        let ghost acc = values@;
        let res = eval_expr(ctx, host, &args[i], depth);
        proof {
            lemma_extends_trans(ctx0, mid, *ctx);
            assert forall|answers: Seq<Seq<char>>| agrees(ctx.log@, answers) implies #[trigger] run_list(
                p,
                state_m(ctx0),
                args@,
                0,
                Seq::empty(),
                d,
                answers,
            ) == (match res_m(res) {
                Err(er) => (Err::<Seq<ValueM>, RunErr>(er), state_m(*ctx)),
                Ok(v) => run_list(p, state_m(*ctx), args@, i + 1, values_m(acc).push(v), d, answers),
            }) by {
                
                assert(run_list(p, state_m(ctx0), args@, 0, Seq::empty(), d, answers) == run_list(
                    p,
                    state_m(mid),
                    args@,
                    i as int,
                    values_m(acc),
                    d,
                    answers,
                ));
                assert(run_expr(p, state_m(mid), args@[i as int], d, answers) == (res_m(res), state_m(*ctx)));
            }
        }
        let v = match res {
            Ok(v) => v,
            Err(e) => {
                proof {
                    assert forall|answers: Seq<Seq<char>>| agrees(ctx.log@, answers) implies #[trigger] run_call(
                        p,
                        state_m(ctx0),
                        fm,
                        span,
                        args@,
                        d,
                        answers,
                    ) == (res_m(res), state_m(*ctx)) by {
                        assert(run_list(p, state_m(ctx0), args@, 0, Seq::empty(), d, answers) == (
                            Err::<Seq<ValueM>, RunErr>(err_m(e)),
                            state_m(*ctx),
                        ));
                    }
                }
                return Err(e);
            },
        };
        proof {
            assert forall|k: int| 0 <= k < values@.len() implies ctx.holds(#[trigger] values@[k]) by {
                assert(mid.holds(values@[k]));
            }
        }
        values.push(v);
        assert(values_m(values@) =~= values_m(acc).push(value_m(v)));
        i += 1;
    }
    let ghost listed = *ctx;
    let ghost vals = values_m(values@);
    proof {
        assert forall|answers: Seq<Seq<char>>| agrees(ctx.log@, answers) implies #[trigger] run_list(
            p,
            state_m(ctx0),
            args@,
            0,
            Seq::empty(),
            d,
            answers,
        ) == (Ok::<Seq<ValueM>, RunErr>(vals), state_m(listed)) by {
            assert(run_list(p, state_m(*ctx), args@, i as int, vals, d, answers) == (
                Ok::<Seq<ValueM>, RunErr>(vals),
                state_m(*ctx),
            ));
        }
    }
    match func {
        Value::Func(func_body) => {
            if depth == 0 {
                proof {
                    assert forall|answers: Seq<Seq<char>>| agrees(ctx.log@, answers) implies #[trigger] run_call(
                        p,
                        state_m(ctx0),
                        fm,
                        span,
                        args@,
                        d,
                        answers,
                    ) == (Err::<ValueM, RunErr>(RunErr::Rejected { message: "calls nested too deep", span }), state_m(*ctx)) by {
                        assert(run_list(p, state_m(ctx0), args@, 0, Seq::empty(), d, answers) == (
                            Ok::<Seq<ValueM>, RunErr>(vals),
                            state_m(listed),
                        ));
                    }
                }
                return Err(Error::Rejected { message: "calls nested too deep", span });
            }
            let res = inner_func_call(ctx, host, func_body, values, depth - 1);
            proof {
                lemma_extends_trans(ctx0, listed, *ctx);
                assert forall|answers: Seq<Seq<char>>| agrees(ctx.log@, answers) implies #[trigger] run_call(
                    p,
                    state_m(ctx0),
                    fm,
                    span,
                    args@,
                    d,
                    answers,
                ) == (res_m(res), state_m(*ctx)) by {
                    
                    assert(run_list(p, state_m(ctx0), args@, 0, Seq::empty(), d, answers) == (
                        Ok::<Seq<ValueM>, RunErr>(vals),
                        state_m(listed),
                    ));
                    assert(run_func(p, state_m(listed), *func_body, vals, (d - 1) as nat, answers) == (
                        res_m(res),
                        state_m(*ctx),
                    ));
                }
            }
            res
        },
        Value::FFI(f) => {
            if depth == 0 {
                proof {
                    assert forall|answers: Seq<Seq<char>>| agrees(ctx.log@, answers) implies #[trigger] run_call(
                        p,
                        state_m(ctx0),
                        fm,
                        span,
                        args@,
                        d,
                        answers,
                    ) == (Err::<ValueM, RunErr>(RunErr::Rejected { message: "calls nested too deep", span }), state_m(*ctx)) by {
                        assert(run_list(p, state_m(ctx0), args@, 0, Seq::empty(), d, answers) == (
                            Ok::<Seq<ValueM>, RunErr>(vals),
                            state_m(listed),
                        ));
                    }
                }
                return Err(Error::Rejected { message: "calls nested too deep", span });
            }
            let res = call_builtin(ctx, host, f, span, values, depth - 1);
            proof {
                lemma_extends_trans(ctx0, listed, *ctx);
                assert forall|answers: Seq<Seq<char>>| agrees(ctx.log@, answers) implies #[trigger] run_call(
                    p,
                    state_m(ctx0),
                    fm,
                    span,
                    args@,
                    d,
                    answers,
                ) == (res_m(res), state_m(*ctx)) by {
                    
                    assert(run_list(p, state_m(ctx0), args@, 0, Seq::empty(), d, answers) == (
                        Ok::<Seq<ValueM>, RunErr>(vals),
                        state_m(listed),
                    ));
                    assert(run_builtin(p, state_m(listed), f, span, vals, (d - 1) as nat, answers) == (
                        res_m(res),
                        state_m(*ctx),
                    ));
                }
            }
            res
        },
        _ => {
            proof {
                assert forall|answers: Seq<Seq<char>>| agrees(ctx.log@, answers) implies #[trigger] run_call(
                    p,
                    state_m(ctx0),
                    fm,
                    span,
                    args@,
                    d,
                    answers,
                ) == (Err::<ValueM, RunErr>(RunErr::NotAFunction { span, found: fm }), state_m(*ctx)) by {
                    assert(run_list(p, state_m(ctx0), args@, 0, Seq::empty(), d, answers) == (
                        Ok::<Seq<ValueM>, RunErr>(vals),
                        state_m(listed),
                    ));
                }
            }
            Err(Error::NotAFunction { span, found: func })
        },
    }
}

/// Hands `words` to the host and records, in `log`, those words and the
/// host's answer.
fn ask_host<H: Host>(host: &mut H, words: Vec<String>, log: &mut Ghost<Seq<(Seq<Seq<char>>, Seq<char>)>>) -> (r: String)
    ensures
        final(log)@ == old(log)@.push((words_v(words@), r@)),
{
    let ghost asked = words_v(words@);
    let out = host.exec(words);
    proof {
        log@ = log@.push((asked, out@));
    }
    out
}

/// Calls a built-in function: `print` gives the number of its arguments,
/// `test` calls a function a number of times, `exec` hands a command to the
/// host, `exit` stops the program.
#[verifier::spinoff_prover]
#[verifier::rlimit(40)]
#[verifier::loop_isolation(false)]
fn call_builtin<'a, H: Host>(ctx: &mut Context<'a>, host: &mut H, f: Builtin, span: Span, args: Vec<Value<'a>>, depth: usize) -> (r: Result<Value<'a>, Error<'a>>)
    requires
        old(ctx).wf(),
        forall|k: int| 0 <= k < args@.len() ==> old(ctx).holds(#[trigger] args@[k]),
    ensures
        ran(*old(ctx), *final(ctx), r),
        builtin_done(*old(ctx), *final(ctx), f, span, values_m(args@), depth as nat, r),
    decreases depth, args, 0int,
{
    let ghost ctx0 = *ctx;
    let ghost p = ctx0.protos;
    let ghost d = depth as nat;
    let ghost vs = values_m(args@);
    match f {
        Builtin::Exit => Err(Error::Exit { span }),
        Builtin::Print => {
            assert(vs.len() == args@.len());
            Ok(Value::Integer(args.len() as i64))
        },
        Builtin::Test => {
            if args.len() != 2 {
                return Err(Error::FFI("ffi::test"));
            }
            let (func_body, n) = match (&args[0], &args[1]) {
                (Value::Func(func_body), Value::Integer(n)) => (*func_body, *n),
                _ => {
                    return Err(Error::FFI("ffi::test"));
                },
            };
            assert(vs[0] == ValueM::Func(*func_body) && vs[1] == ValueM::Integer(n));
            let mut count: i64 = 0;
            assert(values_m(Seq::<Value<'a>>::empty()) =~= Seq::empty());
            while count < n
                invariant
                    ctx.extends(ctx0),
                    ctx.scopes@.len() >= ctx0.scopes@.len(),
                    0 <= count,
                    vs[0] == ValueM::Func(*func_body),
                    vs[1] == ValueM::Integer(n),
                    forall|answers: Seq<Seq<char>>|
                        agrees(ctx.log@, answers) ==> #[trigger] run_test(p, state_m(ctx0), vs, 0, span, d, answers)
                            == run_test(p, state_m(*ctx), vs, count as int, span, d, answers),
                decreases n - count,
            {
                let ghost mid = *ctx;
                if depth == 0 {
                    proof {
                        assert forall|answers: Seq<Seq<char>>| agrees(ctx.log@, answers) implies #[trigger] run_builtin(
                            p,
                            state_m(ctx0),
                            f,
                            span,
                            vs,
                            d,
                            answers,
                        ) == (Err::<ValueM, RunErr>(RunErr::Rejected { message: "calls nested too deep", span }), state_m(*ctx)) by {
                            assert(run_test(p, state_m(ctx0), vs, 0, span, d, answers) == run_test(
                                p,
                                state_m(*ctx),
                                vs,
                                count as int,
                                span,
                                d,
                                answers,
                            ));
                        }
                    }
                    return Err(Error::Rejected { message: "calls nested too deep", span });
                }
                let res = inner_func_call(ctx, host, func_body, Vec::new(), depth - 1);
                proof {
                    lemma_extends_trans(ctx0, mid, *ctx);
                    assert forall|answers: Seq<Seq<char>>| agrees(ctx.log@, answers) implies #[trigger] run_test(
                        p,
                        state_m(ctx0),
                        vs,
                        0,
                        span,
                        d,
                        answers,
                    ) == (match res_m(res) {
                        Err(er) => (Err(er), state_m(*ctx)),
                        Ok(_) => run_test(p, state_m(*ctx), vs, count + 1, span, d, answers),
                    }) by {
                        
                        assert(run_test(p, state_m(ctx0), vs, 0, span, d, answers) == run_test(
                            p,
                            state_m(mid),
                            vs,
                            count as int,
                            span,
                            d,
                            answers,
                        ));
                        assert(run_func(p, state_m(mid), *func_body, Seq::empty(), (d - 1) as nat, answers) == (
                            res_m(res),
                            state_m(*ctx),
                        ));
                    }
                }
                if let Err(e) = res {
                    proof {
                        assert forall|answers: Seq<Seq<char>>| agrees(ctx.log@, answers) implies #[trigger] run_builtin(
                            p,
                            state_m(ctx0),
                            f,
                            span,
                            vs,
                            d,
                            answers,
                        ) == (res_m(res), state_m(*ctx)) by {
                            assert(run_test(p, state_m(ctx0), vs, 0, span, d, answers) == (res_m(res), state_m(*ctx)));
                        }
                    }
                    return Err(e);
                }
                count += 1;
            }
            proof {
                assert(count >= n);
                assert(vs[1] == ValueM::Integer(n));
                assert(vs.len() == 2);
                assert forall|answers: Seq<Seq<char>>| agrees(ctx.log@, answers) implies #[trigger] run_builtin(
                    p,
                    state_m(ctx0),
                    f,
                    span,
                    vs,
                    d,
                    answers,
                ) == (Ok::<ValueM, RunErr>(ValueM::Nil), state_m(*ctx)) by {
                    assert(run_test(p, state_m(ctx0), vs, 0, span, d, answers) == run_test(p, state_m(*ctx), vs, count as int, span, d, answers));
                    assert(run_test(p, state_m(*ctx), vs, count as int, span, d, answers) == (
                        Ok::<ValueM, RunErr>(ValueM::Nil),
                        state_m(*ctx),
                    ));
                }
            }
            Ok(Value::Nil)
        },
        Builtin::Exec => {
            let mut words: Vec<String> = Vec::new();
            let mut i: usize = 0;
            assert(words_v(words@) =~= Seq::empty());
            while i < args.len()
                invariant
                    i <= args@.len(),
                    *ctx == ctx0,
                    vs == values_m(args@),
                    words_m(vs, 0, Seq::empty()) == words_m(vs, i as int, words_v(words@)),
                decreases args@.len() - i,
            {
                let ghost w0 = words@;
                match &args[i] {
                    Value::Nil => {},
                    Value::Boolean(true) => words.push("true".to_owned()),
                    Value::Boolean(false) => words.push("false".to_owned()),
                    Value::Integer(x) => words.push(int_to_string(*x)),
                    Value::String(x) => words.push(x.clone()),
                    _ => {
                        return Err(Error::FFI("ff::extern_test::invalid_arg"));
                    },
                }
                assert(words_v(words@) =~= match vs[i as int] {
                    ValueM::Nil => words_v(w0),
                    ValueM::Boolean(true) => words_v(w0).push("true"@),
                    ValueM::Boolean(false) => words_v(w0).push("false"@),
                    ValueM::Integer(x) => words_v(w0).push(decimal(x as int)),
                    ValueM::String(t) => words_v(w0).push(t),
                    _ => words_v(w0),
                });
                i += 1;
            }
            if words.len() == 0 {
                return Err(Error::FFI("ffi::extern_test::no_args"));
            }
            let ghost asked = words_v(words@);
            let out = ask_host(host, words, &mut ctx.log);
            proof {
                lemma_log_push(ctx0.log@, (asked, out@));
                assert(words_m(vs, i as int, asked) == Ok::<Seq<Seq<char>>, RunErr>(asked));
                assert forall|answers: Seq<Seq<char>>| agrees(ctx.log@, answers) implies #[trigger] run_builtin(
                    p,
                    state_m(ctx0),
                    f,
                    span,
                    vs,
                    d,
                    answers,
                ) == (Ok::<ValueM, RunErr>(ValueM::String(out@)), state_m(*ctx)) by {
                    let k = ctx0.log@.len() as int;
                    assert(ctx.log@[k].1 == answers[k]);
                    assert(state_m(*ctx) == StateM { log: state_m(ctx0).log.push((asked, answers[k])), ..state_m(ctx0) });
                }
            }
            Ok(Value::String(out))
        },
    }
}

/// Calls a function body with argument values: the arguments are bound in a
/// new scope, in order, a later one of the same name replacing an earlier
/// one; arguments beyond the parameters are dropped. The call gives the value
/// that a `return` hands back, or `nil`.
#[verifier::spinoff_prover]
#[verifier::rlimit(40)]
#[verifier::loop_isolation(false)]
pub fn inner_func_call<'a, H: Host>(ctx: &mut Context<'a>, host: &mut H, func_body: &'a FuncBody, args: Vec<Value<'a>>, depth: usize) -> (r: Result<Value<'a>, Error<'a>>)
    requires
        old(ctx).wf(),
        forall|k: int| 0 <= k < args@.len() ==> old(ctx).holds(#[trigger] args@[k]),
    ensures
        ran(*old(ctx), *final(ctx), r),
        !(r matches Err(Error::Return { .. })),
        !(r matches Err(Error::Break { .. })),
        func_done(*old(ctx), *final(ctx), *func_body, values_m(args@), depth as nat, r),
    decreases depth, func_body, 0int,
{
    let ghost ctx0 = *ctx;
    let ghost params = func_body.args.data@;
    let ghost vs = values_m(args@);
    let mut scope: Scope<'a> = Vec::new();
    let n = if func_body.args.data.len() < args.len() { func_body.args.data.len() } else { args.len() };
    let mut i: usize = 0;
    assert(scope_vm(scope@) =~= Seq::empty());
    while i < n
        invariant
            i <= n,
            n <= func_body.args.data@.len(),
            n <= args@.len(),
            n == func_body.args.data@.len() || n == args@.len(),
            forall|k: int| 0 <= k < args@.len() ==> ctx0.holds(#[trigger] args@[k]),
            forall|k: int| 0 <= k < scope@.len() ==> ctx0.holds(#[trigger] scope@[k].1),
            vs == values_m(args@),
            params_v(params, vs, 0, Seq::empty()) == params_v(params, vs, i as int, scope_vm(scope@)),
        decreases n - i,
    {
        let ghost scope0 = scope@;
        let val = args[i].duplicate();
        let arg = &func_body.args.data[i];
        let val = val.coerce(&arg.data.typ)?;
        let found = find_binding(&scope, &arg.data.name.data);
        proof {
            assert(value_keys(scope@) =~= keys_v(scope_vm(scope@)));
        }
        match found {
            Some(k) => {
                scope.remove(k);
                scope.insert(k, (arg.data.name.data.clone(), val));
                assert(scope@ =~= scope0.update(k as int, (arg.data.name.data, val)));
                assert(scope_vm(scope@) =~= scope_vm(scope0).update(k as int, (arg.data.name.data@, value_m(val))));
                assert forall|k: int| 0 <= k < scope@.len() implies ctx0.holds(#[trigger] scope@[k].1) by {}
            },
            None => {
                scope.push((arg.data.name.data.clone(), val));
                assert(scope_vm(scope@) =~= scope_vm(scope0).push((arg.data.name.data@, value_m(val))));
            },
        }
        i += 1;
    }
    proof {
        assert(params_v(params, vs, n as int, scope_vm(scope@)) == scope_vm(scope@));
    }
    ctx.push_scope(scope);
    let ghost pushed = *ctx;
    let res = eval_stmts(ctx, host, &func_body.body.data, depth);
    proof {
        assert forall|answers: Seq<Seq<char>>| agrees(ctx.log@, answers) implies #[trigger] run_func(
            ctx0.protos,
            state_m(ctx0),
            *func_body,
            vs,
            depth as nat,
            answers,
        ) == func_outcome(unit_m(res), state_m(*ctx)) by {
            assert(run_stmts(pushed.protos, state_m(pushed), func_body.body.data@, 0, depth as nat, answers) == (
                unit_m(res),
                state_m(*ctx),
            ));
        }
    }
    let value = match res {
        Ok(()) => Value::Nil,
        Err(Error::Return { value, .. }) => value,
        Err(Error::Break { span }) => {
            return Err(Error::MalformedControlFlow { span });
        },
        Err(error) => {
            return Err(error);
        },
    };
    assert(ctx.scopes@.len() >= ctx0.scopes@.len() + 1);
    ctx.pop();
    Ok(value)
}

/// Runs statements in order.
#[verifier::spinoff_prover]
#[verifier::loop_isolation(false)]
fn eval_stmts<'a, H: Host>(ctx: &mut Context<'a>, host: &mut H, stmts: &'a Vec<Spanned<Stmt>>, depth: usize) -> (r: Result<(), Error<'a>>)
    requires
        old(ctx).wf(),
    ensures
        ran_unit(*old(ctx), *final(ctx), r),
        stmts_done(*old(ctx), *final(ctx), stmts@, depth as nat, r),
    decreases depth, stmts, 0int,
{
    let ghost ctx0 = *ctx;
    let ghost p = ctx0.protos;
    let ghost d = depth as nat;
    let mut i: usize = 0;
    while i < stmts.len()
        invariant
            i <= stmts@.len(),
            ctx.extends(ctx0),
            ctx.scopes@.len() >= ctx0.scopes@.len(),
            forall|answers: Seq<Seq<char>>|
                agrees(ctx.log@, answers) ==> #[trigger] run_stmts(p, state_m(ctx0), stmts@, 0, d, answers)
                    == run_stmts(p, state_m(*ctx), stmts@, i as int, d, answers),
        decreases stmts@.len() - i,
    {
        proof {
            vstd::std_specs::vec::axiom_vec_index_decreases(*stmts, i as int);
        }
        let ghost mid = *ctx;
        let res = eval_stmt(ctx, host, &stmts[i], depth);
        proof {
            lemma_extends_trans(ctx0, mid, *ctx);
            assert forall|answers: Seq<Seq<char>>| agrees(ctx.log@, answers) implies #[trigger] run_stmts(p, state_m(ctx0), stmts@, 0, d, answers) == (match unit_m(res) {
                Err(er) => (Err::<(), RunErr>(er), state_m(*ctx)),
                Ok(_) => run_stmts(p, state_m(*ctx), stmts@, i + 1, d, answers),
            }) by {
                assert(run_stmts(p, state_m(ctx0), stmts@, 0, d, answers) == run_stmts(p, state_m(mid), stmts@, i as int, d, answers));
                assert(run_stmt(p, state_m(mid), stmts@[i as int], d, answers) == (unit_m(res), state_m(*ctx)));
            }
        }
        if let Err(e) = res {
            return Err(e);
        }
        i += 1;
    }
    proof {
        assert forall|answers: Seq<Seq<char>>| agrees(ctx.log@, answers) implies #[trigger] run_stmts(p, state_m(ctx0), stmts@, 0, d, answers) == (Ok::<(), RunErr>(()), state_m(*ctx)) by {
            assert(run_stmts(p, state_m(*ctx), stmts@, i as int, d, answers) == (Ok::<(), RunErr>(()), state_m(*ctx)));
        }
    }
    Ok(())
}

/// Runs the statements of a block in a new scope.
#[verifier::spinoff_prover]
fn eval_block<'a, H: Host>(ctx: &mut Context<'a>, host: &mut H, stmts: &'a Vec<Spanned<Stmt>>, depth: usize) -> (r: Result<(), Error<'a>>)
    requires
        old(ctx).wf(),
    ensures
        ran_unit(*old(ctx), *final(ctx), r),
        block_done(*old(ctx), *final(ctx), stmts@, depth as nat, r),
    decreases depth, stmts, 1int,
{
    let ghost ctx0 = *ctx;
    let ghost p = ctx0.protos;
    let ghost d = depth as nat;
    ctx.push();
    let ghost mid = *ctx;
    let res = eval_stmts(ctx, host, stmts, depth);
    proof {
        lemma_extends_trans(ctx0, mid, *ctx);
        assert forall|answers: Seq<Seq<char>>| agrees(ctx.log@, answers) implies run_stmts(
            p,
            with_scopes(state_m(ctx0), state_m(ctx0).scopes.push(Seq::empty())),
            stmts@,
            0,
            d,
            answers,
        ) == (unit_m(res), state_m(*ctx)) by {
            assert(run_stmts(mid.protos, state_m(mid), stmts@, 0, d, answers) == (unit_m(res), state_m(*ctx)));
        }
    }
    match res {
        Ok(()) => {},
        Err(e) => {
            return Err(e);
        },
    }
    ctx.pop();
    Ok(())
}

/// Runs a statement.
#[verifier::spinoff_prover]
fn eval_stmt<'a, H: Host>(ctx: &mut Context<'a>, host: &mut H, stmt: &'a Spanned<Stmt>, depth: usize) -> (r: Result<(), Error<'a>>)
    requires
        old(ctx).wf(),
    ensures
        ran_unit(*old(ctx), *final(ctx), r),
        stmt_done(*old(ctx), *final(ctx), *stmt, depth as nat, r),
    decreases depth, stmt, 2int,
{
    let ghost ctx0 = *ctx;
    match &stmt.data {
        Stmt::Break => Err(Error::Break { span: stmt.span }),
        Stmt::Return { .. } => eval_return(ctx, host, stmt, depth),
        Stmt::Call { .. } => eval_call_stmt(ctx, host, stmt, depth),
        Stmt::Binding { .. } => eval_binding(ctx, host, stmt, depth),
        Stmt::Assign { .. } => eval_assign(ctx, host, stmt, depth),
        Stmt::If { .. } => eval_if(ctx, host, stmt, depth),
        Stmt::ForNum { .. } => Err(Error::Rejected { message: "numeric for loops are not run yet", span: stmt.span }),
        Stmt::TypeDef { .. } => Ok(()),
        Stmt::FuncDef { name, body, .. } => ctx.set(&name.data, Value::Func(body), name.span),
    }
}

/// Runs a `return` statement: it stops the function with the value of its
/// expression, or `nil`.
#[verifier::spinoff_prover]
fn eval_return<'a, H: Host>(ctx: &mut Context<'a>, host: &mut H, stmt: &'a Spanned<Stmt>, depth: usize) -> (r: Result<(), Error<'a>>)
    requires
        old(ctx).wf(),
        stmt.data is Return,
    ensures
        ran_unit(*old(ctx), *final(ctx), r),
        stmt_done(*old(ctx), *final(ctx), *stmt, depth as nat, r),
    decreases depth, stmt, 1int,
{
    let ghost ctx0 = *ctx;
    let ghost p = ctx0.protos;
    let ghost d = depth as nat;
    match &stmt.data {
        Stmt::Return { expr: Some(expr) } => {
            let r1 = eval_expr(ctx, host, expr, depth);
            let r = match r1 {
                Ok(value) => Err(Error::Return { span: stmt.span, value }),
                Err(e) => Err(e),
            };
            proof {
                assert forall|answers: Seq<Seq<char>>| agrees(ctx.log@, answers) implies #[trigger] run_stmt(p, state_m(ctx0), *stmt, d, answers) == (unit_m(r), state_m(*ctx)) by {
                    assert(run_expr(p, state_m(ctx0), *expr, d, answers) == (res_m(r1), state_m(*ctx)));
                }
            }
            r
        },
        _ => Err(Error::Return { span: stmt.span, value: Value::Nil }),
    }
}

/// Runs a call statement: the callee is evaluated and called, and its value
/// dropped.
#[verifier::spinoff_prover]
fn eval_call_stmt<'a, H: Host>(ctx: &mut Context<'a>, host: &mut H, stmt: &'a Spanned<Stmt>, depth: usize) -> (r: Result<(), Error<'a>>)
    requires
        old(ctx).wf(),
        stmt.data is Call,
    ensures
        ran_unit(*old(ctx), *final(ctx), r),
        stmt_done(*old(ctx), *final(ctx), *stmt, depth as nat, r),
    decreases depth, stmt, 1int,
{
    let ghost ctx0 = *ctx;
    let ghost p = ctx0.protos;
    let ghost d = depth as nat;
    match &stmt.data {
        Stmt::Call { expr, args } => {
            let r1 = eval_expr(ctx, host, expr, depth);
            let func = match r1 {
                Ok(v) => v,
                Err(e) => {
                    proof {
                        assert forall|answers: Seq<Seq<char>>| agrees(ctx.log@, answers) implies #[trigger] run_stmt(p, state_m(ctx0), *stmt, d, answers) == (Err::<(), RunErr>(err_m(e)), state_m(*ctx)) by {
                            assert(run_expr(p, state_m(ctx0), **expr, d, answers) == (res_m(r1), state_m(*ctx)));
                        }
                    }
                    return Err(e);
                },
            };
            let ghost mid = *ctx;
            let res = call_value(ctx, host, func, expr.span, &args.data, depth);
            let r = match res {
                Ok(_) => Ok(()),
                Err(e) => Err(e),
            };
            proof {
                lemma_extends_trans(ctx0, mid, *ctx);
                assert forall|answers: Seq<Seq<char>>| agrees(ctx.log@, answers) implies #[trigger] run_stmt(p, state_m(ctx0), *stmt, d, answers) == (unit_m(r), state_m(*ctx)) by {
                    assert(run_expr(p, state_m(ctx0), **expr, d, answers) == (Ok::<ValueM, RunErr>(value_m(func)), state_m(mid)));
                    assert(run_call(p, state_m(mid), value_m(func), expr.span, args.data@, d, answers) == (res_m(res), state_m(*ctx)));
                }
            }
            r
        },
        _ => Ok(()),
    }
}

/// Runs a `local` statement: each name is bound to the value of its
/// expression.
#[verifier::spinoff_prover]
#[verifier::loop_isolation(false)]
fn eval_binding<'a, H: Host>(
    ctx: &mut Context<'a>,
    host: &mut H,
    stmt: &'a Spanned<Stmt>,
    depth: usize,
) -> (r: Result<(), Error<'a>>)
    requires
        old(ctx).wf(),
        stmt.data is Binding,
    ensures
        ran_unit(*old(ctx), *final(ctx), r),
        stmt_done(*old(ctx), *final(ctx), *stmt, depth as nat, r),
    decreases depth, stmt, 0int,
{
    match &stmt.data {
        Stmt::Binding { lhs, rhs } => {
            let ghost ctx0 = *ctx;
            let ghost p = ctx0.protos;
            let ghost d = depth as nat;
            let mut i: usize = 0;
            while i < lhs.data.len() && i < rhs.data.len()
                invariant
                    i <= lhs.data@.len(),
                    ctx.extends(ctx0),
                    ctx.scopes@.len() >= ctx0.scopes@.len(),
                    forall|answers: Seq<Seq<char>>|
                        agrees(ctx.log@, answers) ==> #[trigger] run_bindings(p, state_m(ctx0), *stmt, 0, d, answers)
                            == run_bindings(p, state_m(*ctx), *stmt, i as int, d, answers),
                decreases lhs.data@.len() - i,
            {
                proof {
                    vstd::std_specs::vec::axiom_vec_index_decreases(rhs.data, i as int);
                }
                let l = &lhs.data[i];
                let ghost mid = *ctx;
                let res = eval_expr(ctx, host, &rhs.data[i], depth);
                proof {
                    lemma_extends_trans(ctx0, mid, *ctx);
                    assert forall|answers: Seq<Seq<char>>| agrees(ctx.log@, answers) implies #[trigger] run_bindings(
                        p,
                        state_m(ctx0),
                        *stmt,
                        0,
                        d,
                        answers,
                    ) == (match res_m(res) {
                        Err(er) => (Err::<(), RunErr>(er), state_m(*ctx)),
                        Ok(v) => run_bindings(
                            p,
                            with_scopes(state_m(*ctx), assign_v(state_m(*ctx).scopes, lhs.data@[i as int].data@, v)),
                            *stmt,
                            i + 1,
                            d,
                            answers,
                        ),
                    }) by {
                        assert(run_bindings(p, state_m(ctx0), *stmt, 0, d, answers) == run_bindings(
                            p,
                            state_m(mid),
                            *stmt,
                            i as int,
                            d,
                            answers,
                        ));
                        assert(run_expr(p, state_m(mid), rhs.data@[i as int], d, answers) == (res_m(res), state_m(*ctx)));
                    }
                }
                let val = match res {
                    Ok(v) => v,
                    Err(e) => {
                        proof {
                            assert forall|answers: Seq<Seq<char>>| agrees(ctx.log@, answers) implies #[trigger] run_stmt(
                                p,
                                state_m(ctx0),
                                *stmt,
                                d,
                                answers,
                            ) == (Err::<(), RunErr>(err_m(e)), state_m(*ctx)) by {
                                assert(run_bindings(p, state_m(ctx0), *stmt, 0, d, answers) == (
                                    Err::<(), RunErr>(err_m(e)),
                                    state_m(*ctx),
                                ));
                            }
                        }
                        return Err(e);
                    },
                };
                let ghost mid2 = *ctx;
                let _ = ctx.set(&l.data, val, l.span);
                proof {
                    lemma_extends_trans(ctx0, mid2, *ctx);
                }
                i += 1;
            }
            proof {
                assert forall|answers: Seq<Seq<char>>| agrees(ctx.log@, answers) implies #[trigger] run_stmt(
                    p,
                    state_m(ctx0),
                    *stmt,
                    d,
                    answers,
                ) == (Ok::<(), RunErr>(()), state_m(*ctx)) by {
                    assert(run_bindings(p, state_m(ctx0), *stmt, 0, d, answers) == run_bindings(
                        p,
                        state_m(*ctx),
                        *stmt,
                        i as int,
                        d,
                        answers,
                    ));
                }
            }
            Ok(())
        },
        _ => Ok(()),
    }
}

/// Runs an assignment: each value is stored in its place, a name, a struct
/// field or a list element.
#[verifier::spinoff_prover]
#[verifier::loop_isolation(false)]
fn eval_assign<'a, H: Host>(
    ctx: &mut Context<'a>,
    host: &mut H,
    stmt: &'a Spanned<Stmt>,
    depth: usize,
) -> (r: Result<(), Error<'a>>)
    requires
        old(ctx).wf(),
        stmt.data is Assign,
    ensures
        ran_unit(*old(ctx), *final(ctx), r),
        stmt_done(*old(ctx), *final(ctx), *stmt, depth as nat, r),
    decreases depth, stmt, 1int,
{
    match &stmt.data {
        Stmt::Assign { lhs, rhs } => {
            let ghost ctx0 = *ctx;
            let ghost p = ctx0.protos;
            let ghost d = depth as nat;
            let mut i: usize = 0;
            while i < lhs.data.len() && i < rhs.data.len()
                invariant
                    i <= lhs.data@.len(),
                    ctx.extends(ctx0),
                    ctx.scopes@.len() >= ctx0.scopes@.len(),
                    forall|answers: Seq<Seq<char>>|
                        agrees(ctx.log@, answers) ==> #[trigger] run_assigns(p, state_m(ctx0), *stmt, 0, d, answers)
                            == run_assigns(p, state_m(*ctx), *stmt, i as int, d, answers),
                decreases lhs.data@.len() - i,
            {
                let ghost mid = *ctx;
                let res = assign_one(ctx, host, stmt, i, depth);
                proof {
                    lemma_extends_trans(ctx0, mid, *ctx);
                    assert forall|answers: Seq<Seq<char>>| agrees(ctx.log@, answers) implies #[trigger] run_assigns(p, state_m(ctx0), *stmt, 0, d, answers) == (match unit_m(res) {
                        Err(er) => (Err::<(), RunErr>(er), state_m(*ctx)),
                        Ok(_) => run_assigns(p, state_m(*ctx), *stmt, i + 1, d, answers),
                    }) by {
                        assert(run_assigns(p, state_m(ctx0), *stmt, 0, d, answers) == run_assigns(p, state_m(mid), *stmt, i as int, d, answers));
                    }
                }
                if let Err(e) = res {
                    proof {
                        assert forall|answers: Seq<Seq<char>>| agrees(ctx.log@, answers) implies #[trigger] run_stmt(p, state_m(ctx0), *stmt, d, answers) == (Err::<(), RunErr>(err_m(e)), state_m(*ctx)) by {
                            assert(run_assigns(p, state_m(ctx0), *stmt, 0, d, answers) == (Err::<(), RunErr>(err_m(e)), state_m(*ctx)));
                        }
                    }
                    return Err(e);
                }
                i += 1;
            }
            proof {
                assert forall|answers: Seq<Seq<char>>| agrees(ctx.log@, answers) implies #[trigger] run_assigns(p, state_m(ctx0), *stmt, 0, d, answers) == (Ok::<(), RunErr>(()), state_m(*ctx)) by {
                    assert(run_assigns(p, state_m(*ctx), *stmt, i as int, d, answers) == (Ok::<(), RunErr>(()), state_m(*ctx)));
                }
                assert forall|answers: Seq<Seq<char>>| agrees(ctx.log@, answers) implies #[trigger] run_stmt(p, state_m(ctx0), *stmt, d, answers) == (Ok::<(), RunErr>(()), state_m(*ctx)) by {
                    assert(run_assigns(p, state_m(ctx0), *stmt, 0, d, answers) == (Ok::<(), RunErr>(()), state_m(*ctx)));
                }
            }
            Ok(())
        },
        _ => Ok(()),
    }
}

/// What running the `i`-th assignment of an assignment statement did: the
/// assignments from the `i`-th on give its error, or those after it run from
/// the state it left.
pub open spec fn assign_done<'a>(before: Context<'a>, after: Context<'a>, st: Spanned<Stmt>, i: int, d: nat, r: Result<(), Error<'a>>) -> bool {
    forall|answers: Seq<Seq<char>>|
        agrees(after.log@, answers) ==> #[trigger] run_assigns(before.protos, state_m(before), st, i, d, answers) == (
            match unit_m(r) {
                Err(er) => (Err(er), state_m(after)),
                Ok(_) => run_assigns(before.protos, state_m(after), st, i + 1, d, answers),
            }
        )
}

/// Runs the `i`-th assignment of an assignment statement.
#[verifier::spinoff_prover]
#[verifier::rlimit(60)]
fn assign_one<'a, H: Host>(ctx: &mut Context<'a>, host: &mut H, stmt: &'a Spanned<Stmt>, i: usize, depth: usize) -> (r: Result<(), Error<'a>>)
    requires
        old(ctx).wf(),
        match stmt.data {
            Stmt::Assign { lhs, rhs } => i < lhs.data@.len() && i < rhs.data@.len(),
            _ => false,
        },
    ensures
        ran_unit(*old(ctx), *final(ctx), r),
        assign_done(*old(ctx), *final(ctx), *stmt, i as int, depth as nat, r),
    decreases depth, stmt, 0int,
{
    let ghost ctx0 = *ctx;
    let ghost p = ctx0.protos;
    let ghost d = depth as nat;
    match &stmt.data {
        Stmt::Assign { lhs, rhs } => {
            proof {
                vstd::std_specs::vec::axiom_vec_index_decreases(lhs.data, i as int);
                vstd::std_specs::vec::axiom_vec_index_decreases(rhs.data, i as int);
            }
            let l = &lhs.data[i];
            let r1 = eval_expr(ctx, host, &rhs.data[i], depth);
            let rhs_val = match r1 {
                Ok(v) => v,
                Err(e) => {
                    proof {
                        assert forall|answers: Seq<Seq<char>>| agrees(ctx.log@, answers) implies #[trigger] run_assigns(p, state_m(ctx0), *stmt, i as int, d, answers) == (Err::<(), RunErr>(err_m(e)), state_m(*ctx)) by {
                            assert(run_expr(p, state_m(ctx0), rhs.data@[i as int], d, answers) == (res_m(r1), state_m(*ctx)));
                        }
                    }
                    return Err(e);
                },
            };
            let ghost mid = *ctx;
            match &l.data {
                Expr::Identifier(ident) => {
                    let _ = ctx.set(ident, rhs_val, l.span);
                    proof {
                        assert forall|answers: Seq<Seq<char>>| agrees(ctx.log@, answers) implies #[trigger] run_assigns(p, state_m(ctx0), *stmt, i as int, d, answers) == run_assigns(p, state_m(*ctx), *stmt, i + 1, d, answers) by {
                            assert(run_expr(p, state_m(ctx0), rhs.data@[i as int], d, answers) == (Ok::<ValueM, RunErr>(value_m(rhs_val)), state_m(mid)));
                        }
                    }
                    Ok(())
                },
                Expr::Member { expr, member } => {
                    let span = expr.span;
                    let r2 = eval_expr(ctx, host, expr, depth);
                    proof {
                        lemma_extends_trans(ctx0, mid, *ctx);
                    }
                    let val = match r2 {
                        Ok(v) => v,
                        Err(e) => {
                            proof {
                                assert forall|answers: Seq<Seq<char>>| agrees(ctx.log@, answers) implies #[trigger] run_assigns(p, state_m(ctx0), *stmt, i as int, d, answers) == (Err::<(), RunErr>(err_m(e)), state_m(*ctx)) by {
                                    assert(run_expr(p, state_m(ctx0), rhs.data@[i as int], d, answers) == (Ok::<ValueM, RunErr>(value_m(rhs_val)), state_m(mid)));
                                    assert(run_expr(p, state_m(mid), **expr, d, answers) == (res_m(r2), state_m(*ctx)));
                                }
                            }
                            return Err(e);
                        },
                    };
                    let ghost mid2 = *ctx;
                    proof {
                        assert(ctx.holds(rhs_val));
                    }
                    match val {
                        Value::Struct { typ, fields } => {
                            let offset = match ctx.protos.offset(&typ, &member.data) {
                                Some(o) => o,
                                None => {
                                    proof {
                                        assert forall|answers: Seq<Seq<char>>| agrees(ctx.log@, answers) implies #[trigger] run_assigns(p, state_m(ctx0), *stmt, i as int, d, answers) == (Err::<(), RunErr>(RunErr::Rejected { message: "no layout for this field", span }), state_m(*ctx)) by {
                                            assert(run_expr(p, state_m(ctx0), rhs.data@[i as int], d, answers) == (Ok::<ValueM, RunErr>(value_m(rhs_val)), state_m(mid)));
                                            assert(run_expr(p, state_m(mid), **expr, d, answers) == (Ok::<ValueM, RunErr>(value_m(val)), state_m(mid2)));
                                        }
                                    }
                                    return Err(Error::Rejected { message: "no layout for this field", span });
                                },
                            };
                            if offset >= ctx.heap[fields].len() {
                                proof {
                                    assert forall|answers: Seq<Seq<char>>| agrees(ctx.log@, answers) implies #[trigger] run_assigns(p, state_m(ctx0), *stmt, i as int, d, answers) == (Err::<(), RunErr>(RunErr::Rejected { message: "no layout for this field", span }), state_m(*ctx)) by {
                                        assert(run_expr(p, state_m(ctx0), rhs.data@[i as int], d, answers) == (Ok::<ValueM, RunErr>(value_m(rhs_val)), state_m(mid)));
                                        assert(run_expr(p, state_m(mid), **expr, d, answers) == (Ok::<ValueM, RunErr>(value_m(val)), state_m(mid2)));
                                        assert(state_m(*ctx).heap[fields as int] == values_m(ctx.heap@[fields as int]@));
                                    }
                                }
                                return Err(Error::Rejected { message: "no layout for this field", span });
                            }
                            ctx.store(fields, offset, rhs_val);
                            proof {
                                assert forall|answers: Seq<Seq<char>>| agrees(ctx.log@, answers) implies #[trigger] run_assigns(p, state_m(ctx0), *stmt, i as int, d, answers) == run_assigns(p, state_m(*ctx), *stmt, i + 1, d, answers) by {
                                    assert(run_expr(p, state_m(ctx0), rhs.data@[i as int], d, answers) == (Ok::<ValueM, RunErr>(value_m(rhs_val)), state_m(mid)));
                                    assert(run_expr(p, state_m(mid), **expr, d, answers) == (Ok::<ValueM, RunErr>(value_m(val)), state_m(mid2)));
                                    assert(state_m(mid2).heap[fields as int] == values_m(mid2.heap@[fields as int]@));
                                }
                            }
                            Ok(())
                        },
                        _ => {
                            proof {
                                assert forall|answers: Seq<Seq<char>>| agrees(ctx.log@, answers) implies #[trigger] run_assigns(p, state_m(ctx0), *stmt, i as int, d, answers) == (Err::<(), RunErr>(RunErr::TypeMismatch { expected: "Type", found: value_m(val), span }), state_m(*ctx)) by {
                                    assert(run_expr(p, state_m(ctx0), rhs.data@[i as int], d, answers) == (Ok::<ValueM, RunErr>(value_m(rhs_val)), state_m(mid)));
                                    assert(run_expr(p, state_m(mid), **expr, d, answers) == (Ok::<ValueM, RunErr>(value_m(val)), state_m(mid2)));
                                }
                            }
                            Err(Error::TypeMismatch { expected: "Type", found: val, span })
                        },
                    }
                },
                Expr::Index { expr, index } => {
                    let r2 = eval_expr(ctx, host, expr, depth);
                    proof {
                        lemma_extends_trans(ctx0, mid, *ctx);
                    }
                    let val = match r2 {
                        Ok(v) => v,
                        Err(e) => {
                            proof {
                                assert forall|answers: Seq<Seq<char>>| agrees(ctx.log@, answers) implies #[trigger] run_assigns(p, state_m(ctx0), *stmt, i as int, d, answers) == (Err::<(), RunErr>(err_m(e)), state_m(*ctx)) by {
                                    assert(run_expr(p, state_m(ctx0), rhs.data@[i as int], d, answers) == (Ok::<ValueM, RunErr>(value_m(rhs_val)), state_m(mid)));
                                    assert(run_expr(p, state_m(mid), **expr, d, answers) == (res_m(r2), state_m(*ctx)));
                                }
                            }
                            return Err(e);
                        },
                    };
                    let ghost mid2 = *ctx;
                    let r3 = eval_expr(ctx, host, index, depth);
                    proof {
                        lemma_extends_trans(ctx0, mid2, *ctx);
                    }
                    let idx = match r3 {
                        Ok(v) => v,
                        Err(e) => {
                            proof {
                                assert forall|answers: Seq<Seq<char>>| agrees(ctx.log@, answers) implies #[trigger] run_assigns(p, state_m(ctx0), *stmt, i as int, d, answers) == (Err::<(), RunErr>(err_m(e)), state_m(*ctx)) by {
                                    assert(run_expr(p, state_m(ctx0), rhs.data@[i as int], d, answers) == (Ok::<ValueM, RunErr>(value_m(rhs_val)), state_m(mid)));
                                    assert(run_expr(p, state_m(mid), **expr, d, answers) == (Ok::<ValueM, RunErr>(value_m(val)), state_m(mid2)));
                                    assert(run_expr(p, state_m(mid2), **index, d, answers) == (res_m(r3), state_m(*ctx)));
                                }
                            }
                            return Err(e);
                        },
                    };
                    let ghost mid3 = *ctx;
                    proof {
                        assert(ctx.holds(rhs_val));
                        assert(ctx.holds(val));
                    }
                    let cell = match val {
                        Value::List(cell) => cell,
                        _ => {
                            proof {
                                assert forall|answers: Seq<Seq<char>>| agrees(ctx.log@, answers) implies #[trigger] run_assigns(p, state_m(ctx0), *stmt, i as int, d, answers) == (Err::<(), RunErr>(RunErr::TypeMismatch { expected: "List", found: value_m(val), span: expr.span }), state_m(*ctx)) by {
                                    assert(run_expr(p, state_m(ctx0), rhs.data@[i as int], d, answers) == (Ok::<ValueM, RunErr>(value_m(rhs_val)), state_m(mid)));
                                    assert(run_expr(p, state_m(mid), **expr, d, answers) == (Ok::<ValueM, RunErr>(value_m(val)), state_m(mid2)));
                                    assert(run_expr(p, state_m(mid2), **index, d, answers) == (Ok::<ValueM, RunErr>(value_m(idx)), state_m(mid3)));
                                }
                            }
                            return Err(Error::TypeMismatch { expected: "List", found: val, span: expr.span });
                        },
                    };
                    let k = match idx {
                        Value::Integer(k) => k,
                        _ => {
                            proof {
                                assert forall|answers: Seq<Seq<char>>| agrees(ctx.log@, answers) implies #[trigger] run_assigns(p, state_m(ctx0), *stmt, i as int, d, answers) == (Err::<(), RunErr>(RunErr::TypeMismatch { expected: "int", found: value_m(idx), span: index.span }), state_m(*ctx)) by {
                                    assert(run_expr(p, state_m(ctx0), rhs.data@[i as int], d, answers) == (Ok::<ValueM, RunErr>(value_m(rhs_val)), state_m(mid)));
                                    assert(run_expr(p, state_m(mid), **expr, d, answers) == (Ok::<ValueM, RunErr>(value_m(val)), state_m(mid2)));
                                    assert(run_expr(p, state_m(mid2), **index, d, answers) == (Ok::<ValueM, RunErr>(value_m(idx)), state_m(mid3)));
                                }
                            }
                            return Err(Error::TypeMismatch { expected: "int", found: idx, span: index.span });
                        },
                    };
                    let len = ctx.heap[cell].len();
                    if k < 0 || (k as u64) >= (len as u64) {
                        proof {
                            assert forall|answers: Seq<Seq<char>>| agrees(ctx.log@, answers) implies #[trigger] run_assigns(p, state_m(ctx0), *stmt, i as int, d, answers) == (Err::<(), RunErr>(RunErr::OutOfBound { len: len as nat, index: k, span: index.span }), state_m(*ctx)) by {
                                assert(run_expr(p, state_m(ctx0), rhs.data@[i as int], d, answers) == (Ok::<ValueM, RunErr>(value_m(rhs_val)), state_m(mid)));
                                assert(run_expr(p, state_m(mid), **expr, d, answers) == (Ok::<ValueM, RunErr>(value_m(val)), state_m(mid2)));
                                assert(run_expr(p, state_m(mid2), **index, d, answers) == (Ok::<ValueM, RunErr>(value_m(idx)), state_m(mid3)));
                                assert(state_m(*ctx).heap[cell as int] == values_m(ctx.heap@[cell as int]@));
                            }
                        }
                        return Err(Error::OutOfBound { index: k, len, span: index.span });
                    }
                    ctx.store(cell, k as usize, rhs_val);
                    proof {
                        assert forall|answers: Seq<Seq<char>>| agrees(ctx.log@, answers) implies #[trigger] run_assigns(p, state_m(ctx0), *stmt, i as int, d, answers) == run_assigns(p, state_m(*ctx), *stmt, i + 1, d, answers) by {
                            assert(run_expr(p, state_m(ctx0), rhs.data@[i as int], d, answers) == (Ok::<ValueM, RunErr>(value_m(rhs_val)), state_m(mid)));
                            assert(run_expr(p, state_m(mid), **expr, d, answers) == (Ok::<ValueM, RunErr>(value_m(val)), state_m(mid2)));
                            assert(run_expr(p, state_m(mid2), **index, d, answers) == (Ok::<ValueM, RunErr>(value_m(idx)), state_m(mid3)));
                            assert(state_m(mid3).heap[cell as int] == values_m(mid3.heap@[cell as int]@));
                        }
                    }
                    Ok(())
                },
                _ => {
                    proof {
                        assert forall|answers: Seq<Seq<char>>| agrees(ctx.log@, answers) implies #[trigger] run_assigns(p, state_m(ctx0), *stmt, i as int, d, answers) == (Err::<(), RunErr>(RunErr::Rejected { message: "assignment to an expression that is not a place", span: l.span }), state_m(*ctx)) by {
                            assert(run_expr(p, state_m(ctx0), rhs.data@[i as int], d, answers) == (Ok::<ValueM, RunErr>(value_m(rhs_val)), state_m(mid)));
                        }
                    }
                    Err(Error::Rejected { message: "assignment to an expression that is not a place", span: l.span })
                },
            }
        },
        _ => Ok(()),
    }
}

/// Runs an `if` statement: the first branch whose condition is true runs, in
/// a new scope.
#[verifier::spinoff_prover]
fn eval_if<'a, H: Host>(
    ctx: &mut Context<'a>,
    host: &mut H,
    stmt: &'a Spanned<Stmt>,
    depth: usize,
) -> (r: Result<(), Error<'a>>)
    requires
        old(ctx).wf(),
        stmt.data is If,
    ensures
        ran_unit(*old(ctx), *final(ctx), r),
        stmt_done(*old(ctx), *final(ctx), *stmt, depth as nat, r),
    decreases depth, stmt, 1int,
{
    match &stmt.data {
        Stmt::If { condition, then_block, .. } => {
            let ghost ctx0 = *ctx;
            let ghost p = ctx0.protos;
            let ghost d = depth as nat;
            let r1 = eval_expr(ctx, host, condition, depth);
            let c = match r1 {
                Ok(v) => v,
                Err(e) => {
                    proof {
                        assert forall|answers: Seq<Seq<char>>| agrees(ctx.log@, answers) implies #[trigger] run_stmt(p, state_m(ctx0), *stmt, d, answers) == (Err::<(), RunErr>(err_m(e)), state_m(*ctx)) by {
                            assert(run_expr(p, state_m(ctx0), **condition, d, answers) == (res_m(r1), state_m(*ctx)));
                        }
                    }
                    return Err(e);
                },
            };
            let ghost mid = *ctx;
            if c.truthy(ctx) {
                let res = eval_block(ctx, host, &then_block.data, depth);
                proof {
                    lemma_extends_trans(ctx0, mid, *ctx);
                    assert forall|answers: Seq<Seq<char>>| agrees(ctx.log@, answers) implies #[trigger] run_stmt(p, state_m(ctx0), *stmt, d, answers) == (unit_m(res), state_m(*ctx)) by {
                        assert(run_expr(p, state_m(ctx0), **condition, d, answers) == (Ok::<ValueM, RunErr>(value_m(c)), state_m(mid)));
                        assert(run_block(p, state_m(mid), then_block.data@, d, answers) == (unit_m(res), state_m(*ctx)));
                    }
                }
                return res;
            }
            let res = eval_else_ifs(ctx, host, stmt, depth);
            proof {
                lemma_extends_trans(ctx0, mid, *ctx);
                assert forall|answers: Seq<Seq<char>>| agrees(ctx.log@, answers) implies #[trigger] run_stmt(p, state_m(ctx0), *stmt, d, answers) == (unit_m(res), state_m(*ctx)) by {
                    assert(run_expr(p, state_m(ctx0), **condition, d, answers) == (Ok::<ValueM, RunErr>(value_m(c)), state_m(mid)));
                    assert(run_else_ifs(p, state_m(mid), *stmt, 0, d, answers) == (unit_m(res), state_m(*ctx)));
                }
            }
            res
        },
        _ => Ok(()),
    }
}

/// Runs the first `elseif` clause of an `if` statement whose condition is
/// true, or else its `else` block.
#[verifier::spinoff_prover]
#[verifier::loop_isolation(false)]
fn eval_else_ifs<'a, H: Host>(ctx: &mut Context<'a>, host: &mut H, stmt: &'a Spanned<Stmt>, depth: usize) -> (r: Result<
    (),
    Error<'a>,
>)
    requires
        old(ctx).wf(),
    ensures
        ran_unit(*old(ctx), *final(ctx), r),
        else_ifs_done(*old(ctx), *final(ctx), *stmt, depth as nat, r),
    decreases depth, stmt, 0int,
{
    let ghost ctx0 = *ctx;
    let ghost p = ctx0.protos;
    let ghost d = depth as nat;
    match &stmt.data {
        Stmt::If { else_if_blocks, else_block, .. } => {
                let mut i: usize = 0;
                while i < else_if_blocks.len()
                    invariant
                        i <= else_if_blocks@.len(),
                        ctx.extends(ctx0),
                        ctx.scopes@.len() >= ctx0.scopes@.len(),
                        forall|answers: Seq<Seq<char>>|
                            agrees(ctx.log@, answers) ==> #[trigger] run_else_ifs(p, state_m(ctx0), *stmt, 0, d, answers)
                                == run_else_ifs(p, state_m(*ctx), *stmt, i as int, d, answers),
                    decreases else_if_blocks@.len() - i,
                {
                    proof {
                        vstd::std_specs::vec::axiom_vec_index_decreases(*else_if_blocks, i as int);
                    }
                    let (condition, then_block) = &else_if_blocks[i];
                    let ghost mid = *ctx;
                    let r1 = eval_expr(ctx, host, condition, depth);
                    proof {
                        lemma_extends_trans(ctx0, mid, *ctx);
                    }
                    let c = match r1 {
                        Ok(v) => v,
                        Err(e) => {
                            proof {
                                assert forall|answers: Seq<Seq<char>>| agrees(ctx.log@, answers) implies #[trigger] run_else_ifs(p, state_m(ctx0), *stmt, 0, d, answers) == (Err::<(), RunErr>(err_m(e)), state_m(*ctx)) by {
                                    assert(run_else_ifs(p, state_m(ctx0), *stmt, 0, d, answers) == run_else_ifs(p, state_m(mid), *stmt, i as int, d, answers));
                                    assert(run_expr(p, state_m(mid), else_if_blocks@[i as int].0, d, answers) == (res_m(r1), state_m(*ctx)));
                                }
                            }
                            return Err(e);
                        },
                    };
                    let ghost mid2 = *ctx;
                    if c.truthy(ctx) {
                        let res = eval_block(ctx, host, &then_block.data, depth);
                        proof {
                            lemma_extends_trans(ctx0, mid2, *ctx);
                            assert forall|answers: Seq<Seq<char>>| agrees(ctx.log@, answers) implies #[trigger] run_else_ifs(p, state_m(ctx0), *stmt, 0, d, answers) == (unit_m(res), state_m(*ctx)) by {
                                assert(run_else_ifs(p, state_m(ctx0), *stmt, 0, d, answers) == run_else_ifs(p, state_m(mid), *stmt, i as int, d, answers));
                                assert(run_expr(p, state_m(mid), else_if_blocks@[i as int].0, d, answers) == (Ok::<ValueM, RunErr>(value_m(c)), state_m(mid2)));
                                assert(run_block(p, state_m(mid2), else_if_blocks@[i as int].1.data@, d, answers) == (unit_m(res), state_m(*ctx)));
                            }
                        }
                        return res;
                    }
                    proof {
                        assert forall|answers: Seq<Seq<char>>| agrees(ctx.log@, answers) implies #[trigger] run_else_ifs(p, state_m(ctx0), *stmt, 0, d, answers) == run_else_ifs(p, state_m(*ctx), *stmt, i + 1, d, answers) by {
                            assert(run_else_ifs(p, state_m(ctx0), *stmt, 0, d, answers) == run_else_ifs(p, state_m(mid), *stmt, i as int, d, answers));
                            assert(run_expr(p, state_m(mid), else_if_blocks@[i as int].0, d, answers) == (Ok::<ValueM, RunErr>(value_m(c)), state_m(mid2)));
                        }
                    }
                    i += 1;
                }
                let ghost mid = *ctx;
                if let Some(else_block) = else_block {
                    let res = eval_block(ctx, host, &else_block.data, depth);
                    proof {
                        lemma_extends_trans(ctx0, mid, *ctx);
                        assert forall|answers: Seq<Seq<char>>| agrees(ctx.log@, answers) implies #[trigger] run_else_ifs(p, state_m(ctx0), *stmt, 0, d, answers) == (unit_m(res), state_m(*ctx)) by {
                            assert(run_else_ifs(p, state_m(ctx0), *stmt, 0, d, answers) == run_else_ifs(p, state_m(mid), *stmt, i as int, d, answers));
                            assert(run_block(p, state_m(mid), else_block.data@, d, answers) == (unit_m(res), state_m(*ctx)));
                        }
                    }
                    return res;
                }
                proof {
                    assert forall|answers: Seq<Seq<char>>| agrees(ctx.log@, answers) implies #[trigger] run_else_ifs(p, state_m(ctx0), *stmt, 0, d, answers) == (Ok::<(), RunErr>(()), state_m(*ctx)) by {
                        assert(run_else_ifs(p, state_m(ctx0), *stmt, 0, d, answers) == run_else_ifs(p, state_m(mid), *stmt, i as int, d, answers));
                    }
                }
                Ok(())
        },
        _ => Ok(()),
    }
}

/// The scope of the built-in functions.
fn builtin_values<'a>() -> (r: Scope<'a>)
    ensures
        forall|k: int| 0 <= k < r@.len() ==> (#[trigger] r@[k]).1 is FFI,
        scope_vm(r@) == builtins_v(),
{
    let mut global: Scope<'a> = Vec::new();
    global.push(("print".to_owned(), Value::FFI(Builtin::Print)));
    global.push(("test".to_owned(), Value::FFI(Builtin::Test)));
    global.push(("exec".to_owned(), Value::FFI(Builtin::Exec)));
    global.push(("exit".to_owned(), Value::FFI(Builtin::Exit)));
    assert(scope_vm(global@) =~= builtins_v());
    global
}

/// Runs a program with the struct layouts that checking it gave, and gives
/// the state it ends in.
pub fn run<'a, H: Host>(protos: Prototypes, stmts: &'a Vec<Spanned<Stmt>>, host: &mut H) -> (r: Result<Context<'a>, Error<'a>>)
    ensures
        r matches Ok(ctx) ==> {
            &&& ctx.wf()
            &&& ctx.protos == protos
            &&& forall|answers: Seq<Seq<char>>|
                agrees(ctx.log@, answers) ==> #[trigger] run_program(protos, stmts@, answers) == (
                    Ok::<(), RunErr>(()),
                    state_m(ctx),
                )
        },
        r matches Err(e) ==> exists|log: Seq<(Seq<Seq<char>>, Seq<char>)>|
            #![trigger log.len()]
            forall|answers: Seq<Seq<char>>|
                agrees(log, answers) ==> #[trigger] run_program(protos, stmts@, answers).0 == Err::<(), RunErr>(
                    err_m(e),
                ),
{
    let global = builtin_values();
    let mut scopes: Vec<Scope<'a>> = Vec::new();
    scopes.push(global);
    let mut ctx = Context { protos, scopes, heap: Vec::new(), tables: Vec::new(), log: Ghost(Seq::empty()) };
    assert(ctx.wf());
    proof {
        assert(scopes_vm(ctx.scopes@) =~= seq![builtins_v()]);
        assert(heap_m(ctx.heap@) =~= Seq::empty());
        assert(tables_m(ctx.tables@) =~= Seq::empty());
        assert(state_m(ctx) == initial_m());
    }
    let ghost ctx0 = ctx;
    let res = eval_stmts(&mut ctx, host, stmts, MAX_CALL_DEPTH);
    match res {
        Ok(()) => {
            proof {
                assert forall|answers: Seq<Seq<char>>| agrees(ctx.log@, answers) implies #[trigger] run_program(
                    protos,
                    stmts@,
                    answers,
                ) == (Ok::<(), RunErr>(()), state_m(ctx)) by {
                    assert(run_stmts(ctx0.protos, state_m(ctx0), stmts@, 0, MAX_CALL_DEPTH as nat, answers) == (
                        Ok::<(), RunErr>(()),
                        state_m(ctx),
                    ));
                }
            }
            Ok(ctx)
        },
        Err(e) => {
            proof {
                assert forall|answers: Seq<Seq<char>>| agrees(ctx.log@, answers) implies #[trigger] run_program(
                    protos,
                    stmts@,
                    answers,
                ).0 == Err::<(), RunErr>(err_m(e)) by {
                    assert(run_stmts(ctx0.protos, state_m(ctx0), stmts@, 0, MAX_CALL_DEPTH as nat, answers) == (
                        Err::<(), RunErr>(err_m(e)),
                        state_m(ctx),
                    ));
                }
                assert(ctx.log@.len() == ctx.log@.len());
            }
            Err(e)
        },
    }
}

} // verus!
