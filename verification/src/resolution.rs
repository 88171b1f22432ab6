use vstd::prelude::*;

use crate::ast::{self, binop_name, unop_name, BinOp, Expr, FieldConstructor, FuncBody, Stmt, UnOp};
use crate::source::{span_text, Source, Span, Spanned};
use crate::text::{decimal, push_repeat, push_str, repeat_char, string_is, usize_to_string};
use crate::semantics::{offset_from, offset_m, size_from, size_m};
use crate::typing::{
    check_args, check_assigns, check_bindings, check_block, check_call, check_cond, check_else_ifs,
    check_err_m, check_expr, check_fields, check_func, check_list, check_stmt, check_stmts, ctx_m,
    lemma_bind_local_m, lemma_last_scope_m, lemma_push_scope_m, params_s, stmt_checked, builtin_scope_m,
    check_program, collect_defs, fields_s, first_undefined, ScopeM,
    expr_checked, lemma_lookup_m, lemma_proto_index, lemma_scope_m, proto_index, protos_m, ret_m,
    scope_m, scopes_m, with_names, CheckErr, CtxM,
};

verus! {

pub type TypeId = usize;

/// A type: `nesting` levels of list around `inner`.
#[derive(Debug)]
pub struct NType {
    pub nesting: usize,
    pub inner: Type,
}

#[derive(Debug)]
pub enum Type {
    Any,
    Nil,
    Boolean,
    Float,
    Integer,
    String,
    Struct(TypeId),
    Func { args: Vec<NType>, ret: Box<NType> },
}

/// The mathematical value of a type.
pub struct NTypeModel {
    pub nesting: nat,
    pub inner: TypeModel,
}

pub enum TypeModel {
    Any,
    Nil,
    Boolean,
    Float,
    Integer,
    String,
    Struct(nat),
    Func(Seq<NTypeModel>, Box<NTypeModel>),
}

pub open spec fn ntype_model(t: NType) -> NTypeModel
    decreases t,
{
    NTypeModel { nesting: t.nesting as nat, inner: type_model(t.inner) }
}

pub open spec fn type_model(t: Type) -> TypeModel
    decreases t,
{
    match t {
        Type::Any => TypeModel::Any,
        Type::Nil => TypeModel::Nil,
        Type::Boolean => TypeModel::Boolean,
        Type::Float => TypeModel::Float,
        Type::Integer => TypeModel::Integer,
        Type::String => TypeModel::String,
        Type::Struct(id) => TypeModel::Struct(id as nat),
        Type::Func { args, ret } => TypeModel::Func(
            args_model(args@),
            Box::new(ntype_model(*ret)),
        ),
    }
}

pub open spec fn args_model(args: Seq<NType>) -> Seq<NTypeModel>
    decreases args,
{
    if args.len() == 0 {
        Seq::empty()
    } else {
        args_model(args.drop_last()).push(ntype_model(args.last()))
    }
}

impl View for NType {
    type V = NTypeModel;

    open spec fn view(&self) -> NTypeModel {
        ntype_model(*self)
    }
}

pub proof fn lemma_args_model(args: Seq<NType>)
    ensures
        args_model(args).len() == args.len(),
        forall|i: int| 0 <= i < args.len() ==> #[trigger] args_model(args)[i] == ntype_model(args[i]),
    decreases args.len(),
{
    if args.len() > 0 {
        lemma_args_model(args.drop_last());
        assert forall|i: int| 0 <= i < args.len() implies #[trigger] args_model(args)[i] == ntype_model(args[i]) by {
            if i < args.len() - 1 {
                assert(args.drop_last()[i] == args[i]);
            }
        }
    }
}

/// A type with no list around it.
pub open spec fn plain(inner: TypeModel) -> NTypeModel {
    NTypeModel { nesting: 0, inner }
}

/// Whether a value of type `found` may stand where `expected` is asked for:
/// the same list nesting, and the same type, or `*` expected, or one of the
/// two number types for the other.
pub open spec fn can_coerce_spec(expected: NTypeModel, found: NTypeModel) -> bool {
    &&& expected.nesting == found.nesting
    &&& {
        ||| expected.inner == found.inner
        ||| expected.inner is Any
        ||| (expected.inner is Integer && found.inner is Float)
        ||| (expected.inner is Float && found.inner is Integer)
    }
}

/// How a type is written: a bracket pair for each level of list around the
/// inner type.
pub open spec fn ntype_text(t: NTypeModel) -> Seq<char>
    decreases t, 1int,
{
    repeat_char('[', t.nesting) + type_text(t.inner) + repeat_char(']', t.nesting)
}

/// How an inner type is written: its name, `*` for any type, `#` and the id
/// for a struct type, and `fn(args)` with `:` and the return type unless that
/// is `nil` for a function type.
pub open spec fn type_text(t: TypeModel) -> Seq<char>
    decreases t, 1int,
{
    match t {
        TypeModel::Any => "*"@,
        TypeModel::Nil => "nil"@,
        TypeModel::Boolean => "bool"@,
        TypeModel::Float => "float"@,
        TypeModel::Integer => "int"@,
        TypeModel::String => "str"@,
        TypeModel::Struct(id) => "#"@ + decimal(id as int),
        TypeModel::Func(args, ret) => "fn("@ + args_text(args, 0) + ")"@ + if *ret == plain(TypeModel::Nil) {
            Seq::<char>::empty()
        } else {
            ":"@ + ntype_text(*ret)
        },
    }
}

/// The argument types from the `i`-th on, separated by commas.
pub open spec fn args_text(args: Seq<NTypeModel>, i: int) -> Seq<char>
    decreases args, args.len() - i,
{
    if i < 0 || i >= args.len() {
        Seq::empty()
    } else {
        (if i != 0 { ","@ } else { Seq::<char>::empty() }) + ntype_text(args[i]) + args_text(args, i + 1)
    }
}

/// Every type can stand where it is itself asked for.
pub proof fn law_can_coerce_reflexive(t: NTypeModel)
    ensures
        can_coerce_spec(t, t),
{
}

pub fn plain_type(inner: Type) -> (r: NType)
    ensures
        r@ == plain(type_model(inner)),
{
    NType { nesting: 0, inner }
}

impl NType {
    /// A copy of the type.
    pub fn duplicate(&self) -> (r: NType)
        ensures
            r@ == self@,
        decreases self,
    {
        NType { nesting: self.nesting, inner: self.inner.duplicate() }
    }

    /// Whether both types are the same.
    pub fn same_as(&self, other: &NType) -> (r: bool)
        ensures
            r == (self@ == other@),
        decreases self,
    {
        if self.nesting != other.nesting {
            return false;
        }
        self.inner.same_as(&other.inner)
    }

    /// Whether a value of type `other` may stand where `self` is asked for.
    pub fn can_coerce(&self, other: &NType) -> (r: bool)
        ensures
            r == can_coerce_spec(self@, other@),
    {
        if self.nesting != other.nesting {
            return false;
        }
        if self.inner.same_as(&other.inner) {
            return true;
        }
        match (&self.inner, &other.inner) {
            (Type::Any, _) => true,
            (Type::Integer, Type::Float) => true,
            (Type::Float, Type::Integer) => true,
            _ => false,
        }
    }
}

impl NType {
    /// The type as written.
    pub fn text(&self) -> (r: String)
        ensures
            r@ == ntype_text(self@),
        decreases self,
    {
        let mut out = String::new();
        push_repeat(&mut out, '[', self.nesting);
        push_str(&mut out, self.inner.text().as_str());
        push_repeat(&mut out, ']', self.nesting);
        assert(out@ =~= ntype_text(self@));
        out
    }
}

impl Type {
    #[verifier::loop_isolation(false)]
    pub fn duplicate(&self) -> (r: Type)
        ensures
            type_model(r) == type_model(*self),
        decreases self,
    {
        match self {
            Type::Any => Type::Any,
            Type::Nil => Type::Nil,
            Type::Boolean => Type::Boolean,
            Type::Float => Type::Float,
            Type::Integer => Type::Integer,
            Type::String => Type::String,
            Type::Struct(id) => Type::Struct(*id),
            Type::Func { args, ret } => {
                let mut copy: Vec<NType> = Vec::new();
                let mut i: usize = 0;
                while i < args.len()
                    invariant
                        i <= args@.len(),
                        copy@.len() == i,
                        forall|j: int| 0 <= j < i ==> #[trigger] ntype_model(copy@[j]) == ntype_model(args@[j]),
                    decreases args@.len() - i,
                {
                    proof {
                        vstd::std_specs::vec::axiom_vec_index_decreases(*args, i as int);
                    }
                    copy.push(args[i].duplicate());
                    i += 1;
                }
                proof {
                    lemma_args_model(copy@);
                    lemma_args_model(args@);
                    assert(args_model(copy@) =~= args_model(args@));
                }
                Type::Func { args: copy, ret: Box::new(ret.duplicate()) }
            },
        }
    }

    /// The inner type as written.
    #[verifier::loop_isolation(false)]
    pub fn text(&self) -> (r: String)
        ensures
            r@ == type_text(type_model(*self)),
        decreases self,
    {
        match self {
            Type::Any => "*".to_owned(),
            Type::Nil => "nil".to_owned(),
            Type::Boolean => "bool".to_owned(),
            Type::Float => "float".to_owned(),
            Type::Integer => "int".to_owned(),
            Type::String => "str".to_owned(),
            Type::Struct(id) => {
                let mut out = "#".to_owned();
                push_str(&mut out, usize_to_string(*id).as_str());
                out
            },
            Type::Func { args, ret } => {
                let ghost am = args_model(args@);
                proof {
                    lemma_args_model(args@);
                }
                let mut out = "fn(".to_owned();
                let ghost start = out@;
                let mut i: usize = 0;
                while i < args.len()
                    invariant
                        i <= args@.len(),
                        am.len() == args@.len(),
                        out@ + args_text(am, i as int) == start + args_text(am, 0),
                    decreases args@.len() - i,
                {
                    proof {
                        vstd::std_specs::vec::axiom_vec_index_decreases(*args, i as int);
                    }
                    let ghost before = out@;
                    if i != 0 {
                        push_str(&mut out, ",");
                    }
                    push_str(&mut out, args[i].text().as_str());
                    assert(am[i as int] == args@[i as int]@);
                    assert(out@ + args_text(am, i + 1) =~= before + args_text(am, i as int));
                    i += 1;
                }
                assert(out@ =~= start + args_text(am, 0));
                push_str(&mut out, ")");
                let nil = NType { nesting: 0, inner: Type::Nil };
                if !ret.same_as(&nil) {
                    push_str(&mut out, ":");
                    push_str(&mut out, ret.text().as_str());
                }
                out
            },
        }
    }

    #[verifier::loop_isolation(false)]
    pub fn same_as(&self, other: &Type) -> (r: bool)
        ensures
            r == (type_model(*self) == type_model(*other)),
        decreases self,
    {
        match (self, other) {
            (Type::Any, Type::Any) => true,
            (Type::Nil, Type::Nil) => true,
            (Type::Boolean, Type::Boolean) => true,
            (Type::Float, Type::Float) => true,
            (Type::Integer, Type::Integer) => true,
            (Type::String, Type::String) => true,
            (Type::Struct(a), Type::Struct(b)) => *a == *b,
            (Type::Func { args: a1, ret: r1 }, Type::Func { args: a2, ret: r2 }) => {
                proof {
                    lemma_args_model(a1@);
                    lemma_args_model(a2@);
                }
                if a1.len() != a2.len() {
                    return false;
                }
                let mut i: usize = 0;
                while i < a1.len()
                    invariant
                        i <= a1@.len(),
                        a1@.len() == a2@.len(),
                        args_model(a1@).len() == a1@.len(),
                        args_model(a2@).len() == a2@.len(),
                        forall|j: int| 0 <= j < a1@.len() ==> #[trigger] args_model(a1@)[j] == ntype_model(a1@[j]),
                        forall|j: int| 0 <= j < a2@.len() ==> #[trigger] args_model(a2@)[j] == ntype_model(a2@[j]),
                        forall|j: int| 0 <= j < i ==> ntype_model(#[trigger] a1@[j]) == ntype_model(a2@[j]),
                    decreases a1@.len() - i,
                {
                    proof {
                        vstd::std_specs::vec::axiom_vec_index_decreases(*a1, i as int);
                    }
                    if !a1[i].same_as(&a2[i]) {
                        assert(args_model(a1@)[i as int] != args_model(a2@)[i as int]);
                        return false;
                    }
                    i += 1;
                }
                assert(args_model(a1@) =~= args_model(a2@));
                r1.same_as(r2)
            },
            _ => false,
        }
    }
}

#[derive(Debug)]
pub enum Error {
    MissingTypeDefinition { name: String },
    Unbound { ident: String, span: Span },
    Mismatch { expected: NType, found: NType, span: Span },
    ExpectedFunction { found: NType, span: Span },
    UnexpectedField { ident: String, span: Span },
    InvalidTypeForUnOp { op: UnOp, expr: Spanned<NType> },
    InvalidTypeForBinOp { op: BinOp, lhs: Spanned<NType>, rhs: Spanned<NType> },
    WrongNumberOfElements { expected: usize, found: usize, span: Span },
    MalformedControlFow { span: Span },
    /// A program that the checker does not handle: a numeric `for`, a table,
    /// an empty list, a name bound twice in one scope, a type defined twice or
    /// used without definition, a member or index on a value that has none.
    Rejected { message: &'static str, span: Span },
}

/// The report of a checking error: what went wrong and where.
pub open spec fn check_error_text(s: Seq<char>, name: Seq<char>, e: Error) -> Seq<char> {
    match e {
        Error::MalformedControlFow { span } => "error: malformed control flow\n"@ + span_text(s, name, span),
        Error::WrongNumberOfElements { expected, found, span } => "error: expected "@ + decimal(
            expected as int,
        ) + " elements, but found "@ + decimal(found as int) + "\n"@ + span_text(s, name, span),
        Error::MissingTypeDefinition { name: n } => "error: missing type definition for `"@ + n@
            + "`\n"@,
        Error::Unbound { ident, span } => "error: unbound ident `"@ + ident@ + "`\n"@ + span_text(
            s,
            name,
            span,
        ),
        Error::InvalidTypeForUnOp { op, expr } => "error: cannot apply `"@ + unop_name(op)
            + "` on type `"@ + ntype_text(expr.data@) + "`\n"@ + span_text(s, name, expr.span),
        Error::InvalidTypeForBinOp { op, lhs, rhs } => "error: cannot apply `"@ + binop_name(op)
            + "` between type `"@ + ntype_text(lhs.data@) + "` and type `"@ + ntype_text(rhs.data@)
            + "`\n"@ + span_text(s, name, lhs.span) + span_text(s, name, rhs.span),
        Error::Mismatch { expected, found, span } => "error: expected `"@ + ntype_text(expected@)
            + "`, found `"@ + ntype_text(found@) + "`\n"@ + span_text(s, name, span),
        Error::ExpectedFunction { found, span } => "error: expected function, found `"@ + ntype_text(
            found@,
        ) + "`\n"@ + span_text(s, name, span),
        Error::UnexpectedField { ident, span } => "error: unexpected field `"@ + ident@ + "`\n"@
            + span_text(s, name, span),
        Error::Rejected { message, span } => "error: "@ + message@ + "\n"@ + span_text(s, name, span),
    }
}

impl Error {
    /// Reports the error.
    pub fn pretty_print(&self, source: &Source) -> (r: String)
        requires
            source@.len() < usize::MAX,
        ensures
            r@ == check_error_text(source@, source.name@, *self),
    {
        match self {
            Error::MalformedControlFow { span } => {
                let mut out = "error: malformed control flow\n".to_owned();
                push_str(&mut out, source.print_span(*span).as_str());
                out
            },
            Error::WrongNumberOfElements { expected, found, span } => {
                let mut out = "error: expected ".to_owned();
                push_str(&mut out, usize_to_string(*expected).as_str());
                push_str(&mut out, " elements, but found ");
                push_str(&mut out, usize_to_string(*found).as_str());
                push_str(&mut out, "\n");
                push_str(&mut out, source.print_span(*span).as_str());
                out
            },
            Error::MissingTypeDefinition { name } => {
                let mut out = "error: missing type definition for `".to_owned();
                push_str(&mut out, name.as_str());
                push_str(&mut out, "`\n");
                out
            },
            Error::Unbound { ident, span } => {
                let mut out = "error: unbound ident `".to_owned();
                push_str(&mut out, ident.as_str());
                push_str(&mut out, "`\n");
                push_str(&mut out, source.print_span(*span).as_str());
                out
            },
            Error::InvalidTypeForUnOp { op, expr } => {
                let mut out = "error: cannot apply `".to_owned();
                push_str(&mut out, op.name());
                push_str(&mut out, "` on type `");
                push_str(&mut out, expr.data.text().as_str());
                push_str(&mut out, "`\n");
                push_str(&mut out, source.print_span(expr.span).as_str());
                out
            },
            Error::InvalidTypeForBinOp { op, lhs, rhs } => {
                let mut out = "error: cannot apply `".to_owned();
                push_str(&mut out, op.name());
                push_str(&mut out, "` between type `");
                push_str(&mut out, lhs.data.text().as_str());
                push_str(&mut out, "` and type `");
                push_str(&mut out, rhs.data.text().as_str());
                push_str(&mut out, "`\n");
                push_str(&mut out, source.print_span(lhs.span).as_str());
                push_str(&mut out, source.print_span(rhs.span).as_str());
                out
            },
            Error::Mismatch { expected, found, span } => {
                let mut out = "error: expected `".to_owned();
                push_str(&mut out, expected.text().as_str());
                push_str(&mut out, "`, found `");
                push_str(&mut out, found.text().as_str());
                push_str(&mut out, "`\n");
                push_str(&mut out, source.print_span(*span).as_str());
                out
            },
            Error::ExpectedFunction { found, span } => {
                let mut out = "error: expected function, found `".to_owned();
                push_str(&mut out, found.text().as_str());
                push_str(&mut out, "`\n");
                push_str(&mut out, source.print_span(*span).as_str());
                out
            },
            Error::UnexpectedField { ident, span } => {
                let mut out = "error: unexpected field `".to_owned();
                push_str(&mut out, ident.as_str());
                push_str(&mut out, "`\n");
                push_str(&mut out, source.print_span(*span).as_str());
                out
            },
            Error::Rejected { message, span } => {
                let mut out = "error: ".to_owned();
                push_str(&mut out, message);
                push_str(&mut out, "\n");
                push_str(&mut out, source.print_span(*span).as_str());
                out
            },
        }
    }
}

/// The fields of a struct type, in declaration order.
#[derive(Debug)]
pub struct StructProto {
    pub fields: Vec<(String, NType)>,
}

/// Where each field of each struct type is stored, and how many fields each
/// struct type has.
#[derive(Debug)]
pub struct Prototypes {
    pub offsets: Vec<((String, String), usize)>,
    pub sizes: Vec<(String, usize)>,
}

pub type Scope = Vec<(String, NType)>;

/// What the checker knows: the struct type names (a type's id is its
/// position), the struct definitions by id, and the scopes, innermost last.
#[derive(Debug)]
pub struct Context {
    pub names: Vec<String>,
    pub protos: Vec<(TypeId, StructProto)>,
    pub scopes: Vec<Scope>,
}

/// The characters of each string.
pub open spec fn strings_model(v: Seq<String>) -> Seq<Seq<char>> {
    v.map_values(|s: String| s@)
}

/// Position of the first occurrence of `x` in `keys`, or -1.
pub open spec fn key_index(keys: Seq<Seq<char>>, x: Seq<char>) -> int
    decreases keys.len(),
{
    if keys.len() == 0 {
        -1
    } else {
        let k = key_index(keys.drop_last(), x);
        if k >= 0 {
            k
        } else if keys.last() == x {
            keys.len() - 1
        } else {
            -1
        }
    }
}

pub proof fn lemma_key_index(keys: Seq<Seq<char>>, x: Seq<char>)
    ensures
        -1 <= key_index(keys, x) < keys.len(),
        key_index(keys, x) >= 0 ==> keys[key_index(keys, x)] == x,
        key_index(keys, x) >= 0 ==> forall|j: int| 0 <= j < key_index(keys, x) ==> keys[j] != x,
        key_index(keys, x) < 0 ==> forall|j: int| 0 <= j < keys.len() ==> keys[j] != x,
    decreases keys.len(),
{
    if keys.len() > 0 {
        lemma_key_index(keys.drop_last(), x);
        let k = key_index(keys.drop_last(), x);
        assert forall|j: int| 0 <= j < keys.len() - 1 implies keys[j] == keys.drop_last()[j] by {}
    }
}

/// The keys of a scope.
pub open spec fn scope_keys(scope: Seq<(String, NType)>) -> Seq<Seq<char>> {
    scope.map_values(|e: (String, NType)| e.0@)
}

/// The type bound to `x` in a scope.
pub open spec fn scope_lookup(scope: Seq<(String, NType)>, x: Seq<char>) -> Option<NTypeModel> {
    let k = key_index(scope_keys(scope), x);
    if k >= 0 {
        Some(scope[k].1@)
    } else {
        None
    }
}

/// The type bound to `x` in the innermost scope that binds it.
pub open spec fn lookup(scopes: Seq<Scope>, x: Seq<char>) -> Option<NTypeModel>
    decreases scopes.len(),
{
    if scopes.len() == 0 {
        None
    } else {
        match scope_lookup(scopes.last()@, x) {
            Some(t) => Some(t),
            None => lookup(scopes.drop_last(), x),
        }
    }
}

/// A built-in type name: `nil`, `bool`, `float`, `int`, `str`.
pub open spec fn builtin_type(name: Seq<char>) -> Option<TypeModel> {
    if name == seq!['n', 'i', 'l'] {
        Some(TypeModel::Nil)
    } else if name == seq!['b', 'o', 'o', 'l'] {
        Some(TypeModel::Boolean)
    } else if name == seq!['f', 'l', 'o', 'a', 't'] {
        Some(TypeModel::Float)
    } else if name == seq!['i', 'n', 't'] {
        Some(TypeModel::Integer)
    } else if name == seq!['s', 't', 'r'] {
        Some(TypeModel::String)
    } else {
        None
    }
}

/// The type a written type stands for, with the struct names it makes known:
/// a name that is not built in is a struct type whose id is its position in
/// `names`, added at the end when new; a function type without a return type
/// returns `nil`.
pub open spec fn process_type_spec(names: Seq<Seq<char>>, t: ast::Type) -> (Seq<Seq<char>>, NTypeModel)
    decreases t,
{
    match t {
        ast::Type::Named { nesting, name } => {
            let (names2, inner) = match builtin_type(name.data@) {
                Some(b) => (names, b),
                None => {
                    let k = key_index(names, name.data@);
                    if k >= 0 {
                        (names, TypeModel::Struct(k as nat))
                    } else {
                        (names.push(name.data@), TypeModel::Struct(names.len()))
                    }
                },
            };
            (names2, NTypeModel { nesting: nesting as nat, inner })
        },
        ast::Type::Function { nesting, args, ret } => {
            let (names1, a) = process_args_spec(names, args@);
            let (names2, r) = match ret {
                Some(b) => process_type_spec(names1, b.data),
                None => (names1, plain(TypeModel::Nil)),
            };
            (names2, NTypeModel { nesting: nesting as nat, inner: TypeModel::Func(a, Box::new(r)) })
        },
    }
}

/// The types of written argument types, processed left to right.
pub open spec fn process_args_spec(names: Seq<Seq<char>>, args: Seq<Spanned<ast::Type>>) -> (
    Seq<Seq<char>>,
    Seq<NTypeModel>,
)
    decreases args,
{
    if args.len() == 0 {
        (names, Seq::empty())
    } else {
        let (names1, a) = process_args_spec(names, args.drop_last());
        let (names2, t) = process_type_spec(names1, args.last().data);
        (names2, a.push(t))
    }
}

/// Position of the first string equal to `x`.
fn find_string(v: &Vec<String>, x: &String) -> (r: Option<usize>)
    ensures
        match r {
            Some(i) => key_index(strings_model(v@), x@) == i,
            None => key_index(strings_model(v@), x@) < 0,
        },
{
    let ghost keys = strings_model(v@);
    proof {
        lemma_key_index(keys, x@);
    }
    let mut i: usize = 0;
    while i < v.len()
        invariant
            i <= v@.len(),
            keys == strings_model(v@),
            keys.len() == v@.len(),
            forall|j: int| 0 <= j < i ==> keys[j] != x@,
            -1 <= key_index(keys, x@) < keys.len(),
            key_index(keys, x@) >= 0 ==> keys[key_index(keys, x@)] == x@,
            key_index(keys, x@) >= 0 ==> forall|j: int| 0 <= j < key_index(keys, x@) ==> keys[j] != x@,
            key_index(keys, x@) < 0 ==> forall|j: int| 0 <= j < keys.len() ==> keys[j] != x@,
        decreases v@.len() - i,
    {
        if v[i] == *x {
            assert(keys[i as int] == x@);
            return Some(i);
        }
        i += 1;
    }
    None
}

/// Position of the first entry of a scope whose key is `x`.
fn find_key(scope: &Vec<(String, NType)>, x: &String) -> (r: Option<usize>)
    ensures
        match r {
            Some(i) => key_index(scope_keys(scope@), x@) == i,
            None => key_index(scope_keys(scope@), x@) < 0,
        },
{
    let ghost keys = scope_keys(scope@);
    proof {
        lemma_key_index(keys, x@);
    }
    let mut i: usize = 0;
    while i < scope.len()
        invariant
            i <= scope@.len(),
            keys == scope_keys(scope@),
            keys.len() == scope@.len(),
            forall|j: int| 0 <= j < i ==> keys[j] != x@,
            -1 <= key_index(keys, x@) < keys.len(),
            key_index(keys, x@) >= 0 ==> keys[key_index(keys, x@)] == x@,
            key_index(keys, x@) >= 0 ==> forall|j: int| 0 <= j < key_index(keys, x@) ==> keys[j] != x@,
            key_index(keys, x@) < 0 ==> forall|j: int| 0 <= j < keys.len() ==> keys[j] != x@,
        decreases scope@.len() - i,
    {
        if scope[i].0 == *x {
            assert(keys[i as int] == x@);
            return Some(i);
        }
        i += 1;
    }
    None
}

/// The built-in type that a name stands for.
fn builtin(name: &String) -> (r: Option<Type>)
    ensures
        match r {
            Some(t) => builtin_type(name@) == Some(type_model(t)),
            None => builtin_type(name@) is None,
        },
{
    if string_is(name, &['n', 'i', 'l']) {
        Some(Type::Nil)
    } else if string_is(name, &['b', 'o', 'o', 'l']) {
        Some(Type::Boolean)
    } else if string_is(name, &['f', 'l', 'o', 'a', 't']) {
        Some(Type::Float)
    } else if string_is(name, &['i', 'n', 't']) {
        Some(Type::Integer)
    } else if string_is(name, &['s', 't', 'r']) {
        Some(Type::String)
    } else {
        None
    }
}

/// Turns a written type into a type, making new struct names known.
#[verifier::loop_isolation(false)]
pub fn process_type(names: &mut Vec<String>, typ: &ast::Type) -> (r: NType)
    ensures
        (strings_model(final(names)@), r@) == process_type_spec(strings_model(old(names)@), *typ),
    decreases typ,
{
    match typ {
        ast::Type::Named { nesting, name } => {
            let inner = match builtin(&name.data) {
                Some(t) => t,
                None => match find_string(names, &name.data) {
                    Some(id) => Type::Struct(id),
                    None => {
                        let id = names.len();
                        let ghost before = names@;
                        names.push(name.data.clone());
                        assert(strings_model(names@) =~= strings_model(before).push(name.data@));
                        Type::Struct(id)
                    },
                },
            };
            NType { nesting: *nesting, inner }
        },
        ast::Type::Function { nesting, args, ret } => {
            let ghost names0 = strings_model(names@);
            let mut out: Vec<NType> = Vec::new();
            let mut i: usize = 0;
            while i < args.len()
                invariant
                    i <= args@.len(),
                    (strings_model(names@), args_model(out@)) == process_args_spec(
                        names0,
                        args@.take(i as int),
                    ),
                decreases args@.len() - i,
            {
                let ghost names_before = strings_model(names@);
                let ghost out_before = out@;
                proof {
                    vstd::std_specs::vec::axiom_vec_index_decreases(*args, i as int);
                }
                let t = process_type(names, &args[i].data);
                out.push(t);
                proof {
                    let pre = args@.take(i + 1);
                    assert(pre.drop_last() =~= args@.take(i as int));
                    assert(pre.last() == args@[i as int]);
                    assert(out@.drop_last() =~= out_before);
                    assert(out@.last() == t);
                    assert(args_model(out@) == args_model(out_before).push(ntype_model(t)));
                }
                i += 1;
            }
            assert(args@.take(args@.len() as int) =~= args@);
            let ret = match ret {
                Some(b) => process_type(names, &b.data),
                None => NType { nesting: 0, inner: Type::Nil },
            };
            NType { nesting: *nesting, inner: Type::Func { args: out, ret: Box::new(ret) } }
        },
    }
}

impl Context {
    /// There is always a scope to bind names in.
    pub open spec fn wf(&self) -> bool {
        self.scopes@.len() > 0
    }

    fn push(&mut self)
        ensures
            final(self).scopes@.len() == old(self).scopes@.len() + 1,
            final(self).scopes@.drop_last() == old(self).scopes@,
            final(self).scopes@.last()@ == Seq::<(String, NType)>::empty(),
            final(self).names == old(self).names,
            final(self).protos == old(self).protos,
    {
        self.scopes.push(Vec::new());
        assert(self.scopes@.drop_last() =~= old(self).scopes@);
    }

    fn pop(&mut self)
        ensures
            final(self).scopes@ == if old(self).scopes@.len() > 0 {
                old(self).scopes@.drop_last()
            } else {
                old(self).scopes@
            },
            final(self).names == old(self).names,
            final(self).protos == old(self).protos,
    {
        self.scopes.pop();
    }

    /// The type bound to `ident` in the innermost scope that binds it.
    pub fn get(&self, ident: &String, span: Span) -> (r: Result<&NType, Error>)
        ensures
            match lookup(self.scopes@, ident@) {
                Some(t) => r matches Ok(x) && x@ == t,
                None => r matches Err(Error::Unbound { ident: i, span: sp }) && i@ == ident@ && sp
                    == span,
            },
    {
        let mut i = self.scopes.len();
        assert(self.scopes@.take(i as int) =~= self.scopes@);
        while i > 0
            invariant
                i <= self.scopes@.len(),
                lookup(self.scopes@, ident@) == lookup(self.scopes@.take(i as int), ident@),
            decreases i,
        {
            let scope = &self.scopes[i - 1];
            assert(self.scopes@.take(i as int).last() == *scope);
            proof {
                lemma_key_index(scope_keys(scope@), ident@);
            }
            match find_key(scope, ident) {
                Some(k) => {
                    return Ok(&scope[k].1);
                },
                None => {},
            }
            assert(self.scopes@.take(i as int).drop_last() =~= self.scopes@.take(i - 1));
            i -= 1;
        }
        Err(Error::Unbound { ident: ident.clone(), span })
    }

    /// Binds `ident` to `typ`. A local binding goes into the innermost scope,
    /// where the name must not be bound yet; otherwise the name must already
    /// be bound, to the same type.
    pub fn set(&mut self, local: bool, ident: String, typ: NType, span: Span) -> (r: Result<
        (),
        Error,
    >)
        requires
            old(self).wf(),
        ensures
            final(self).wf(),
            final(self).names == old(self).names,
            final(self).protos == old(self).protos,
            local ==> match scope_lookup(old(self).scopes@.last()@, ident@) {
                Some(_) => r matches Err(Error::Rejected { message: m, span: sp }) && sp == span
                    && m == "a name is bound twice in one scope" && final(self).scopes@ == old(self).scopes@,
                None => {
                    &&& r is Ok
                    &&& final(self).scopes@.len() == old(self).scopes@.len()
                    &&& final(self).scopes@.drop_last() == old(self).scopes@.drop_last()
                    &&& final(self).scopes@.last()@ == old(self).scopes@.last()@.push((ident, typ))
                },
            },
            !local ==> final(self).scopes@ == old(self).scopes@,
            !local ==> match lookup(old(self).scopes@, ident@) {
                Some(t) => if t == typ@ {
                    r is Ok
                } else {
                    r matches Err(Error::Mismatch { expected, found, span: sp }) && expected@ == t
                        && found == typ && sp == span
                },
                None => r matches Err(Error::Unbound { ident: i, span: sp }) && i == ident && sp
                    == span,
            },
    {
        if local {
            let mut scope = self.scopes.pop().unwrap();
            if find_key(&scope, &ident).is_some() {
                self.scopes.push(scope);
                assert(self.scopes@ =~= old(self).scopes@);
                return Err(Error::Rejected { message: "a name is bound twice in one scope", span });
            }
            scope.push((ident, typ));
            self.scopes.push(scope);
            return Ok(());
        }
        let mut i = self.scopes.len();
        assert(self.scopes@.take(i as int) =~= self.scopes@);
        while i > 0
            invariant
                !local,
                i <= self.scopes@.len(),
                self.scopes@ == old(self).scopes@,
                self.names == old(self).names,
                self.protos == old(self).protos,
                self.wf(),
                lookup(self.scopes@, ident@) == lookup(self.scopes@.take(i as int), ident@),
            decreases i,
        {
            let scope = &self.scopes[i - 1];
            assert(self.scopes@.take(i as int).last() == *scope);
            proof {
                lemma_key_index(scope_keys(scope@), ident@);
            }
            match find_key(scope, &ident) {
                Some(k) => {
                    let old_typ = &scope[k].1;
                    if old_typ.same_as(&typ) {
                        return Ok(());
                    }
                    return Err(Error::Mismatch { expected: old_typ.duplicate(), found: typ, span });
                },
                None => {},
            }
            assert(self.scopes@.take(i as int).drop_last() =~= self.scopes@.take(i - 1));
            i -= 1;
        }
        Err(Error::Unbound { ident, span })
    }
}

proof fn lemma_key_index_push(keys: Seq<Seq<char>>, x: Seq<char>)
    requires
        key_index(keys, x) < 0,
    ensures
        key_index(keys.push(x), x) == keys.len(),
{
    assert(keys.push(x).drop_last() =~= keys);
}

/// A name bound locally is found by the next lookup, with the type it was
/// bound to.
pub proof fn law_lookup_after_local_set(before: Seq<Scope>, x: String, t: NType, after: Seq<Scope>)
    requires
        before.len() > 0,
        scope_lookup(before.last()@, x@) is None,
        after.len() == before.len(),
        after.drop_last() == before.drop_last(),
        after.last()@ == before.last()@.push((x, t)),
    ensures
        lookup(after, x@) == Some(t@),
{
    let keys = scope_keys(before.last()@);
    lemma_key_index(keys, x@);
    assert(scope_keys(after.last()@) =~= keys.push(x@));
    lemma_key_index_push(keys, x@);
}

/// The type that a unary operator gives for an operand of type `t`.
pub open spec fn unop_type(op: UnOp, t: NTypeModel) -> Option<NTypeModel> {
    if op is Neg && t == plain(TypeModel::Float) {
        Some(plain(TypeModel::Float))
    } else if op is Neg && t == plain(TypeModel::Integer) {
        Some(plain(TypeModel::Integer))
    } else if op is Not && t == plain(TypeModel::Boolean) {
        Some(plain(TypeModel::Boolean))
    } else {
        None
    }
}

/// Whether `t` is one of the two number types.
pub open spec fn is_number(t: NTypeModel) -> bool {
    t == plain(TypeModel::Integer) || t == plain(TypeModel::Float)
}

/// The type that a binary operator gives for operands of types `l` and `r`:
/// `+` joins a string with anything and two values of one type; arithmetic
/// on numbers gives an integer for two integers and a float otherwise;
/// comparisons of numbers and `and`/`or` of booleans give a boolean.
pub open spec fn binop_type(op: BinOp, l: NTypeModel, r: NTypeModel) -> Option<NTypeModel> {
    if op is Add && l == plain(TypeModel::String) {
        Some(plain(TypeModel::String))
    } else if op is Add && l == r {
        Some(l)
    } else if (op is Add || op is Sub || op is Mul || op is Div) && is_number(l) && is_number(r) {
        if l == plain(TypeModel::Integer) && r == plain(TypeModel::Integer) {
            Some(plain(TypeModel::Integer))
        } else {
            Some(plain(TypeModel::Float))
        }
    } else if (op is EQ || op is NE || op is LT || op is GT || op is LE || op is GE) && is_number(l)
        && is_number(r) {
        Some(plain(TypeModel::Boolean))
    } else if (op is And || op is Or) && l == plain(TypeModel::Boolean) && r == plain(
        TypeModel::Boolean,
    ) {
        Some(plain(TypeModel::Boolean))
    } else {
        None
    }
}

impl NType {
    /// Whether the type is `inner` with no list around it.
    fn is_plain(&self, inner: &Type) -> (r: bool)
        ensures
            r == (self@ == plain(type_model(*inner))),
    {
        self.nesting == 0 && self.inner.same_as(inner)
    }
}

fn unop_type_exec(op: UnOp, t: &NType) -> (r: Option<NType>)
    ensures
        match r {
            Some(x) => unop_type(op, t@) == Some(x@),
            None => unop_type(op, t@) is None,
        },
{
    match op {
        UnOp::Neg => {
            if t.is_plain(&Type::Float) {
                return Some(plain_type(Type::Float));
            }
            if t.is_plain(&Type::Integer) {
                return Some(plain_type(Type::Integer));
            }
            None
        },
        UnOp::Not => {
            if t.is_plain(&Type::Boolean) {
                return Some(plain_type(Type::Boolean));
            }
            None
        },
    }
}

fn binop_type_exec(op: BinOp, l: &NType, r: &NType) -> (res: Option<NType>)
    ensures
        match res {
            Some(x) => binop_type(op, l@, r@) == Some(x@),
            None => binop_type(op, l@, r@) is None,
        },
{
    let l_int = l.is_plain(&Type::Integer);
    let l_num = l_int || l.is_plain(&Type::Float);
    let r_int = r.is_plain(&Type::Integer);
    let r_num = r_int || r.is_plain(&Type::Float);
    match op {
        BinOp::Add => {
            if l.is_plain(&Type::String) {
                return Some(plain_type(Type::String));
            }
            if l.same_as(r) {
                return Some(l.duplicate());
            }
            if l_num && r_num {
                return Some(
                    if l_int && r_int {
                        plain_type(Type::Integer)
                    } else {
                        plain_type(Type::Float)
                    },
                );
            }
            None
        },
        BinOp::Sub | BinOp::Mul | BinOp::Div => {
            if l_num && r_num {
                return Some(
                    if l_int && r_int {
                        plain_type(Type::Integer)
                    } else {
                        plain_type(Type::Float)
                    },
                );
            }
            None
        },
        BinOp::EQ | BinOp::NE | BinOp::LT | BinOp::GT | BinOp::LE | BinOp::GE => {
            if l_num && r_num {
                return Some(plain_type(Type::Boolean));
            }
            None
        },
        BinOp::And | BinOp::Or => {
            if l.is_plain(&Type::Boolean) && r.is_plain(&Type::Boolean) {
                return Some(plain_type(Type::Boolean));
            }
            None
        },
        _ => None,
    }
}

/// A copy of a list of named types.
fn duplicate_fields(v: &Vec<(String, NType)>) -> (r: Vec<(String, NType)>)
    ensures
        r@.len() == v@.len(),
        forall|j: int| 0 <= j < v@.len() ==> #[trigger] r@[j].0 == v@[j].0 && r@[j].1@ == v@[j].1@,
        scope_m(r@) == scope_m(v@),
{
    let mut out: Vec<(String, NType)> = Vec::new();
    let mut i: usize = 0;
    while i < v.len()
        invariant
            i <= v@.len(),
            out@.len() == i,
            forall|j: int| 0 <= j < i ==> #[trigger] out@[j].0 == v@[j].0 && out@[j].1@ == v@[j].1@,
        decreases v@.len() - i,
    {
        out.push((v[i].0.clone(), v[i].1.duplicate()));
        i += 1;
    }
    assert(i == v@.len());
    assert forall|j: int| 0 <= j < v@.len() implies #[trigger] scope_m(out@)[j] == scope_m(v@)[j] by {
        assert(0 <= j < i);
        assert(out@[j].0 == v@[j].0);
        assert(out@[j].1@ == v@[j].1@);
    }
    assert(scope_m(out@) =~= scope_m(v@));
    out
}

/// Position of the definition of struct type `id`.
fn find_proto(protos: &Vec<(TypeId, StructProto)>, id: TypeId) -> (r: Option<usize>)
    ensures
        match r {
            Some(k) => k < protos@.len() && protos@[k as int].0 == id && forall|j: int|
                0 <= j < k ==> protos@[j].0 != id,
            None => forall|j: int| 0 <= j < protos@.len() ==> protos@[j].0 != id,
        },
        match r {
            Some(k) => proto_index(protos_m(protos@), id as nat) == k,
            None => proto_index(protos_m(protos@), id as nat) < 0,
        },
{
    proof {
        lemma_proto_index(protos_m(protos@), id as nat);
    }
    let mut i: usize = 0;
    while i < protos.len()
        invariant
            i <= protos@.len(),
            forall|j: int| 0 <= j < i ==> protos@[j].0 != id,
        decreases protos@.len() - i,
    {
        if protos[i].0 == id {
            proof {
                let pm = protos_m(protos@);
                lemma_proto_index(pm, id as nat);
                assert(pm[i as int].0 == id as nat);
                assert forall|j: int| 0 <= j < i implies pm[j].0 != id as nat by {
                    assert(pm[j].0 == protos@[j].0 as nat);
                }
            }
            return Some(i);
        }
        i += 1;
    }
    proof {
        assert forall|j: int| 0 <= j < protos@.len() implies protos_m(protos@)[j].0 != id as nat by {
            assert(protos_m(protos@)[j].0 == protos@[j].0 as nat);
        }
    }
    None
}

/// What checking an expression that is a literal or a name gives.
pub open spec fn leaf_type(e: Expr, span: Span, scopes: Seq<Scope>, r: Result<NType, Error>) -> bool {
    match e {
        Expr::Nil => r matches Ok(t) && t@ == plain(TypeModel::Nil),
        Expr::True | Expr::False => r matches Ok(t) && t@ == plain(TypeModel::Boolean),
        Expr::Integer(_) => r matches Ok(t) && t@ == plain(TypeModel::Integer),
        Expr::String(_) => r matches Ok(t) && t@ == plain(TypeModel::String),
        Expr::Identifier(x) => match lookup(scopes, x@) {
            Some(t) => r matches Ok(u) && u@ == t,
            None => r matches Err(Error::Unbound { ident, span: sp }) && ident@ == x@ && sp == span,
        },
        Expr::Table { .. } => r matches Err(Error::Rejected { .. }),
        _ => true,
    }
}

/// The checker only learns names and keeps its struct definitions.
pub open spec fn grows(before: Context, after: Context) -> bool {
    &&& after.wf()
    &&& strings_model(before.names@).is_prefix_of(strings_model(after.names@))
    &&& after.protos == before.protos
}

/// Checking statements keeps the scopes outside the innermost one.
pub open spec fn keeps_outer_scopes(before: Context, after: Context) -> bool {
    &&& after.scopes@.len() == before.scopes@.len()
    &&& after.scopes@.drop_last() == before.scopes@.drop_last()
}

proof fn lemma_prefix_trans<A>(a: Seq<A>, b: Seq<A>, c: Seq<A>)
    requires
        a.is_prefix_of(b),
        b.is_prefix_of(c),
    ensures
        a.is_prefix_of(c),
{
    assert forall|i: int| 0 <= i < a.len() implies a[i] == c[i] by {
        assert(a[i] == b[i]);
    }
}

/// Processing a written type only adds struct names after the known ones.
proof fn lemma_process_type_grows(names: Seq<Seq<char>>, t: ast::Type)
    ensures
        names.is_prefix_of(process_type_spec(names, t).0),
    decreases t,
{
    match t {
        ast::Type::Named { .. } => {},
        ast::Type::Function { args, ret, .. } => {
            lemma_process_args_grows(names, args@);
            let n1 = process_args_spec(names, args@).0;
            match ret {
                Some(b) => {
                    lemma_process_type_grows(n1, b.data);
                    lemma_prefix_trans(names, n1, process_type_spec(n1, b.data).0);
                },
                None => {},
            }
        },
    }
}

proof fn lemma_process_args_grows(names: Seq<Seq<char>>, args: Seq<Spanned<ast::Type>>)
    ensures
        names.is_prefix_of(process_args_spec(names, args).0),
    decreases args,
{
    if args.len() > 0 {
        lemma_process_args_grows(names, args.drop_last());
        let n1 = process_args_spec(names, args.drop_last()).0;
        lemma_process_type_grows(n1, args.last().data);
        lemma_prefix_trans(names, n1, process_type_spec(n1, args.last().data).0);
    }
}

/// Checks an expression and gives its type.
#[verifier::loop_isolation(false)]
#[verifier::rlimit(80)]
pub fn eval_expr(ctx: &mut Context, expr: &Spanned<Expr>) -> (r: Result<NType, Error>)
    requires
        old(ctx).wf(),
    ensures
        grows(*old(ctx), *final(ctx)),
        r is Ok ==> final(ctx).scopes@ == old(ctx).scopes@,
        leaf_type(expr.data, expr.span, old(ctx).scopes@, r),
        expr_checked(*old(ctx), *final(ctx), r, check_expr(ctx_m(*old(ctx)), *expr)),
    decreases expr, 0int,
{
    let ghost ctx0 = *ctx;
    let inner = match &expr.data {
        Expr::Nil => Type::Nil,
        Expr::True => Type::Boolean,
        Expr::False => Type::Boolean,
        Expr::Integer(_) => Type::Integer,
        Expr::String(_) => Type::String,
        Expr::List { elements } => {
            if elements.data.len() == 0 {
                return Err(Error::Rejected { message: "an empty list has no type", span: expr.span });
            }
            proof {
                vstd::std_specs::vec::axiom_vec_index_decreases(elements.data, 0);
            }
            let mut base_typ = eval_expr(ctx, &elements.data[0])?;
            let ghost c1 = ctx_m(*ctx);
            let mut i: usize = 1;
            while i < elements.data.len()
                invariant
                    1 <= i <= elements.data@.len(),
                    grows(ctx0, *ctx),
                    ctx.scopes@ == ctx0.scopes@,
                    check_list(ctx_m(*ctx), elements.data@, i as int, base_typ@) == check_list(
                        c1,
                        elements.data@,
                        1,
                        base_typ@,
                    ),
                decreases elements.data@.len() - i,
            {
                proof {
                    vstd::std_specs::vec::axiom_vec_index_decreases(elements.data, i as int);
                }
                let e = &elements.data[i];
                let ghost mid = *ctx;
                let typ = eval_expr(ctx, e)?;
                proof {
                    lemma_prefix_trans(strings_model(ctx0.names@), strings_model(mid.names@), strings_model(ctx.names@));
                }
                if !base_typ.same_as(&typ) {
                    return Err(Error::Mismatch { expected: base_typ, found: typ, span: e.span });
                }
                i += 1;
            }
            if base_typ.nesting == usize::MAX {
                return Err(Error::Rejected { message: "lists nested too deep", span: expr.span });
            }
            base_typ.nesting += 1;
            return Ok(base_typ);
        },
        Expr::Identifier(ident) => {
            proof {
                lemma_lookup_m(ctx.scopes@, ident@);
            }
            let t = ctx.get(ident, expr.span)?;
            return Ok(t.duplicate());
        },
        Expr::UnOp { expr, op } => {
            let typ = eval_expr(ctx, expr)?;
            match unop_type_exec(op.data, &typ) {
                Some(t) => {
                    return Ok(t);
                },
                None => {
                    return Err(Error::InvalidTypeForUnOp { op: op.data, expr: expr.span.attach(typ) });
                },
            }
        },
        Expr::BinOp { rhs, lhs, op } => {
            let r = eval_expr(ctx, rhs)?;
            let ghost mid = *ctx;
            let l = eval_expr(ctx, lhs)?;
            proof {
                lemma_prefix_trans(strings_model(ctx0.names@), strings_model(mid.names@), strings_model(ctx.names@));
            }
            match binop_type_exec(op.data, &l, &r) {
                Some(t) => {
                    return Ok(t);
                },
                None => {
                    return Err(
                        Error::InvalidTypeForBinOp {
                            op: op.data,
                            lhs: lhs.span.attach(l),
                            rhs: rhs.span.attach(r),
                        },
                    );
                },
            }
        },
        Expr::Table { .. } => {
            return Err(Error::Rejected { message: "tables have no type yet", span: expr.span });
        },
        Expr::Call { expr: callee, args } => {
            let typ = eval_expr(ctx, callee)?;
            let ghost mid = *ctx;
            let res = eval_call(ctx, typ, callee.span, &args.data);
            proof {
                lemma_prefix_trans(strings_model(ctx0.names@), strings_model(mid.names@), strings_model(ctx.names@));
            }
            return res;
        },
        Expr::TypeConstructor { name, fields } => {
            let proto_id = match find_string(&ctx.names, &name.data) {
                Some(id) => id,
                None => {
                    return Err(Error::Rejected { message: "undefined type", span: name.span });
                },
            };
            let k = match find_proto(&ctx.protos, proto_id) {
                Some(k) => k,
                None => {
                    return Err(Error::Rejected { message: "type used before its definition", span: name.span });
                },
            };
            let proto_fields = duplicate_fields(&ctx.protos[k].1.fields);
            let ghost pf = scope_m(proto_fields@);
            assert(pf == protos_m(ctx.protos@)[k as int].1);
            let mut i: usize = 0;
            while i < fields.data.len()
                invariant
                    i <= fields.data@.len(),
                    grows(ctx0, *ctx),
                    ctx.scopes@ == ctx0.scopes@,
                    pf == scope_m(proto_fields@),
                    check_fields(ctx_m(*ctx), pf, fields.data@, i as int) == check_fields(
                        ctx_m(ctx0),
                        pf,
                        fields.data@,
                        0,
                    ),
                decreases fields.data@.len() - i,
            {
                proof {
                    vstd::std_specs::vec::axiom_vec_index_decreases(fields.data, i as int);
                }
                let field = &fields.data[i];
                match &field.data {
                    FieldConstructor::Implicit(name) => {
                        proof {
                            lemma_lookup_m(ctx.scopes@, name@);
                        }
                        let typ = ctx.get(name, field.span)?;
                        proof {
                            lemma_key_index(scope_keys(proto_fields@), name@);
                            lemma_scope_m(proto_fields@, name@);
                        }
                        match find_key(&proto_fields, name) {
                            Some(f) => {
                                if !proto_fields[f].1.can_coerce(typ) {
                                    return Err(
                                        Error::Mismatch {
                                            expected: proto_fields[f].1.duplicate(),
                                            found: typ.duplicate(),
                                            span: field.span,
                                        },
                                    );
                                }
                            },
                            None => {
                                return Err(
                                    Error::UnexpectedField { ident: name.clone(), span: field.span },
                                );
                            },
                        }
                    },
                    FieldConstructor::Explicit { name, expr } => {
                        let ghost mid = *ctx;
                        let typ = eval_expr(ctx, expr)?;
                        proof {
                            lemma_prefix_trans(strings_model(ctx0.names@), strings_model(mid.names@), strings_model(ctx.names@));
                            lemma_key_index(scope_keys(proto_fields@), name.data@);
                            lemma_scope_m(proto_fields@, name.data@);
                        }
                        match find_key(&proto_fields, &name.data) {
                            Some(f) => {
                                if !proto_fields[f].1.can_coerce(&typ) {
                                    return Err(
                                        Error::Mismatch {
                                            expected: proto_fields[f].1.duplicate(),
                                            found: typ,
                                            span: name.span,
                                        },
                                    );
                                }
                            },
                            None => {
                                return Err(
                                    Error::UnexpectedField {
                                        ident: name.data.clone(),
                                        span: name.span,
                                    },
                                );
                            },
                        }
                    },
                }
                i += 1;
            }
            Type::Struct(proto_id)
        },
        Expr::Func { body } => {
            let t = eval_func(ctx, &body.data)?;
            t.inner
        },
        Expr::Member { expr, member } => {
            let typ = eval_expr(ctx, expr)?;
            if typ.nesting != 0 {
                return Err(Error::Rejected { message: "member access on a list", span: expr.span });
            }
            let proto_id = match typ.inner {
                Type::Struct(id) => id,
                _ => {
                    return Err(
                        Error::Rejected { message: "member access on a value that is not a struct", span: expr.span },
                    );
                },
            };
            let k = match find_proto(&ctx.protos, proto_id) {
                Some(k) => k,
                None => {
                    return Err(Error::Rejected { message: "struct type without definition", span: expr.span });
                },
            };
            let proto = &ctx.protos[k].1;
            proof {
                lemma_key_index(scope_keys(proto.fields@), member.data@);
                lemma_scope_m(proto.fields@, member.data@);
                assert(protos_m(ctx.protos@)[k as int].1 == scope_m(proto.fields@));
            }
            match find_key(&proto.fields, &member.data) {
                Some(f) => {
                    return Ok(proto.fields[f].1.duplicate());
                },
                None => {
                    return Err(Error::UnexpectedField { ident: member.data.clone(), span: member.span });
                },
            }
        },
        Expr::Index { expr, index } => {
            let mut val_typ = eval_expr(ctx, expr)?;
            if val_typ.nesting == 0 {
                return Err(Error::Rejected { message: "indexing a value that is not a list", span: expr.span });
            }
            let ghost mid = *ctx;
            let idx_typ = eval_expr(ctx, index)?;
            proof {
                lemma_prefix_trans(strings_model(ctx0.names@), strings_model(mid.names@), strings_model(ctx.names@));
            }
            if !idx_typ.is_plain(&Type::Integer) {
                return Err(
                    Error::Mismatch {
                        expected: plain_type(Type::Integer),
                        found: idx_typ,
                        span: index.span,
                    },
                );
            }
            val_typ.nesting -= 1;
            return Ok(val_typ);
        },
    };
    Ok(NType { nesting: 0, inner })
}

/// Checks the arguments of a call of a value of type `callee`, giving the
/// type that the call returns.
#[verifier::loop_isolation(false)]
fn eval_call(ctx: &mut Context, callee: NType, span: Span, exprs: &Vec<Spanned<Expr>>) -> (r: Result<NType, Error>)
    requires
        old(ctx).wf(),
    ensures
        grows(*old(ctx), *final(ctx)),
        r is Ok ==> final(ctx).scopes@ == old(ctx).scopes@,
        expr_checked(*old(ctx), *final(ctx), r, check_call(ctx_m(*old(ctx)), callee@, span, exprs@)),
    decreases exprs, 0int,
{
    let ghost ctx0 = *ctx;
    if callee.nesting == 0 {
        if let Type::Func { args, ret } = callee.inner {
            proof {
                lemma_args_model(args@);
            }
            if args.len() != exprs.len() {
                return Err(Error::WrongNumberOfElements { expected: args.len(), found: exprs.len(), span });
            }
            let mut i: usize = 0;
            while i < args.len()
                invariant
                    i <= args@.len(),
                    args@.len() == exprs@.len(),
                    grows(ctx0, *ctx),
                    ctx.scopes@ == ctx0.scopes@,
                    check_args(ctx_m(*ctx), args_model(args@), exprs@, i as int) == check_args(
                        ctx_m(ctx0),
                        args_model(args@),
                        exprs@,
                        0,
                    ),
                decreases args@.len() - i,
            {
                proof {
                    vstd::std_specs::vec::axiom_vec_index_decreases(*exprs, i as int);
                }
                let expr = &exprs[i];
                let ghost mid = *ctx;
                let typ = eval_expr(ctx, expr)?;
                proof {
                    lemma_prefix_trans(strings_model(ctx0.names@), strings_model(mid.names@), strings_model(ctx.names@));
                }
                if !args[i].can_coerce(&typ) {
                    return Err(Error::Mismatch { expected: args[i].duplicate(), found: typ, span: expr.span });
                }
                i += 1;
            }
            return Ok(*ret);
        }
    }
    Err(Error::ExpectedFunction { found: callee, span })
}

/// Checks a function body and gives the function's type.
#[verifier::loop_isolation(false)]
fn eval_func(ctx: &mut Context, body: &FuncBody) -> (r: Result<NType, Error>)
    requires
        old(ctx).wf(),
    ensures
        grows(*old(ctx), *final(ctx)),
        r is Ok ==> final(ctx).scopes@ == old(ctx).scopes@,
        expr_checked(*old(ctx), *final(ctx), r, check_func(ctx_m(*old(ctx)), *body)),
    decreases body, 0int,
{
    let ghost ctx0 = *ctx;
    let ghost params = body.args.data@;
    let mut scope: Scope = Vec::new();
    let mut args: Vec<NType> = Vec::new();
    let mut i: usize = 0;
    assert(scope_m(scope@) =~= Seq::empty());
    assert(args_model(args@) =~= Seq::empty());
    while i < body.args.data.len()
        invariant
            i <= body.args.data@.len(),
            grows(ctx0, *ctx),
            ctx.scopes@ == ctx0.scopes@,
            params_s(strings_model(ctx.names@), params, i as int, scope_m(scope@), args_model(args@))
                == params_s(strings_model(ctx0.names@), params, 0, Seq::empty(), Seq::empty()),
        decreases body.args.data@.len() - i,
    {
        let arg = &body.args.data[i];
        let ghost before = ctx.names@;
        let ghost scope0 = scope@;
        let ghost args0 = args@;
        let typ = process_type(&mut ctx.names, &arg.data.typ.data);
        proof {
            lemma_process_type_grows(strings_model(before), arg.data.typ.data);
            lemma_prefix_trans(strings_model(ctx0.names@), strings_model(before), strings_model(ctx.names@));
        }
        args.push(typ.duplicate());
        assert(args@.drop_last() =~= args0);
        proof {
            lemma_key_index(scope_keys(scope@), arg.data.name.data@);
            lemma_scope_m(scope@, arg.data.name.data@);
        }
        match find_key(&scope, &arg.data.name.data) {
            Some(k) => {
                scope.remove(k);
                scope.insert(k, (arg.data.name.data.clone(), typ));
                assert(scope@ =~= scope0.update(k as int, (arg.data.name.data, typ)));
                assert(scope_m(scope@) =~= scope_m(scope0).update(k as int, (arg.data.name.data@, typ@)));
            },
            None => {
                scope.push((arg.data.name.data.clone(), typ));
                assert(scope_m(scope@) =~= scope_m(scope0).push((arg.data.name.data@, typ@)));
            },
        }
        i += 1;
    }
    let ghost before = ctx.names@;
    let ret = match &body.ret {
        Some(t) => process_type(&mut ctx.names, &t.data),
        None => plain_type(Type::Nil),
    };
    proof {
        if let Some(t) = &body.ret {
            lemma_process_type_grows(strings_model(before), t.data);
        }
        lemma_prefix_trans(strings_model(ctx0.names@), strings_model(before), strings_model(ctx.names@));
    }
    let ghost scopes0 = ctx.scopes@;
    ctx.scopes.push(scope);
    assert(scopes_m(ctx.scopes@) =~= scopes_m(scopes0).push(scope_m(scope@)));
    let ret = body.args.span.attach(ret);
    let ghost pushed = *ctx;
    eval_stmts(ctx, &body.body.data, Some(&ret))?;
    ctx.pop();
    proof {
        assert(ctx.scopes@ =~= ctx0.scopes@);
    }
    Ok(NType { nesting: 0, inner: Type::Func { args, ret: Box::new(ret.data) } })
}

/// Checks statements in order.
#[verifier::loop_isolation(false)]
pub fn eval_stmts(ctx: &mut Context, stmts: &Vec<Spanned<Stmt>>, ret: Option<&Spanned<NType>>) -> (r: Result<(), Error>)
    requires
        old(ctx).wf(),
    ensures
        grows(*old(ctx), *final(ctx)),
        r is Ok ==> keeps_outer_scopes(*old(ctx), *final(ctx)),
        stmt_checked(*final(ctx), r, check_stmts(ctx_m(*old(ctx)), stmts@, 0, ret_m(ret))),
    decreases stmts, 0int,
{
    let ghost ctx0 = *ctx;
    let mut i: usize = 0;
    while i < stmts.len()
        invariant
            i <= stmts@.len(),
            grows(ctx0, *ctx),
            keeps_outer_scopes(ctx0, *ctx),
            check_stmts(ctx_m(*ctx), stmts@, i as int, ret_m(ret)) == check_stmts(
                ctx_m(ctx0),
                stmts@,
                0,
                ret_m(ret),
            ),
        decreases stmts@.len() - i,
    {
        proof {
            vstd::std_specs::vec::axiom_vec_index_decreases(*stmts, i as int);
        }
        let ghost mid = *ctx;
        eval_stmt(ctx, &stmts[i], ret)?;
        proof {
            lemma_prefix_trans(strings_model(ctx0.names@), strings_model(mid.names@), strings_model(ctx.names@));
        }
        i += 1;
    }
    Ok(())
}

/// Checks a statement; `ret` is the return type of the function around it.
#[verifier::loop_isolation(false)]
#[verifier::rlimit(80)]
pub fn eval_stmt(ctx: &mut Context, stmt: &Spanned<Stmt>, ret: Option<&Spanned<NType>>) -> (r: Result<(), Error>)
    requires
        old(ctx).wf(),
    ensures
        grows(*old(ctx), *final(ctx)),
        r is Ok ==> keeps_outer_scopes(*old(ctx), *final(ctx)),
        (stmt.data is Return && ret is None) ==> r == Err::<(), Error>(Error::MalformedControlFow { span: stmt.span })
            && *final(ctx) == *old(ctx),
        (stmt.data is TypeDef || stmt.data is Break) ==> r is Ok && *final(ctx) == *old(ctx),
        stmt.data matches Stmt::Binding { lhs, rhs } && lhs.data@.len() != rhs.data@.len() ==> r is Err
            && *final(ctx) == *old(ctx),
        stmt.data matches Stmt::Assign { lhs, rhs } && lhs.data@.len() != rhs.data@.len() ==> r is Err
            && *final(ctx) == *old(ctx),
        stmt_checked(*final(ctx), r, check_stmt(ctx_m(*old(ctx)), *stmt, ret_m(ret))),
    decreases stmt, 1int,
{
    let ghost ctx0 = *ctx;
    match &stmt.data {
        Stmt::TypeDef { .. } => {},
        Stmt::Break => {},
        Stmt::Return { expr } => {
            let ret = match ret {
                Some(ret) => ret,
                None => {
                    return Err(Error::MalformedControlFow { span: stmt.span });
                },
            };
            let (typ, span) = match expr {
                Some(expr) => (eval_expr(ctx, expr)?, expr.span),
                None => (plain_type(Type::Nil), stmt.span),
            };
            if !ret.data.can_coerce(&typ) {
                return Err(Error::Mismatch { expected: ret.data.duplicate(), found: typ, span });
            }
        },
        Stmt::Call { expr, args } => {
            let typ = eval_expr(ctx, expr)?;
            let ghost mid = *ctx;
            eval_call(ctx, typ, expr.span, &args.data)?;
            proof {
                lemma_prefix_trans(strings_model(ctx0.names@), strings_model(mid.names@), strings_model(ctx.names@));
            }
        },
        Stmt::Binding { .. } => {
            return eval_binding(ctx, stmt);
        },
        Stmt::Assign { .. } => {
            return eval_assign(ctx, stmt);
        },
        Stmt::If { .. } => {
            return eval_if(ctx, stmt, ret);
        },
        Stmt::ForNum { .. } => {
            return Err(Error::Rejected { message: "numeric for loops are not checked yet", span: stmt.span });
        },
        Stmt::FuncDef { name, body, .. } => {
            let typ = eval_func(ctx, body)?;
            let ghost mid = *ctx;
            proof {
                lemma_last_scope_m(ctx.scopes@, name.data@);
            }
            ctx.set(true, name.data.clone(), typ, name.span)?;
            proof {
                lemma_bind_local_m(mid.scopes@, ctx.scopes@, name.data, typ);
            }
        },
    }
    Ok(())
}

/// Checks a `local` statement: each name is bound in the innermost scope to
/// the type of its expression.
#[verifier::loop_isolation(false)]
#[verifier::rlimit(40)]
fn eval_binding(ctx: &mut Context, stmt: &Spanned<Stmt>) -> (r: Result<(), Error>)
    requires
        old(ctx).wf(),
        stmt.data is Binding,
    ensures
        grows(*old(ctx), *final(ctx)),
        r is Ok ==> keeps_outer_scopes(*old(ctx), *final(ctx)),
        stmt.data matches Stmt::Binding { lhs, rhs } && lhs.data@.len() != rhs.data@.len() ==> r is Err
            && *final(ctx) == *old(ctx),
        stmt_checked(*final(ctx), r, check_stmt(ctx_m(*old(ctx)), *stmt, None)),
    decreases stmt, 0int,
{
    let ghost ctx0 = *ctx;
    match &stmt.data {
        Stmt::Binding { lhs, rhs } => {
            if lhs.data.len() != rhs.data.len() {
                return Err(
                    Error::WrongNumberOfElements {
                        expected: lhs.data.len(),
                        found: rhs.data.len(),
                        span: lhs.span,
                    },
                );
            }
            let mut i: usize = 0;
            while i < lhs.data.len()
                invariant
                    i <= lhs.data@.len(),
                    lhs.data@.len() == rhs.data@.len(),
                    grows(ctx0, *ctx),
                    keeps_outer_scopes(ctx0, *ctx),
                    check_bindings(ctx_m(*ctx), *stmt, i as int) == check_bindings(ctx_m(ctx0), *stmt, 0),
                decreases lhs.data@.len() - i,
            {
                proof {
                    vstd::std_specs::vec::axiom_vec_index_decreases(rhs.data, i as int);
                }
                let l = &lhs.data[i];
                let r = &rhs.data[i];
                let ghost mid = *ctx;
                let typ = eval_expr(ctx, r)?;
                let ghost mid2 = *ctx;
                proof {
                    lemma_last_scope_m(ctx.scopes@, l.data@);
                }
                ctx.set(true, l.data.clone(), typ, l.span)?;
                proof {
                    lemma_bind_local_m(mid2.scopes@, ctx.scopes@, l.data, typ);
                    lemma_prefix_trans(strings_model(ctx0.names@), strings_model(mid.names@), strings_model(ctx.names@));
                    assert(ctx.scopes@.drop_last() == ctx0.scopes@.drop_last());
                }
                i += 1;
            }
        },
        _ => {},
    }
    Ok(())
}

/// Checks an assignment: each value must fit its place.
#[verifier::loop_isolation(false)]
#[verifier::rlimit(40)]
fn eval_assign(ctx: &mut Context, stmt: &Spanned<Stmt>) -> (r: Result<(), Error>)
    requires
        old(ctx).wf(),
        stmt.data is Assign,
    ensures
        grows(*old(ctx), *final(ctx)),
        r is Ok ==> keeps_outer_scopes(*old(ctx), *final(ctx)),
        stmt.data matches Stmt::Assign { lhs, rhs } && lhs.data@.len() != rhs.data@.len() ==> r is Err
            && *final(ctx) == *old(ctx),
        stmt_checked(*final(ctx), r, check_stmt(ctx_m(*old(ctx)), *stmt, None)),
    decreases stmt, 0int,
{
    let ghost ctx0 = *ctx;
    match &stmt.data {
        Stmt::Assign { lhs, rhs } => {
            if lhs.data.len() != rhs.data.len() {
                return Err(
                    Error::WrongNumberOfElements {
                        expected: lhs.data.len(),
                        found: rhs.data.len(),
                        span: lhs.span,
                    },
                );
            }
            let mut i: usize = 0;
            while i < lhs.data.len()
                invariant
                    i <= lhs.data@.len(),
                    lhs.data@.len() == rhs.data@.len(),
                    grows(ctx0, *ctx),
                    ctx.scopes@ == ctx0.scopes@,
                    check_assigns(ctx_m(*ctx), *stmt, i as int) == check_assigns(ctx_m(ctx0), *stmt, 0),
                decreases lhs.data@.len() - i,
            {
                proof {
                    vstd::std_specs::vec::axiom_vec_index_decreases(lhs.data, i as int);
                    vstd::std_specs::vec::axiom_vec_index_decreases(rhs.data, i as int);
                }
                let l = &lhs.data[i];
                let r = &rhs.data[i];
                let ghost mid = *ctx;
                let ltyp = eval_expr(ctx, l)?;
                let ghost mid2 = *ctx;
                let rtyp = eval_expr(ctx, r)?;
                proof {
                    lemma_prefix_trans(strings_model(ctx0.names@), strings_model(mid.names@), strings_model(mid2.names@));
                    lemma_prefix_trans(strings_model(ctx0.names@), strings_model(mid2.names@), strings_model(ctx.names@));
                }
                if !ltyp.can_coerce(&rtyp) {
                    return Err(Error::Mismatch { expected: ltyp, found: rtyp, span: r.span });
                }
                i += 1;
            }
        },
        _ => {},
    }
    Ok(())
}

/// Checks a condition, which must be a boolean.
fn eval_cond(ctx: &mut Context, cond: &Spanned<Expr>) -> (r: Result<(), Error>)
    requires
        old(ctx).wf(),
    ensures
        grows(*old(ctx), *final(ctx)),
        r is Ok ==> final(ctx).scopes@ == old(ctx).scopes@,
        match (r, check_cond(ctx_m(*old(ctx)), *cond)) {
            (Ok(_), Ok(n)) => ctx_m(*final(ctx)) == with_names(ctx_m(*old(ctx)), n),
            (Err(e), Err(em)) => check_err_m(e) == em,
            _ => false,
        },
    decreases cond, 1int,
{
    let typ = eval_expr(ctx, cond)?;
    if !typ.is_plain(&Type::Boolean) {
        return Err(Error::Mismatch { expected: plain_type(Type::Boolean), found: typ, span: cond.span });
    }
    Ok(())
}

/// Checks a block in a new scope, which is dropped after it.
fn eval_block(ctx: &mut Context, stmts: &Vec<Spanned<Stmt>>, ret: Option<&Spanned<NType>>) -> (r: Result<
    (),
    Error,
>)
    requires
        old(ctx).wf(),
    ensures
        grows(*old(ctx), *final(ctx)),
        r is Ok ==> final(ctx).scopes@ == old(ctx).scopes@,
        stmt_checked(*final(ctx), r, check_block(ctx_m(*old(ctx)), stmts@, ret_m(ret))),
    decreases stmts, 1int,
{
    let ghost ctx0 = *ctx;
    ctx.push();
    proof {
        lemma_push_scope_m(ctx0.scopes@, ctx.scopes@);
    }
    eval_stmts(ctx, stmts, ret)?;
    let ghost after = *ctx;
    ctx.pop();
    proof {
        assert(scopes_m(ctx.scopes@) =~= scopes_m(after.scopes@).drop_last());
        assert(ctx.scopes@ =~= ctx0.scopes@);
    }
    Ok(())
}

/// Checks `elseif` clauses.
#[verifier::loop_isolation(false)]
#[verifier::spinoff_prover]
#[verifier::rlimit(100)]
fn eval_else_ifs(
    ctx: &mut Context,
    blocks: &Vec<(Spanned<Expr>, Spanned<Vec<Spanned<Stmt>>>)>,
    ret: Option<&Spanned<NType>>,
) -> (r: Result<(), Error>)
    requires
        old(ctx).wf(),
    ensures
        grows(*old(ctx), *final(ctx)),
        r is Ok ==> final(ctx).scopes@ == old(ctx).scopes@,
        stmt_checked(*final(ctx), r, check_else_ifs(ctx_m(*old(ctx)), blocks@, 0, ret_m(ret))),
    decreases blocks, 0int,
{
    let ghost ctx0 = *ctx;
    let mut i: usize = 0;
    while i < blocks.len()
        invariant
            i <= blocks@.len(),
            grows(ctx0, *ctx),
            ctx.scopes@ == ctx0.scopes@,
            check_else_ifs(ctx_m(*ctx), blocks@, i as int, ret_m(ret)) == check_else_ifs(
                ctx_m(ctx0),
                blocks@,
                0,
                ret_m(ret),
            ),
        decreases blocks@.len() - i,
    {
        proof {
            vstd::std_specs::vec::axiom_vec_index_decreases(*blocks, i as int);
        }
        let (condition, then_block) = &blocks[i];
        let ghost mid = *ctx;
        eval_cond(ctx, condition)?;
        let ghost mid2 = *ctx;
        eval_block(ctx, &then_block.data, ret)?;
        proof {
            lemma_prefix_trans(strings_model(ctx0.names@), strings_model(mid.names@), strings_model(mid2.names@));
            lemma_prefix_trans(strings_model(ctx0.names@), strings_model(mid2.names@), strings_model(ctx.names@));
        }
        i += 1;
    }
    Ok(())
}

/// Checks an `if` statement: each condition must be a boolean, and each
/// block is checked in a new scope.
#[verifier::spinoff_prover]
#[verifier::rlimit(100)]
fn eval_if(ctx: &mut Context, stmt: &Spanned<Stmt>, ret: Option<&Spanned<NType>>) -> (r: Result<(), Error>)
    requires
        old(ctx).wf(),
        stmt.data is If,
    ensures
        grows(*old(ctx), *final(ctx)),
        r is Ok ==> keeps_outer_scopes(*old(ctx), *final(ctx)),
        stmt_checked(*final(ctx), r, check_stmt(ctx_m(*old(ctx)), *stmt, ret_m(ret))),
    decreases stmt, 0int,
{
    let ghost ctx0 = *ctx;
    match &stmt.data {
        Stmt::If { condition, then_block, else_if_blocks, else_block } => {
            eval_cond(ctx, condition)?;
            let ghost mid = *ctx;
            eval_block(ctx, &then_block.data, ret)?;
            let ghost mid2 = *ctx;
            proof {
                lemma_prefix_trans(strings_model(ctx0.names@), strings_model(mid.names@), strings_model(mid2.names@));
            }
            eval_else_ifs(ctx, else_if_blocks, ret)?;
            let ghost mid3 = *ctx;
            proof {
                lemma_prefix_trans(strings_model(ctx0.names@), strings_model(mid2.names@), strings_model(mid3.names@));
            }
            if let Some(else_block) = else_block {
                eval_block(ctx, &else_block.data, ret)?;
                proof {
                    lemma_prefix_trans(strings_model(ctx0.names@), strings_model(mid3.names@), strings_model(ctx.names@));
                }
            }
        },
        _ => {},
    }
    Ok(())
}

/// The name that a statement defines as a struct type, if it is a type
/// definition.
pub open spec fn def_name(s: Spanned<Stmt>) -> Option<Seq<char>> {
    match s.data {
        Stmt::TypeDef { name, .. } => Some(name.data@),
        _ => None,
    }
}

/// The field names of a list of field definitions.
pub open spec fn arg_names(fields: Seq<Spanned<ast::ArgDef>>) -> Seq<Seq<char>> {
    fields.map_values(|f: Spanned<ast::ArgDef>| f.data.name.data@)
}

/// Position of the first statement that defines struct type `n`, or -1.
pub open spec fn def_index(stmts: Seq<Spanned<Stmt>>, n: Seq<char>) -> int
    decreases stmts.len(),
{
    if stmts.len() == 0 {
        -1
    } else {
        let k = def_index(stmts.drop_last(), n);
        if k >= 0 {
            k
        } else if def_name(stmts.last()) == Some(n) {
            stmts.len() - 1
        } else {
            -1
        }
    }
}

/// The field names of the definition of struct type `n`.
pub open spec fn def_fields(stmts: Seq<Spanned<Stmt>>, n: Seq<char>) -> Option<Seq<Seq<char>>> {
    let k = def_index(stmts, n);
    if k >= 0 {
        match stmts[k].data {
            Stmt::TypeDef { fields, .. } => Some(arg_names(fields.data@)),
            _ => None,
        }
    } else {
        None
    }
}

pub proof fn lemma_def_index(stmts: Seq<Spanned<Stmt>>, n: Seq<char>)
    ensures
        -1 <= def_index(stmts, n) < stmts.len(),
        def_index(stmts, n) >= 0 ==> def_name(stmts[def_index(stmts, n)]) == Some(n),
        def_index(stmts, n) >= 0 ==> forall|j: int|
            0 <= j < def_index(stmts, n) ==> def_name(#[trigger] stmts[j]) != Some(n),
        def_index(stmts, n) < 0 ==> forall|j: int|
            0 <= j < stmts.len() ==> def_name(#[trigger] stmts[j]) != Some(n),
    decreases stmts.len(),
{
    if stmts.len() > 0 {
        lemma_def_index(stmts.drop_last(), n);
        assert forall|j: int| 0 <= j < stmts.len() - 1 implies stmts[j] == stmts.drop_last()[j] by {}
    }
}

/// The first definition of a name is the one at `i` when no statement before
/// `i` defines it.
proof fn lemma_def_index_first(stmts: Seq<Spanned<Stmt>>, n: Seq<char>, i: int)
    requires
        0 <= i < stmts.len(),
        def_name(stmts[i]) == Some(n),
        forall|j: int| 0 <= j < i ==> def_name(#[trigger] stmts[j]) != Some(n),
    ensures
        def_index(stmts, n) == i,
{
    lemma_def_index(stmts, n);
}

/// The type of the built-in functions: `print`, `test`, `exec`, `exit`.
fn builtin_scope() -> (r: Scope)
    ensures
        scope_m(r@) == builtin_scope_m(),
{
    let print_args = vec![plain_type(Type::Any)];
    let test_args = vec![
        plain_type(Type::Func { args: Vec::new(), ret: Box::new(plain_type(Type::Nil)) }),
        plain_type(Type::Integer),
    ];
    let exec_args = vec![NType { nesting: 1, inner: Type::String }];
    proof {
        assert(args_model(Seq::<NType>::empty()) =~= Seq::empty());
        assert(print_args@.drop_last() =~= Seq::<NType>::empty());
        assert(exec_args@.drop_last() =~= Seq::<NType>::empty());
        assert(test_args@.drop_last().drop_last() =~= Seq::<NType>::empty());
        assert(args_model(test_args@.drop_last()) =~= seq![test_args@[0]@]);
        assert(args_model(print_args@) =~= seq![plain(TypeModel::Any)]);
        assert(exec_args@.len() == 1);
        assert(exec_args@[0].nesting == 1);
        assert(type_model(exec_args@[0].inner) == TypeModel::String);
        assert(args_model(exec_args@) == args_model(exec_args@.drop_last()).push(ntype_model(exec_args@.last())));
        assert(ntype_model(exec_args@.last()) == NTypeModel { nesting: 1, inner: TypeModel::String });
        assert(args_model(exec_args@) =~= seq![NTypeModel { nesting: 1, inner: TypeModel::String }]);
        assert(args_model(test_args@) =~= seq![
            plain(TypeModel::Func(Seq::empty(), Box::new(plain(TypeModel::Nil)))),
            plain(TypeModel::Integer),
        ]);
    }
    let mut scope: Scope = Vec::new();
    scope.push(
        (
            "print".to_owned(),
            plain_type(Type::Func { args: print_args, ret: Box::new(plain_type(Type::Integer)) }),
        ),
    );
    scope.push(
        (
            "test".to_owned(),
            plain_type(Type::Func { args: test_args, ret: Box::new(plain_type(Type::Nil)) }),
        ),
    );
    scope.push(
        (
            "exec".to_owned(),
            plain_type(Type::Func { args: exec_args, ret: Box::new(plain_type(Type::String)) }),
        ),
    );
    scope.push(
        (
            "exit".to_owned(),
            plain_type(Type::Func { args: Vec::new(), ret: Box::new(plain_type(Type::Nil)) }),
        ),
    );
    proof {
        let b = builtin_scope_m();
        assert(scope_m(scope@)[0] == b[0]);
        assert(scope_m(scope@)[1] == b[1]);
        assert(scope_m(scope@)[2] == b[2]);
        assert(scope_m(scope@)[3] == b[3]);
    }
    assert(scope_m(scope@) =~= builtin_scope_m());
    scope
}


/// A size entry gives the number of fields of its type's definition.
pub open spec fn size_ok(stmts: Seq<Spanned<Stmt>>, entry: (String, usize)) -> bool {
    def_fields(stmts, entry.0@) matches Some(fs) && entry.1 == fs.len()
}

/// An offset entry gives the position of its field in its type's definition,
/// with no field of that name after it before `limit` (the end of the fields
/// when `None`).
pub open spec fn offset_ok(stmts: Seq<Spanned<Stmt>>, entry: ((String, String), usize), limit: Option<int>) -> bool {
    def_fields(stmts, entry.0.0@) matches Some(fs) && {
        let o = entry.1 as int;
        let bound = match limit {
            Some(b) => b,
            None => fs.len() as int,
        };
        &&& 0 <= o < fs.len()
        &&& fs[o] == entry.0.1@
        &&& forall|j: int| o < j < bound ==> fs[j] != entry.0.1@
    }
}

/// No two offset entries are for the same type and field.
pub open spec fn offsets_unique(offsets: Seq<((String, String), usize)>) -> bool {
    forall|a: int, b: int|
        0 <= a < b < offsets.len() ==> !(#[trigger] offsets[a].0.0@ == #[trigger] offsets[b].0.0@
            && offsets[a].0.1@ == offsets[b].0.1@)
}

/// Whether some offset entry is for field `f` of type `n`.
pub open spec fn has_offset(offsets: Seq<((String, String), usize)>, n: Seq<char>, f: Seq<char>) -> bool {
    exists|e: int| 0 <= e < offsets.len() && #[trigger] offsets[e].0.0@ == n && offsets[e].0.1@ == f
}

/// Every field among the first `upto` of type `n`'s definition has an offset
/// entry.
pub open spec fn offsets_present(stmts: Seq<Spanned<Stmt>>, offsets: Seq<((String, String), usize)>, n: Seq<char>, upto: int) -> bool {
    match def_fields(stmts, n) {
        Some(fs) => forall|i: int| 0 <= i < fs.len() && i < upto ==> #[trigger] has_offset(offsets, n, fs[i]),
        None => true,
    }
}

/// Every field of every type that the program defines has an offset entry.
pub open spec fn offsets_complete(stmts: Seq<Spanned<Stmt>>, offsets: Seq<((String, String), usize)>) -> bool {
    forall|j: int|
        0 <= j < stmts.len() ==> match #[trigger] def_name(stmts[j]) {
            Some(n) => offsets_present(stmts, offsets, n, def_fields(stmts, n).unwrap().len() as int),
            None => true,
        }
}

/// Every offset entry of `a` has one for the same type and field in `b`.
pub open spec fn offset_keys_kept(a: Seq<((String, String), usize)>, b: Seq<((String, String), usize)>) -> bool {
    forall|e: int| 0 <= e < a.len() ==> has_offset(b, #[trigger] a[e].0.0@, a[e].0.1@)
}

proof fn lemma_offset_keys_kept(a: Seq<((String, String), usize)>, b: Seq<((String, String), usize)>)
    requires
        offset_keys_kept(a, b),
    ensures
        forall|n: Seq<char>, f: Seq<char>| #[trigger] has_offset(a, n, f) ==> has_offset(b, n, f),
{
    assert forall|n: Seq<char>, f: Seq<char>| #[trigger] has_offset(a, n, f) implies has_offset(b, n, f) by {
        let e = choose|e: int| 0 <= e < a.len() && #[trigger] a[e].0.0@ == n && a[e].0.1@ == f;
        assert(has_offset(b, a[e].0.0@, a[e].0.1@));
    }
}

/// No two size entries are for the same type.
pub open spec fn sizes_unique(sizes: Seq<(String, usize)>) -> bool {
    forall|a: int, b: int| 0 <= a < b < sizes.len() ==> #[trigger] sizes[a].0@ != #[trigger] sizes[b].0@
}

/// Whether some size entry is for type `n`.
pub open spec fn has_size(sizes: Seq<(String, usize)>, n: Seq<char>) -> bool {
    exists|i: int| 0 <= i < sizes.len() && #[trigger] sizes[i].0@ == n
}

/// Every type that the program defines has a size entry.
pub open spec fn sizes_complete(stmts: Seq<Spanned<Stmt>>, sizes: Seq<(String, usize)>) -> bool {
    forall|j: int|
        0 <= j < stmts.len() ==> match #[trigger] def_name(stmts[j]) {
            Some(n) => has_size(sizes, n),
            None => true,
        }
}

/// Each type defined by `stmts[..i]` is known, with a definition.
pub open spec fn defs_known(stmts: Seq<Spanned<Stmt>>, i: int, names: Seq<Seq<char>>, protos: Seq<(TypeId, StructProto)>) -> bool {
    forall|j: int|
        0 <= j < i ==> match #[trigger] def_name(stmts[j]) {
            Some(n) => {
                let id = key_index(names, n);
                &&& id >= 0
                &&& exists|k: int| 0 <= k < protos.len() && #[trigger] protos[k].0 == id
            },
            None => true,
        }
}

/// What the checker gives for a program: each struct type's size is its
/// number of fields, and each (type, field) pair is at the field's position,
/// the last one where a name is repeated; every defined type has a size,
/// every field of it an offset, and no type or (type, field) pair has two.
pub open spec fn prototypes_of(stmts: Seq<Spanned<Stmt>>, p: Prototypes) -> bool {
    &&& forall|i: int| 0 <= i < p.sizes@.len() ==> size_ok(stmts, #[trigger] p.sizes@[i])
    &&& forall|i: int| 0 <= i < p.offsets@.len() ==> offset_ok(stmts, #[trigger] p.offsets@[i], None)
    &&& sizes_complete(stmts, p.sizes@)
    &&& offsets_complete(stmts, p.offsets@)
    &&& offsets_unique(p.offsets@)
    &&& sizes_unique(p.sizes@)
}

/// The struct definitions known so far match the first definitions in the
/// program.
pub open spec fn protos_match(stmts: Seq<Spanned<Stmt>>, names: Seq<Seq<char>>, protos: Seq<(TypeId, StructProto)>) -> bool {
    forall|k: int|
        #![trigger protos[k]]
        0 <= k < protos.len() ==> {
            &&& protos[k].0 < names.len()
            &&& def_fields(stmts, names[protos[k].0 as int]) == Some(scope_keys(protos[k].1.fields@))
        }
}

proof fn lemma_key_index_prefix(a: Seq<Seq<char>>, b: Seq<Seq<char>>, x: Seq<char>)
    requires
        a.is_prefix_of(b),
        key_index(a, x) >= 0,
    ensures
        key_index(b, x) == key_index(a, x),
{
    lemma_key_index(a, x);
    lemma_key_index(b, x);
    let k = key_index(a, x);
    assert(b[k] == a[k]);
    assert forall|j: int| 0 <= j < k implies b[j] != x by {
        assert(b[j] == a[j]);
    }
}

/// Collects the struct definitions of a program: the struct type names (a
/// type's id is its position) and the definitions with their ids.
#[verifier::loop_isolation(false)]
#[verifier::rlimit(100)]
fn collect_type_defs(stmts: &Vec<Spanned<Stmt>>) -> (r: Result<(Vec<String>, Vec<(TypeId, StructProto)>), Error>)
    ensures
        match r {
            Ok((names, protos)) => {
                &&& protos_match(stmts@, strings_model(names@), protos@)
                &&& defs_known(stmts@, stmts@.len() as int, strings_model(names@), protos@)
                &&& collect_defs(stmts@, 0, Seq::empty(), Seq::empty()) == Ok::<
                    (Seq<Seq<char>>, Seq<(nat, ScopeM)>),
                    CheckErr,
                >((strings_model(names@), protos_m(protos@)))
            },
            Err(e) => collect_defs(stmts@, 0, Seq::empty(), Seq::empty()) == Err::<
                (Seq<Seq<char>>, Seq<(nat, ScopeM)>),
                CheckErr,
            >(check_err_m(e)),
        },
{
    let mut protos: Vec<(TypeId, StructProto)> = Vec::new();
    let mut names: Vec<String> = Vec::new();
    assert(strings_model(names@) =~= Seq::empty());
    assert(protos_m(protos@) =~= Seq::empty());
    let mut i: usize = 0;
    while i < stmts.len()
        invariant
            i <= stmts@.len(),
            protos_match(stmts@, strings_model(names@), protos@),
            defs_known(stmts@, i as int, strings_model(names@), protos@),
            collect_defs(stmts@, i as int, strings_model(names@), protos_m(protos@)) == collect_defs(
                stmts@,
                0,
                Seq::empty(),
                Seq::empty(),
            ),
        decreases stmts@.len() - i,
    {
        let stmt = &stmts[i];
        if let Stmt::TypeDef { name, fields } = &stmt.data {
            let ghost n = name.data@;
            proof {
                lemma_key_index(strings_model(names@), n);
            }
            let id = match find_string(&names, &name.data) {
                Some(id) => {
                    if find_proto(&protos, id).is_some() {
                        return Err(Error::Rejected { message: "a type is defined twice", span: name.span });
                    }
                    id
                },
                None => {
                    let id = names.len();
                    let ghost before = names@;
                    names.push(name.data.clone());
                    assert(strings_model(names@) =~= strings_model(before).push(name.data@));
                    proof {
                        lemma_key_index(strings_model(names@), n);
                        assert(strings_model(before).is_prefix_of(strings_model(names@)));
                        assert forall|j: int| 0 <= j < i implies match #[trigger] def_name(stmts@[j]) {
                            Some(m) => {
                                let id = key_index(strings_model(names@), m);
                                &&& id >= 0
                                &&& exists|k: int| 0 <= k < protos@.len() && #[trigger] protos@[k].0 == id
                            },
                            None => true,
                        } by {
                            if let Some(m) = def_name(stmts@[j]) {
                                lemma_key_index_prefix(strings_model(before), strings_model(names@), m);
                            }
                        }
                    }
                    id
                },
            };
            // no statement before this one defines the name
            proof {
                assert forall|j: int| 0 <= j < i implies def_name(#[trigger] stmts@[j]) != Some(n) by {
                    if def_name(stmts@[j]) == Some(n) {
                        let k = choose|k: int| 0 <= k < protos@.len() && #[trigger] protos@[k].0 == id;
                        assert(protos@[k].0 == id);
                    }
                }
                lemma_def_index_first(stmts@, n, i as int);
            }
            let ghost names1 = strings_model(names@);
            let mut fs: Vec<(String, NType)> = Vec::new();
            let mut f: usize = 0;
            assert(scope_m(fs@) =~= Seq::empty());
            assert(fields.data@.take(0) =~= Seq::<Spanned<ast::ArgDef>>::empty());
            while f < fields.data.len()
                invariant
                    f <= fields.data@.len(),
                    fs@.len() == f,
                    forall|g: int| 0 <= g < f ==> #[trigger] fs@[g].0@ == fields.data@[g].data.name.data@,
                    names1.is_prefix_of(strings_model(names@)),
                    (strings_model(names@), scope_m(fs@)) == fields_s(names1, fields.data@.take(f as int)),
                decreases fields.data@.len() - f,
            {
                let field = &fields.data[f];
                let ghost before = strings_model(names@);
                let ghost fs0 = fs@;
                let typ = process_type(&mut names, &field.data.typ.data);
                proof {
                    lemma_process_type_grows(before, field.data.typ.data);
                    lemma_prefix_trans(names1, before, strings_model(names@));
                }
                fs.push((field.data.name.data.clone(), typ));
                proof {
                    let pre = fields.data@.take(f + 1);
                    assert(pre.drop_last() =~= fields.data@.take(f as int));
                    assert(pre.last() == fields.data@[f as int]);
                    assert(scope_m(fs@) =~= scope_m(fs0).push((field.data.name.data@, typ@)));
                }
                f += 1;
            }
            assert(fields.data@.take(fields.data@.len() as int) =~= fields.data@);
            proof {
                assert(scope_keys(fs@) =~= arg_names(fields.data@));
                assert(def_fields(stmts@, n) == Some(arg_names(fields.data@)));
                lemma_key_index(names1, n);
                lemma_key_index_prefix(names1, strings_model(names@), n);
            }
            let ghost protos_before = protos@;
            let ghost fs_m = scope_m(fs@);
            protos.push((id, StructProto { fields: fs }));
            assert(protos_m(protos@) =~= protos_m(protos_before).push((id as nat, fs_m)));
            proof {
                assert(protos@[protos@.len() - 1].0 == id);
                assert forall|k: int| 0 <= k < protos@.len() implies {
                    &&& (#[trigger] protos@[k]).0 < strings_model(names@).len()
                    &&& def_fields(stmts@, strings_model(names@)[protos@[k].0 as int]) == Some(
                        scope_keys(protos@[k].1.fields@),
                    )
                } by {
                    if k < protos_before.len() {
                        assert(protos@[k] == protos_before[k]);
                        assert(strings_model(names@)[protos@[k].0 as int] == names1[protos@[k].0 as int]);
                    }
                }
                assert forall|j: int| 0 <= j < i + 1 implies match #[trigger] def_name(stmts@[j]) {
                    Some(m) => {
                        let id = key_index(strings_model(names@), m);
                        &&& id >= 0
                        &&& exists|k: int| 0 <= k < protos@.len() && #[trigger] protos@[k].0 == id
                    },
                    None => true,
                } by {
                    if let Some(m) = def_name(stmts@[j]) {
                        if j < i {
                            lemma_key_index_prefix(names1, strings_model(names@), m);
                            let k = choose|k: int| 0 <= k < protos_before.len() && #[trigger] protos_before[k].0 == key_index(names1, m);
                            assert(protos@[k] == protos_before[k]);
                        } else {
                            assert(protos@[protos@.len() - 1].0 == id);
                        }
                    }
                }
            }
        } else {
            proof {
                assert(def_name(stmts@[i as int]) is None);
            }
        }
        i += 1;
    }
    Ok((names, protos))
}

/// Where each struct type keeps its fields and how many it has; every
/// struct type name must have a definition.
#[verifier::loop_isolation(false)]
#[verifier::rlimit(100)]
fn layouts(stmts: &Vec<Spanned<Stmt>>, ctx: &Context) -> (r: Result<Prototypes, Error>)
    requires
        protos_match(stmts@, strings_model(ctx.names@), ctx.protos@),
        forall|j: int| 0 <= j < stmts@.len() ==> match #[trigger] def_name(stmts@[j]) {
            Some(m) => key_index(strings_model(ctx.names@), m) >= 0,
            None => true,
        },
    ensures
        match r {
            Ok(p) => prototypes_of(stmts@, p) && first_undefined(
                strings_model(ctx.names@),
                protos_m(ctx.protos@),
                0,
            ) is None,
            Err(e) => first_undefined(strings_model(ctx.names@), protos_m(ctx.protos@), 0) matches Some(n)
                && check_err_m(e) == (CheckErr::MissingTypeDefinition { name: n }),
        },
{
    let ghost names_final = strings_model(ctx.names@);
    let mut offsets: Vec<((String, String), usize)> = Vec::new();
    let mut sizes: Vec<(String, usize)> = Vec::new();
    let mut tid: usize = 0;
    while tid < ctx.names.len()
        invariant
            tid <= ctx.names@.len(),
            names_final == strings_model(ctx.names@),
            first_undefined(names_final, protos_m(ctx.protos@), tid as int) == first_undefined(
                names_final,
                protos_m(ctx.protos@),
                0,
            ),
            forall|e: int| 0 <= e < sizes@.len() ==> size_ok(stmts@, #[trigger] sizes@[e]),
            forall|e: int| 0 <= e < offsets@.len() ==> offset_ok(stmts@, #[trigger] offsets@[e], None),
            offsets_unique(offsets@),
            sizes_unique(sizes@),
            forall|t: int| 0 <= t < tid ==> has_size(sizes@, #[trigger] names_final[t]),
            forall|t: int|
                0 <= t < tid ==> offsets_present(
                    stmts@,
                    offsets@,
                    #[trigger] names_final[t],
                    def_fields(stmts@, names_final[t]).unwrap().len() as int,
                ),
        decreases ctx.names@.len() - tid,
    {
        let name = &ctx.names[tid];
        let k = match find_proto(&ctx.protos, tid) {
            Some(k) => k,
            None => {
                assert(names_final[tid as int] == name@);
                return Err(Error::MissingTypeDefinition { name: name.clone() });
            },
        };
        let proto = &ctx.protos[k].1;
        let ghost fs = scope_keys(proto.fields@);
        assert(def_fields(stmts@, name@) == Some(fs));
        let ghost sizes_before = sizes@;
        let mut q: usize = 0;
        let mut sized = false;
        while q < sizes.len()
            invariant
                q <= sizes@.len(),
                forall|e: int| 0 <= e < q ==> #[trigger] sizes@[e].0@ != name@,
                sized ==> q < sizes@.len() && sizes@[q as int].0@ == name@,
            decreases sizes@.len() - q,
        {
            if sizes[q].0 == *name {
                sized = true;
                break;
            }
            q += 1;
        }
        if !sized {
            sizes.push((name.clone(), proto.fields.len()));
        }
        proof {
            if sized {
                assert(sizes@ == sizes_before);
                assert(sizes@[q as int].0@ == names_final[tid as int]);
            } else {
                assert(sizes@[sizes@.len() - 1].0@ == names_final[tid as int]);
                assert forall|a: int, b: int| 0 <= a < b < sizes@.len() implies #[trigger] sizes@[a].0@ != #[trigger] sizes@[b].0@ by {
                    assert(sizes@[a] == sizes_before[a]);
                    if b < sizes_before.len() {
                        assert(sizes@[b] == sizes_before[b]);
                    }
                }
            }
            assert forall|t: int| 0 <= t < tid + 1 implies has_size(sizes@, #[trigger] names_final[t]) by {
                if t < tid {
                    let e = choose|e: int| 0 <= e < sizes_before.len() && #[trigger] sizes_before[e].0@ == names_final[t];
                    assert(sizes@[e] == sizes_before[e]);
                } else if sized {
                    assert(sizes@[q as int].0@ == names_final[t]);
                } else {
                    assert(sizes@[sizes@.len() - 1].0@ == names_final[t]);
                }
            }
        }
        let mut offset: usize = 0;
        while offset < proto.fields.len()
            invariant
                offset <= proto.fields@.len(),
                fs == scope_keys(proto.fields@),
                def_fields(stmts@, name@) == Some(fs),
                forall|e: int| 0 <= e < offsets@.len() ==> offset_ok(
                    stmts@,
                    #[trigger] offsets@[e],
                    if offsets@[e].0.0@ == name@ { Some(offset as int) } else { None },
                ),
                offsets_unique(offsets@),
                name@ == names_final[tid as int],
                forall|t: int|
                    0 <= t < tid ==> offsets_present(
                        stmts@,
                        offsets@,
                        #[trigger] names_final[t],
                        def_fields(stmts@, names_final[t]).unwrap().len() as int,
                    ),
                forall|i: int| 0 <= i < offset ==> #[trigger] has_offset(offsets@, name@, fs[i]),
            decreases proto.fields@.len() - offset,
        {
            let member = &proto.fields[offset].0;
            assert(fs[offset as int] == member@);
            let mut j: usize = 0;
            let mut found = false;
            while j < offsets.len()
                invariant
                    j <= offsets@.len(),
                    forall|e: int| 0 <= e < j ==> !(#[trigger] offsets@[e].0.0@ == name@ && offsets@[e].0.1@ == member@),
                    found ==> j < offsets@.len() && offsets@[j as int].0.0@ == name@ && offsets@[j as int].0.1@ == member@,
                decreases offsets@.len() - j,
            {
                if offsets[j].0.0 == *name && offsets[j].0.1 == *member {
                    found = true;
                    break;
                }
                j += 1;
            }
            let ghost offsets_before = offsets@;
            if found {
                offsets.remove(j);
                offsets.insert(j, ((name.clone(), member.clone()), offset));
            } else {
                offsets.push(((name.clone(), member.clone()), offset));
            }
            proof {
                assert forall|e: int| 0 <= e < offsets_before.len() implies has_offset(
                    offsets@,
                    #[trigger] offsets_before[e].0.0@,
                    offsets_before[e].0.1@,
                ) by {
                    if found && e == j {
                        assert(offsets@[e].0.0@ == offsets_before[e].0.0@);
                    } else {
                        assert(offsets@[e] == offsets_before[e]);
                    }
                }
                lemma_offset_keys_kept(offsets_before, offsets@);
                let last = if found { j as int } else { offsets_before.len() as int };
                assert(offsets@[last].0.0@ == name@ && offsets@[last].0.1@ == member@);
                assert(has_offset(offsets@, name@, fs[offset as int]));
                assert forall|t: int|
                    0 <= t < tid implies offsets_present(
                        stmts@,
                        offsets@,
                        #[trigger] names_final[t],
                        def_fields(stmts@, names_final[t]).unwrap().len() as int,
                    ) by {
                    let n = names_final[t];
                    if let Some(ft) = def_fields(stmts@, n) {
                        assert forall|i: int| 0 <= i < ft.len() && i < ft.len() implies #[trigger] has_offset(offsets@, n, ft[i]) by {
                            assert(has_offset(offsets_before, n, ft[i]));
                        }
                    }
                }
                assert forall|i: int| 0 <= i < offset + 1 implies #[trigger] has_offset(offsets@, name@, fs[i]) by {
                    if i < offset {
                        assert(has_offset(offsets_before, name@, fs[i]));
                    }
                }
                assert forall|e: int| 0 <= e < offsets@.len() implies offset_ok(
                    stmts@,
                    #[trigger] offsets@[e],
                    if offsets@[e].0.0@ == name@ { Some(offset + 1) } else { None },
                ) by {
                    if (found && e == j) || (!found && e == offsets_before.len()) {
                        assert(offsets@[e].1 == offset);
                    } else {
                        assert(offsets@[e] == offsets_before[e]);
                        if offsets@[e].0.0@ == name@ && found {
                            if e < j {
                                assert(offsets@[e].0.1@ != member@);
                            } else {
                                assert(offsets_before[j as int].0.0@ == offsets_before[e].0.0@);
                                assert(offsets@[e].0.1@ != member@);
                            }
                        }
                    }
                }
                assert forall|a: int, b: int| 0 <= a < b < offsets@.len() implies !(#[trigger] offsets@[a].0.0@ == #[trigger] offsets@[b].0.0@
                    && offsets@[a].0.1@ == offsets@[b].0.1@) by {
                    if found {
                        if a != j && b != j {
                            assert(offsets@[a] == offsets_before[a] && offsets@[b] == offsets_before[b]);
                        } else if a == j {
                            assert(offsets@[b] == offsets_before[b]);
                            assert(offsets_before[a].0.0@ == offsets@[a].0.0@);
                        } else {
                            assert(offsets@[a] == offsets_before[a]);
                            assert(offsets_before[b].0.0@ == offsets@[b].0.0@);
                        }
                    } else {
                        if b < offsets_before.len() {
                            assert(offsets@[a] == offsets_before[a] && offsets@[b] == offsets_before[b]);
                        } else {
                            assert(offsets@[a] == offsets_before[a]);
                        }
                    }
                }
            }
            offset += 1;
        }
        proof {
            assert(def_fields(stmts@, name@) == Some(fs));
            assert forall|i: int| 0 <= i < fs.len() && i < fs.len() implies #[trigger] has_offset(offsets@, name@, fs[i]) by {}
            assert(offsets_present(stmts@, offsets@, name@, fs.len() as int));
            assert forall|t: int|
                0 <= t < tid + 1 implies offsets_present(
                    stmts@,
                    offsets@,
                    #[trigger] names_final[t],
                    def_fields(stmts@, names_final[t]).unwrap().len() as int,
                ) by {
                if t == tid {
                    assert(names_final[t] == name@);
                }
            }
        }
        tid += 1;
    }
    proof {
        assert forall|j: int| 0 <= j < stmts@.len() implies match #[trigger] def_name(stmts@[j]) {
            Some(n) => has_size(sizes@, n),
            None => true,
        } by {
            if let Some(n) = def_name(stmts@[j]) {
                lemma_key_index(names_final, n);
                let t = key_index(names_final, n);
                assert(names_final[t] == n);
            }
        }
        assert forall|j: int| 0 <= j < stmts@.len() implies match #[trigger] def_name(stmts@[j]) {
            Some(n) => offsets_present(stmts@, offsets@, n, def_fields(stmts@, n).unwrap().len() as int),
            None => true,
        } by {
            if let Some(n) = def_name(stmts@[j]) {
                lemma_key_index(names_final, n);
                let t = key_index(names_final, n);
                assert(names_final[t] == n);
            }
        }
    }
    Ok(Prototypes { offsets, sizes })
}

/// Checks a program, giving where each struct type keeps its fields.
pub fn run(stmts: &Vec<Spanned<Stmt>>) -> (r: Result<Prototypes, Error>)
    ensures
        match r {
            Ok(p) => check_program(stmts@) is Ok && prototypes_of(stmts@, p),
            Err(e) => check_program(stmts@) == Err::<(), CheckErr>(check_err_m(e)),
        },
{
    let (names, protos) = match collect_type_defs(stmts) {
        Ok(defs) => defs,
        Err(e) => {
            return Err(e);
        },
    };
    let mut scopes: Vec<Scope> = Vec::new();
    scopes.push(builtin_scope());
    let mut ctx = Context { names, protos, scopes };
    let ghost ctx0 = ctx;
    assert(scopes_m(ctx.scopes@) =~= seq![builtin_scope_m()]);
    match eval_stmts(&mut ctx, stmts, None) {
        Ok(()) => {},
        Err(e) => {
            return Err(e);
        },
    }
    let ghost names_final = strings_model(ctx.names@);
    proof {
        assert forall|k: int| 0 <= k < ctx.protos@.len() implies {
            &&& (#[trigger] ctx.protos@[k]).0 < names_final.len()
            &&& def_fields(stmts@, names_final[ctx.protos@[k].0 as int]) == Some(
                scope_keys(ctx.protos@[k].1.fields@),
            )
        } by {
            assert(names_final[ctx.protos@[k].0 as int] == strings_model(ctx0.names@)[ctx.protos@[k].0 as int]);
        }
        assert forall|j: int| 0 <= j < stmts@.len() implies match #[trigger] def_name(stmts@[j]) {
            Some(m) => key_index(names_final, m) >= 0,
            None => true,
        } by {
            if let Some(m) = def_name(stmts@[j]) {
                lemma_key_index_prefix(strings_model(ctx0.names@), names_final, m);
            }
        }
    }
    layouts(stmts, &ctx)
}

impl Prototypes {
    /// Where field `member` of struct type `typ` is stored.
    pub fn offset(&self, typ: &String, member: &String) -> (r: Option<usize>)
        ensures
            match r {
                Some(o) => exists|i: int|
                    0 <= i < self.offsets@.len() && #[trigger] self.offsets@[i].0.0@ == typ@
                        && self.offsets@[i].0.1@ == member@ && self.offsets@[i].1 == o,
                None => forall|i: int|
                    0 <= i < self.offsets@.len() ==> !(#[trigger] self.offsets@[i].0.0@ == typ@
                        && self.offsets@[i].0.1@ == member@),
            },
            r == offset_m(*self, typ@, member@),
    {
        let mut i: usize = 0;
        while i < self.offsets.len()
            invariant
                i <= self.offsets@.len(),
                offset_from(self.offsets@, typ@, member@, i as int) == offset_m(*self, typ@, member@),
                forall|j: int|
                    0 <= j < i ==> !(#[trigger] self.offsets@[j].0.0@ == typ@ && self.offsets@[j].0.1@
                        == member@),
            decreases self.offsets@.len() - i,
        {
            if self.offsets[i].0.0 == *typ && self.offsets[i].0.1 == *member {
                return Some(self.offsets[i].1);
            }
            i += 1;
        }
        None
    }

    /// How many fields struct type `typ` has.
    pub fn size(&self, typ: &String) -> (r: Option<usize>)
        ensures
            match r {
                Some(n) => exists|i: int|
                    0 <= i < self.sizes@.len() && #[trigger] self.sizes@[i].0@ == typ@ && self.sizes@[i].1 == n,
                None => forall|i: int| 0 <= i < self.sizes@.len() ==> #[trigger] self.sizes@[i].0@ != typ@,
            },
            r == size_m(*self, typ@),
    {
        let mut i: usize = 0;
        while i < self.sizes.len()
            invariant
                i <= self.sizes@.len(),
                size_from(self.sizes@, typ@, i as int) == size_m(*self, typ@),
                forall|j: int| 0 <= j < i ==> #[trigger] self.sizes@[j].0@ != typ@,
            decreases self.sizes@.len() - i,
        {
            if self.sizes[i].0 == *typ {
                return Some(self.sizes[i].1);
            }
            i += 1;
        }
        None
    }
}


/// Every comparison (`==`, `!=`, `<`, `>`, `<=`, `>=`) of two numbers, each an
/// integer or a float, has type bool.
pub proof fn law_comparisons_of_numbers_are_bool(op: BinOp, l: TypeModel, r: TypeModel)
    requires
        op is EQ || op is NE || op is LT || op is GT || op is LE || op is GE,
        l is Integer || l is Float,
        r is Integer || r is Float,
    ensures
        binop_type(op, NTypeModel { nesting: 0, inner: l }, NTypeModel { nesting: 0, inner: r }) == Some(
            NTypeModel { nesting: 0, inner: TypeModel::Boolean },
        ),
{
}

/// Arithmetic (`-`, `*`, `/`, and `+` of two numbers) on two integers is an
/// integer, and on two numbers of which one is a float, a float.
pub proof fn law_arithmetic_types(op: BinOp, l: TypeModel, r: TypeModel)
    requires
        op is Add || op is Sub || op is Mul || op is Div,
        l is Integer || l is Float,
        r is Integer || r is Float,
    ensures
        binop_type(op, NTypeModel { nesting: 0, inner: l }, NTypeModel { nesting: 0, inner: r }) == Some(
            NTypeModel { nesting: 0, inner: if l is Integer && r is Integer { TypeModel::Integer } else { TypeModel::Float } },
        ),
{
}

/// `and` and `or` of two booleans are booleans.
pub proof fn law_logic_of_booleans_is_bool(op: BinOp)
    requires
        op is And || op is Or,
    ensures
        binop_type(op, NTypeModel { nesting: 0, inner: TypeModel::Boolean }, NTypeModel { nesting: 0, inner: TypeModel::Boolean })
            == Some(NTypeModel { nesting: 0, inner: TypeModel::Boolean }),
{
}

/// Negating a number keeps its type, `not` of a boolean is a boolean, and
/// neither applies to a string.
pub proof fn law_unary_types()
    ensures
        unop_type(UnOp::Neg, NTypeModel { nesting: 0, inner: TypeModel::Integer }) == Some(
            NTypeModel { nesting: 0, inner: TypeModel::Integer },
        ),
        unop_type(UnOp::Neg, NTypeModel { nesting: 0, inner: TypeModel::Float }) == Some(
            NTypeModel { nesting: 0, inner: TypeModel::Float },
        ),
        unop_type(UnOp::Not, NTypeModel { nesting: 0, inner: TypeModel::Boolean }) == Some(
            NTypeModel { nesting: 0, inner: TypeModel::Boolean },
        ),
        unop_type(UnOp::Neg, NTypeModel { nesting: 0, inner: TypeModel::String }) is None,
        unop_type(UnOp::Not, NTypeModel { nesting: 0, inner: TypeModel::String }) is None,
{
}
} // verus!
