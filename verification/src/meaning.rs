//! What expressions mean, as they are written and as syntax trees.
//!
//! A world says what numbers, operators, calls, fields and choices are. An expression means
//! the same in every world whether it is read off its parse tree or off the syntax tree that
//! the parse tree becomes.

use vstd::prelude::*;

use crate::ast_views::{BlockV, ElseBranchV, ExprKindV, ExprV, StmtKindV, StmtV};
use crate::numerals::numeral;
use crate::text::decimal;
use crate::tree::{is_at, Rule, Tree};

verus! {

/// What the parts of expressions are.
#[verifier::reject_recursive_types(T)]
pub struct World<T> {
    /// A number, by its text and the type that may follow it.
    pub literal: spec_fn(Seq<char>, Option<Seq<char>>) -> T,
    pub imaginary: spec_fn(Seq<char>) -> T,
    pub truth: spec_fn(bool) -> T,
    /// An operator between two operands.
    pub operator: spec_fn(Seq<char>, T, T) -> T,
    /// An operator before an operand.
    pub prefix: spec_fn(Seq<char>, T) -> T,
    pub call: spec_fn(Seq<Seq<char>>, Seq<T>) -> T,
    pub field: spec_fn(T, Seq<char>) -> T,
    pub method: spec_fn(T, Seq<char>, Seq<T>) -> T,
    pub index: spec_fn(T, Seq<T>) -> T,
    pub array: spec_fn(Seq<T>) -> T,
    pub repeat: spec_fn(T, T) -> T,
    pub tuple: spec_fn(Seq<T>) -> T,
    pub build: spec_fn(Seq<Seq<char>>, Seq<(Seq<char>, T)>) -> T,
    /// The second where the first holds, otherwise the third.
    pub choice: spec_fn(T, T, T) -> T,
    /// What is there where nothing is.
    pub nothing: T,
}

/// The values with their positions as names.
pub open spec fn placed<T>(vs: Seq<T>) -> Seq<(Seq<char>, T)> {
    Seq::new(vs.len(), |i: int| (decimal(i as nat), vs[i]))
}

/// Whether a function of two values is what an operator is.
pub open spec fn does<T>(w: World<T>, name: Seq<char>, op: Seq<char>) -> bool {
    forall|a: T, b: T|
        #![trigger (w.operator)(op, a, b)]
        (w.call)(seq![name], seq![a, b]) == (w.operator)(op, a, b)
}

/// Whether the functions that operators are named after are what the operators are, and
/// tuples are structs with numbered fields.
pub open spec fn fits<T>(w: World<T>) -> bool {
    &&& does(w, "implies"@, "implies"@)
    &&& does(w, "and"@, "and"@)
    &&& does(w, "or"@, "or"@)
    &&& does(w, "xor"@, "xor"@)
    &&& does(w, "le"@, "<="@)
    &&& does(w, "ge"@, ">="@)
    &&& does(w, "eq"@, "=="@)
    &&& does(w, "neq"@, "!="@)
    &&& does(w, "lt"@, "<"@)
    &&& does(w, "gt"@, ">"@)
    &&& does(w, "add"@, "+"@)
    &&& does(w, "sub"@, "-"@)
    &&& does(w, "mul"@, "*"@)
    &&& does(w, "div"@, "/"@)
    &&& forall|a: T|
        #![trigger (w.prefix)("-"@, a)]
        (w.call)(seq!["neg"@], seq![a]) == (w.prefix)("-"@, a)
    &&& forall|a: T|
        #![trigger (w.prefix)("not"@, a)]
        (w.call)(seq!["not"@], seq![a]) == (w.prefix)("not"@, a)
    &&& forall|vs: Seq<T>|
        #![trigger (w.tuple)(vs)]
        (w.build)(seq!["__Tuple"@ + decimal(vs.len())], placed(vs)) == (w.tuple)(vs)
}

/// What names stand for.
pub type Names<T> = spec_fn(Seq<Seq<char>>) -> T;

/// The names with one more.
pub open spec fn with_value<T>(env: Names<T>, name: Seq<char>, v: T) -> Names<T> {
    |p: Seq<Seq<char>>|
        if p == seq![name] {
            v
        } else {
            env(p)
        }
}

// ---- syntax trees ----

/// What an expression means. None of loops, functions without names, and calls with explicit
/// types or attributes.
pub open spec fn mean_expr<T>(w: World<T>, e: ExprV, env: Names<T>) -> Option<T>
    decreases e, 0nat,
{
    mean_kind(w, e.kind, env)
}

pub open spec fn mean_kind<T>(w: World<T>, k: ExprKindV, env: Names<T>) -> Option<T>
    decreases k, 0nat,
{
    match k {
        ExprKindV::NumberLit { text, suffix } => Some((w.literal)(text, suffix)),
        ExprKindV::ImaginaryLit { text, suffix } => if suffix is None {
            Some((w.imaginary)(text))
        } else {
            None
        },
        ExprKindV::BoolLit(b) => Some((w.truth)(b)),
        ExprKindV::Path(p) => Some(env(p)),
        ExprKindV::Call(p, generics, args, attrs) => if generics.len() == 0 && attrs.len() == 0 {
            match mean_exprs(w, args, args.len(), env) {
                Some(vs) => Some((w.call)(p, vs)),
                None => None,
            }
        } else {
            None
        },
        ExprKindV::FieldAccess(base, name) => match mean_expr(w, *base, env) {
            Some(v) => Some((w.field)(v, name)),
            None => None,
        },
        ExprKindV::MethodCall(base, name, args) => match (
            mean_expr(w, *base, env),
            mean_exprs(w, args, args.len(), env),
        ) {
            (Some(v), Some(vs)) => Some((w.method)(v, name, vs)),
            _ => None,
        },
        ExprKindV::Index(base, indices) => match (
            mean_expr(w, *base, env),
            mean_exprs(w, indices, indices.len(), env),
        ) {
            (Some(v), Some(vs)) => Some((w.index)(v, vs)),
            _ => None,
        },
        ExprKindV::ArrayLit(elems) => match mean_exprs(w, elems, elems.len(), env) {
            Some(vs) => Some((w.array)(vs)),
            None => None,
        },
        ExprKindV::ArrayRepeat { value, count } => match (
            mean_expr(w, *value, env),
            mean_expr(w, *count, env),
        ) {
            (Some(v), Some(n)) => Some((w.repeat)(v, n)),
            _ => None,
        },
        ExprKindV::StructLit(p, generics, inits) => if generics.len() == 0 {
            match mean_inits(w, inits, inits.len(), env) {
                Some(vs) => Some((w.build)(p, vs)),
                None => None,
            }
        } else {
            None
        },
        ExprKindV::If { cond, then_branch, else_branch } => match (
            mean_expr(w, *cond, env),
            mean_block(w, then_branch, env),
            mean_else(w, else_branch, env),
        ) {
            (Some(c), Some(a), Some(b)) => Some((w.choice)(c, a, b)),
            _ => None,
        },
        ExprKindV::Block(b) => mean_block(w, b, env),
        _ => None,
    }
}

pub open spec fn mean_exprs<T>(w: World<T>, es: Seq<ExprV>, n: nat, env: Names<T>) -> Option<Seq<T>>
    decreases es, n,
{
    if n == 0 || n > es.len() {
        Some(Seq::empty())
    } else {
        match (mean_exprs(w, es, (n - 1) as nat, env), mean_expr(w, es[n - 1], env)) {
            (Some(vs), Some(v)) => Some(vs.push(v)),
            _ => None,
        }
    }
}

pub open spec fn mean_inits<T>(
    w: World<T>,
    inits: Seq<(Seq<char>, ExprV)>,
    n: nat,
    env: Names<T>,
) -> Option<Seq<(Seq<char>, T)>>
    decreases inits, n,
{
    if n == 0 || n > inits.len() {
        Some(Seq::empty())
    } else {
        match (mean_inits(w, inits, (n - 1) as nat, env), mean_expr(w, inits[n - 1].1, env)) {
            (Some(vs), Some(v)) => Some(vs.push((inits[n - 1].0, v))),
            _ => None,
        }
    }
}

pub open spec fn mean_else<T>(
    w: World<T>,
    e: Option<Box<ElseBranchV>>,
    env: Names<T>,
) -> Option<T>
    decreases e, 0nat,
{
    match e {
        None => Some(w.nothing),
        Some(b) => match *b {
            ElseBranchV::If(e) => mean_expr(w, e, env),
            ElseBranchV::Block(b) => mean_block(w, b, env),
        },
    }
}

/// What a block means: its last expression, with the names that its statements bind.
pub open spec fn mean_block<T>(w: World<T>, b: BlockV, env: Names<T>) -> Option<T>
    decreases b, 0nat,
{
    match mean_stmts(w, b.stmts, b.stmts.len(), env) {
        None => None,
        Some(inner) => match b.tail {
            None => Some(w.nothing),
            Some(e) => mean_expr(w, *e, inner),
        },
    }
}

/// The names after the first `n` statements, which bind names.
pub open spec fn mean_stmts<T>(w: World<T>, stmts: Seq<StmtV>, n: nat, env: Names<T>) -> Option<
    Names<T>,
>
    decreases stmts, n,
{
    if n == 0 || n > stmts.len() {
        Some(env)
    } else {
        match mean_stmts(w, stmts, (n - 1) as nat, env) {
            None => None,
            Some(inner) => mean_stmt(w, stmts[n - 1], inner),
        }
    }
}

pub open spec fn mean_stmt<T>(w: World<T>, s: StmtV, env: Names<T>) -> Option<Names<T>>
    decreases s, 0nat,
{
    match s.kind {
        StmtKindV::Let { name, value, .. } => match mean_expr(w, value, env) {
            Some(v) => Some(with_value(env, name, v)),
            None => None,
        },
        _ => None,
    }
}

// ---- parse trees ----

/// How tightly an operator binds, from implication to multiplication.
pub open spec fn tightness(op: Seq<char>) -> Option<nat> {
    if op == "implies"@ {
        Some(0)
    } else if op == "and"@ || op == "or"@ || op == "xor"@ {
        Some(1)
    } else if op == "<="@ || op == ">="@ || op == "=="@ || op == "!="@ || op == "<"@ || op
        == ">"@ {
        Some(2)
    } else if op == "+"@ || op == "-"@ {
        Some(3)
    } else if op == "*"@ || op == "/"@ {
        Some(4)
    } else {
        None
    }
}

/// The text of a number and the type after its first colon.
pub open spec fn number_parts(text: Seq<char>) -> (Seq<char>, Option<Seq<char>>) {
    if text.contains(':') {
        let i = text.index_of_first(':')->0;
        (text.take(i), Some(text.skip(i + 1)))
    } else {
        (text, None)
    }
}

/// The texts of the parts of a path.
pub open spec fn written_path(t: Tree) -> Seq<Seq<char>> {
    Seq::new(t.children@.len(), |i: int| t.children@[i].text@)
}

/// What an expression means, as it is written. None of loops, functions without names, calls
/// with explicit types or attributes, calls of what a call returns and, unless `typed`,
/// bindings with types.
pub open spec fn read_expr<T>(w: World<T>, t: Tree, env: Names<T>, typed: bool) -> Option<T>
    decreases t, 0nat,
{
    if t.rule == Rule::Expr && t.children@.len() > 0 {
        read_level(w, t.children@[0], 0, env, typed)
    } else {
        None
    }
}

/// Operands with operators of one tightness between them.
pub open spec fn read_level<T>(w: World<T>, t: Tree, level: nat, env: Names<T>, typed: bool) -> Option<T>
    decreases t, 0nat,
{
    if t.children@.len() % 2 == 1 {
        read_chain(w, t.children, level, ((t.children@.len() - 1) / 2) as nat, env, typed)
    } else {
        None
    }
}

/// The first operand and the `n` that follow it: from the left to the right, what is there so
/// far, the operator and the next operand.
pub open spec fn read_chain<T>(
    w: World<T>,
    children: Vec<Tree>,
    level: nat,
    n: nat,
    env: Names<T>,
    typed: bool,
) -> Option<T>
    decreases children, n,
{
    if 2 * n >= children@.len() {
        None
    } else if n == 0 {
        read_operand(w, children@[0], level, env, typed)
    } else {
        let op = children@[2 * n - 1].text@;
        match (
            read_chain(w, children, level, (n - 1) as nat, env, typed),
            read_operand(w, children@[2 * n as int], level, env, typed),
        ) {
            (Some(a), Some(b)) => if tightness(op) == Some(level) {
                Some((w.operator)(op, a, b))
            } else {
                None
            },
            _ => None,
        }
    }
}

pub open spec fn read_operand<T>(w: World<T>, t: Tree, level: nat, env: Names<T>, typed: bool) -> Option<T>
    decreases t, 1nat,
{
    if level < 4 {
        read_level(w, t, level + 1, env, typed)
    } else {
        read_unary(w, t, env, typed)
    }
}

pub open spec fn read_unary<T>(w: World<T>, t: Tree, env: Names<T>, typed: bool) -> Option<T>
    decreases t, 0nat,
{
    if is_at(t.children, 0, Rule::UnaryOp) && t.children@.len() > 1 {
        let op = t.children@[0].text@;
        match read_unary(w, t.children@[1], env, typed) {
            Some(v) => if op == "-"@ || op == "not"@ {
                Some((w.prefix)(op, v))
            } else {
                None
            },
            None => None,
        }
    } else if is_at(t.children, 0, Rule::Postfix) {
        read_postfix(w, t.children@[0], env, typed)
    } else {
        None
    }
}

pub open spec fn read_postfix<T>(w: World<T>, t: Tree, env: Names<T>, typed: bool) -> Option<T>
    decreases t, 0nat,
{
    if t.children@.len() > 0 {
        match read_primary(w, t.children@[0], env, typed) {
            Some(v) => read_ops(w, t.children, t.children@.len(), v, env, typed),
            None => None,
        }
    } else {
        None
    }
}

/// A value with the accesses and calls after it, up to the `n`th part.
pub open spec fn read_ops<T>(
    w: World<T>,
    children: Vec<Tree>,
    n: nat,
    v: T,
    env: Names<T>,
    typed: bool,
) -> Option<T>
    decreases children, n,
{
    if n <= 1 || n > children@.len() {
        Some(v)
    } else {
        match read_ops(w, children, (n - 1) as nat, v, env, typed) {
            Some(x) => read_op(w, x, children@[n - 1], env, typed),
            None => None,
        }
    }
}

/// A value with one access or call after it: a field, a method with arguments, or indices. The
/// method `to` without arguments converts.
pub open spec fn read_op<T>(w: World<T>, v: T, t: Tree, env: Names<T>, typed: bool) -> Option<T>
    decreases t, 0nat,
{
    if is_at(t.children, 0, Rule::Ident) || is_at(t.children, 0, Rule::TupleIndex) {
        let name = t.children@[0].text@;
        if t.children@.len() == 1 {
            Some((w.field)(v, name))
        } else {
            match read_brackets(w, t.children@[1], env, typed) {
                Some(vs) => if name == "to"@ && vs.len() == 0 {
                    Some((w.call)(seq!["convert"@], seq![v]))
                } else {
                    Some((w.method)(v, name, vs))
                },
                None => None,
            }
        }
    } else if is_at(t.children, 0, Rule::Expr) {
        match read_exprs(w, t.children, t.children@.len(), env, typed) {
            Some(vs) => Some((w.index)(v, vs)),
            None => None,
        }
    } else {
        None
    }
}

/// The arguments between brackets, which may be none.
pub open spec fn read_brackets<T>(w: World<T>, t: Tree, env: Names<T>, typed: bool) -> Option<Seq<T>>
    decreases t, 0nat,
{
    if t.children@.len() == 0 {
        Some(Seq::empty())
    } else {
        let list = t.children@[0].children;
        read_args(w, list, list@.len(), env, typed)
    }
}

/// The first `n` expressions.
pub open spec fn read_exprs<T>(
    w: World<T>,
    children: Vec<Tree>,
    n: nat,
    env: Names<T>,
    typed: bool,
) -> Option<Seq<T>>
    decreases children, n,
{
    if n == 0 || n > children@.len() {
        Some(Seq::empty())
    } else {
        match (
            read_exprs(w, children, (n - 1) as nat, env, typed),
            read_expr(w, children@[n - 1], env, typed),
        ) {
            (Some(vs), Some(v)) => Some(vs.push(v)),
            _ => None,
        }
    }
}

/// The first `n` arguments.
pub open spec fn read_args<T>(
    w: World<T>,
    children: Vec<Tree>,
    n: nat,
    env: Names<T>,
    typed: bool,
) -> Option<Seq<T>>
    decreases children, n,
{
    if n == 0 || n > children@.len() {
        Some(Seq::empty())
    } else {
        match (
            read_args(w, children, (n - 1) as nat, env, typed),
            read_arg(w, children@[n - 1], env, typed),
        ) {
            (Some(vs), Some(v)) => Some(vs.push(v)),
            _ => None,
        }
    }
}

pub open spec fn read_arg<T>(w: World<T>, t: Tree, env: Names<T>, typed: bool) -> Option<T>
    decreases t, 0nat,
{
    if is_at(t.children, 0, Rule::Expr) {
        read_expr(w, t.children@[0], env, typed)
    } else {
        None
    }
}

pub open spec fn read_primary<T>(w: World<T>, t: Tree, env: Names<T>, typed: bool) -> Option<T>
    decreases t, 0nat,
{
    if t.children@.len() == 0 {
        None
    } else {
        let inner = t.children@[0];
        match inner.rule {
            Rule::Literal => read_literal(w, inner),
            Rule::Path => Some(env(written_path(inner))),
            Rule::Expr => read_expr(w, inner, env, typed),
            Rule::IfExpr => read_if(w, inner, env, typed),
            Rule::Block => read_block(w, inner, env, typed),
            Rule::CallExpr => read_call(w, inner, env, typed),
            Rule::StructLit => read_struct(w, inner, env, typed),
            Rule::TupleLit => match read_exprs(
                w,
                inner.children,
                inner.children@.len(),
                env,
                typed,
            ) {
                Some(vs) => Some((w.tuple)(vs)),
                None => None,
            },
            Rule::ArrayLit => read_array(w, inner, env, typed),
            _ => None,
        }
    }
}

pub open spec fn read_literal<T>(w: World<T>, t: Tree) -> Option<T> {
    if t.children@.len() == 0 {
        None
    } else {
        let text = t.children@[0].text@;
        match t.children@[0].rule {
            Rule::NumericLit => Some(
                (w.literal)(number_parts(text).0, number_parts(text).1),
            ),
            Rule::ImaginaryLit => if text.len() > 0 {
                Some((w.imaginary)(text.take(text.len() - 1)))
            } else {
                None
            },
            Rule::BoolLit => if text == "true"@ || text == "false"@ {
                Some((w.truth)(text == "true"@))
            } else {
                None
            },
            Rule::StringLit => if text.len() >= 2 {
                Some((w.array)(read_bytes(w, vstd::utf8::encode_utf8(
                    text.subrange(1, text.len() - 1),
                ))))
            } else {
                None
            },
            _ => None,
        }
    }
}

/// Bytes as numbers of eight bits.
pub open spec fn read_bytes<T>(w: World<T>, bytes: Seq<u8>) -> Seq<T> {
    Seq::new(bytes.len(), |i: int| (w.literal)(decimal(bytes[i] as nat), Some("i8"@)))
}

pub open spec fn read_call<T>(w: World<T>, t: Tree, env: Names<T>, typed: bool) -> Option<T>
    decreases t, 0nat,
{
    if t.children@.len() == 0 || is_at(t.children, 1, Rule::Turbofish) {
        None
    } else if t.children@.len() == 1 {
        Some((w.call)(written_path(t.children@[0]), Seq::empty()))
    } else {
        let list = t.children@[1].children;
        match read_args(w, list, list@.len(), env, typed) {
            Some(vs) => Some((w.call)(written_path(t.children@[0]), vs)),
            None => None,
        }
    }
}

pub open spec fn read_struct<T>(w: World<T>, t: Tree, env: Names<T>, typed: bool) -> Option<T>
    decreases t, 0nat,
{
    if t.children@.len() == 0 || is_at(t.children, 1, Rule::Turbofish) {
        None
    } else if t.children@.len() == 1 {
        Some((w.build)(written_path(t.children@[0]), Seq::empty()))
    } else {
        let list = t.children@[1].children;
        match read_inits(w, list, list@.len(), env, typed) {
            Some(vs) => Some((w.build)(written_path(t.children@[0]), vs)),
            None => None,
        }
    }
}

/// The first `n` fields, each with its name.
pub open spec fn read_inits<T>(
    w: World<T>,
    children: Vec<Tree>,
    n: nat,
    env: Names<T>,
    typed: bool,
) -> Option<Seq<(Seq<char>, T)>>
    decreases children, n,
{
    if n == 0 || n > children@.len() {
        Some(Seq::empty())
    } else {
        match (
            read_inits(w, children, (n - 1) as nat, env, typed),
            read_init(w, children@[n - 1], env, typed),
        ) {
            (Some(vs), Some(v)) => Some(vs.push((children@[n - 1].children@[0].text@, v))),
            _ => None,
        }
    }
}

pub open spec fn read_init<T>(w: World<T>, t: Tree, env: Names<T>, typed: bool) -> Option<T>
    decreases t, 0nat,
{
    if t.children@.len() < 2 {
        None
    } else {
        read_expr(w, t.children@[1], env, typed)
    }
}

/// An array by its items, or one item that many times.
pub open spec fn read_array<T>(w: World<T>, t: Tree, env: Names<T>, typed: bool) -> Option<T>
    decreases t, 0nat,
{
    if t.children@.len() == 0 {
        Some((w.array)(Seq::empty()))
    } else {
        let body = t.children@[0];
        if body.rule == Rule::ArrayList {
            match read_exprs(w, body.children, body.children@.len(), env, typed) {
                Some(vs) => Some((w.array)(vs)),
                None => None,
            }
        } else if body.rule == Rule::ArrayRepeat && body.children@.len() >= 2 {
            let count = body.children@[1];
            match read_expr(w, body.children@[0], env, typed) {
                None => None,
                Some(v) => if count.rule == Rule::NumericLit {
                    match numeral(number_parts(count.text@).0) {
                        Some(n) => if n <= usize::MAX {
                            Some((w.array)(Seq::new(n, |i: int| v)))
                        } else {
                            None
                        },
                        None => None,
                    }
                } else if count.rule == Rule::Ident {
                    Some((w.repeat)(v, env(seq![count.text@])))
                } else {
                    None
                },
            }
        } else {
            None
        }
    }
}

/// A condition, what is there where it holds, and what is there otherwise.
pub open spec fn read_if<T>(w: World<T>, t: Tree, env: Names<T>, typed: bool) -> Option<T>
    decreases t, 0nat,
{
    if t.children@.len() < 2 {
        None
    } else {
        let other = if t.children@.len() == 2 {
            Some(w.nothing)
        } else if t.children@[2].rule == Rule::IfExpr {
            read_if(w, t.children@[2], env, typed)
        } else if t.children@[2].rule == Rule::Block {
            read_block(w, t.children@[2], env, typed)
        } else {
            None
        };
        match (
            read_expr(w, t.children@[0], env, typed),
            read_block(w, t.children@[1], env, typed),
            other,
        ) {
            (Some(c), Some(a), Some(b)) => Some((w.choice)(c, a, b)),
            _ => None,
        }
    }
}

/// Bindings, and then the expression that the block is, if there is one.
pub open spec fn read_block<T>(w: World<T>, t: Tree, env: Names<T>, typed: bool) -> Option<T>
    decreases t, 0nat,
{
    let n = t.children@.len();
    if n > 0 && t.children@[n - 1].rule == Rule::Expr {
        match read_lets(w, t.children, (n - 1) as nat, env, typed) {
            Some(inner) => read_expr(w, t.children@[n - 1], inner, typed),
            None => None,
        }
    } else {
        match read_lets(w, t.children, n, env, typed) {
            Some(_) => Some(w.nothing),
            None => None,
        }
    }
}

/// The names after the first `n` bindings.
pub open spec fn read_lets<T>(
    w: World<T>,
    children: Vec<Tree>,
    n: nat,
    env: Names<T>,
    typed: bool,
) -> Option<Names<T>>
    decreases children, n,
{
    if n == 0 || n > children@.len() {
        Some(env)
    } else {
        match read_lets(w, children, (n - 1) as nat, env, typed) {
            Some(inner) => read_let(w, children@[n - 1], inner, typed),
            None => None,
        }
    }
}

/// A binding: whether the name may change, the name, a type that may be missing, and the value.
pub open spec fn read_let<T>(w: World<T>, t: Tree, env: Names<T>, typed: bool) -> Option<Names<T>>
    decreases t, 0nat,
{
    if t.rule != Rule::Stmt || !is_at(t.children, 0, Rule::LetStmt) {
        None
    } else {
        let parts = t.children@[0].children;
        let i: int = if is_at(parts, 0, Rule::MutKw) {
            1
        } else {
            0
        };
        let k: int = if typed && is_at(parts, i + 1, Rule::Type) {
            i + 2
        } else {
            i + 1
        };
        if is_at(parts, i, Rule::Ident) && is_at(parts, k, Rule::Expr) && parts@.len() == k + 1 {
            match read_expr(w, parts@[k], env, typed) {
                Some(v) => Some(with_value(env, parts@[i].text@, v)),
                None => None,
            }
        } else {
            None
        }
    }
}

} // verus!
