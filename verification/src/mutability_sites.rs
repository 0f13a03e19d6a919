//! The check that only mutable names are assigned to, told by the assignments that stand in a
//! function.

use vstd::prelude::*;

use crate::ast::{Block, ElseBranch, Expr, ExprKind, FnDecl, Param, Stmt, StmtKind};
use crate::mutability::{
    block_error, expr_error, exprs_error, fields_error, mutability_error, params_scope,
    scope_after, stmt_error, stmts_error, target_root,
};

verus! {

/// A part of the code of a function.
pub enum Code {
    Expr(Expr),
    Block(Block),
    Stmt(Stmt),
}

/// Whether each name in scope is mutable.
pub type Known = Map<Seq<char>, bool>;

/// Whether one of the parameters has the name.
pub open spec fn is_param(params: Seq<Param>, n: Seq<char>) -> bool {
    exists|k: int| 0 <= k < params.len() && (#[trigger] params[k]).name@ == n
}

/// The names with parameters, none of which is mutable.
pub open spec fn with_params(params: Seq<Param>, s: Known) -> Known {
    Map::new(
        |n: Seq<char>| s.contains_key(n) || is_param(params, n),
        |n: Seq<char>|
            if is_param(params, n) {
                false
            } else {
                s[n]
            },
    )
}

/// The names before the `k`th statement: what the last binding of each says.
pub open spec fn names_before(stmts: Seq<Stmt>, k: nat, s: Known) -> Known
    decreases k,
{
    if k == 0 || k > stmts.len() {
        s
    } else {
        let before = names_before(stmts, (k - 1) as nat, s);
        match stmts[k - 1].kind {
            StmtKind::Let { mutable, name, .. } => before.insert(name@, mutable),
            _ => before,
        }
    }
}

/// Whether the code is one of the expressions.
pub open spec fn one_of(es: Seq<Expr>, b: Code) -> bool {
    exists|k: int| 0 <= k < es.len() && b == Code::Expr(#[trigger] es[k])
}

/// Whether the code is the value of one of the fields.
pub open spec fn one_of_fields(fields: Seq<(String, Expr)>, b: Code) -> bool {
    exists|k: int| 0 <= k < fields.len() && b == Code::Expr((#[trigger] fields[k]).1)
}

/// Whether code stands directly in other code, and with which names.
pub open spec fn directly(a: Code, s: Known, b: Code, t: Known) -> bool {
    match a {
        Code::Block(x) => (exists|k: int|
            0 <= k < x.stmts@.len() && b == Code::Stmt(#[trigger] x.stmts@[k]) && t
                == names_before(x.stmts@, k as nat, s)) || (x.tail matches Some(e) && b
            == Code::Expr(*e) && t == names_before(x.stmts@, x.stmts@.len(), s)),
        Code::Stmt(x) => t == s && match x.kind {
            StmtKind::Let { value, .. } => b == Code::Expr(value),
            StmtKind::Assign { target, value } => b == Code::Expr(target) || b == Code::Expr(
                value,
            ),
            StmtKind::Expr(e) => b == Code::Expr(e),
            StmtKind::Break(value) => value matches Some(v) && b == Code::Expr(v),
        },
        Code::Expr(e) => match e.kind {
            ExprKind::Call(_, _, args, _) => t == s && one_of(args@, b),
            ExprKind::FieldAccess(base, _) => t == s && b == Code::Expr(*base),
            ExprKind::MethodCall(base, _, args) => t == s && (b == Code::Expr(*base) || one_of(
                args@,
                b,
            )),
            ExprKind::Index(base, indices) => t == s && (b == Code::Expr(*base) || one_of(
                indices@,
                b,
            )),
            ExprKind::ArrayLit(elems) => t == s && one_of(elems@, b),
            ExprKind::ArrayRepeat { value, count } => t == s && (b == Code::Expr(*value) || b
                == Code::Expr(*count)),
            ExprKind::StructLit(_, _, fields) => t == s && one_of_fields(fields@, b),
            ExprKind::If { cond, then_branch, else_branch } => t == s && (b == Code::Expr(*cond)
                || b == Code::Block(then_branch) || (else_branch matches Some(x) && match *x {
                ElseBranch::If(e2) => b == Code::Expr(e2),
                ElseBranch::Block(b2) => b == Code::Block(b2),
            })),
            ExprKind::While { cond, body } => t == s && (b == Code::Expr(*cond) || b
                == Code::Block(body)),
            ExprKind::For { var, start, end, body } => (t == s && (b == Code::Expr(*start) || b
                == Code::Expr(*end))) || (b == Code::Block(body) && t == s.insert(var@, false)),
            ExprKind::ForIn { var, iter, body } => (t == s && b == Code::Expr(*iter)) || (b
                == Code::Block(body) && t == s.insert(var@, false)),
            ExprKind::Loop { body } => t == s && b == Code::Block(body),
            ExprKind::Block(x) => t == s && b == Code::Block(x),
            ExprKind::Lambda { params, body, .. } => b == Code::Block(body) && t == with_params(
                params@,
                s,
            ),
            _ => false,
        },
    }
}

/// Whether code leads from one part to another, each directly in the one before it.
pub open spec fn descends(p: Seq<(Code, Known)>) -> bool {
    p.len() > 0 && forall|i: int|
        0 <= i < p.len() - 1 ==> directly(
            (#[trigger] p[i]).0,
            p[i].1,
            p[i + 1].0,
            p[i + 1].1,
        )
}

/// Whether each target is a field or an element of the next.
pub open spec fn narrows(q: Seq<Expr>) -> bool {
    q.len() > 0 && forall|i: int|
        0 <= i < q.len() - 1 ==> match (#[trigger] q[i]).kind {
            ExprKind::FieldAccess(base, _) => *base == q[i + 1],
            ExprKind::Index(base, _) => *base == q[i + 1],
            _ => false,
        }
}

/// Whether an expression is a plain name.
pub open spec fn is_name(e: Expr, n: Seq<char>) -> bool {
    e.kind matches ExprKind::Path(p) && p.segments@.len() == 1 && p.segments@[0]@ == n
}

/// Whether a target is what a name stands for, or a part of it.
pub open spec fn part_of(e: Expr, n: Seq<char>) -> bool {
    exists|q: Seq<Expr>| #[trigger] narrows(q) && q[0] == e && is_name(q.last(), n)
}

/// Whether code is an assignment to a name that is not mutable there, or to a part of what it
/// stands for.
pub open spec fn forbidden(a: Code, s: Known) -> bool {
    a matches Code::Stmt(x) && (x.kind matches StmtKind::Assign { target, .. } && exists|
        n: Seq<char>,
    | #[trigger]
        part_of(target, n) && s.contains_key(n) && !s[n])
}

proof fn lemma_root_found(e: Expr, n: Seq<char>)
    requires
        target_root(e) == Some(n),
    ensures
        part_of(e, n),
    decreases e,
{
    match e.kind {
        ExprKind::Path(_) => {
            let q = seq![e];
            assert(narrows(q) && q[0] == e && is_name(q.last(), n));
        },
        ExprKind::FieldAccess(base, _) => {
            lemma_root_found(*base, n);
            lemma_wider(e, *base, n);
        },
        ExprKind::Index(base, _) => {
            lemma_root_found(*base, n);
            lemma_wider(e, *base, n);
        },
        _ => {},
    }
}

proof fn lemma_wider(e: Expr, base: Expr, n: Seq<char>)
    requires
        part_of(base, n),
        match e.kind {
            ExprKind::FieldAccess(b, _) => *b == base,
            ExprKind::Index(b, _) => *b == base,
            _ => false,
        },
    ensures
        part_of(e, n),
{
    let q = choose|q: Seq<Expr>| #[trigger] narrows(q) && q[0] == base && is_name(q.last(), n);
    let r = seq![e] + q;
    assert forall|i: int| 0 <= i < r.len() - 1 implies match (#[trigger] r[i]).kind {
        ExprKind::FieldAccess(b, _) => *b == r[i + 1],
        ExprKind::Index(b, _) => *b == r[i + 1],
        _ => false,
    } by {
        if i > 0 {
            assert(r[i] == q[i - 1]);
            assert(r[i + 1] == q[(i - 1) + 1]);
        }
    }
    assert(narrows(r) && r[0] == e && r.last() == q.last());
}

proof fn lemma_root_is(q: Seq<Expr>, n: Seq<char>)
    requires
        narrows(q),
        is_name(q.last(), n),
    ensures
        target_root(q[0]) == Some(n),
    decreases q.len(),
{
    if q.len() > 1 {
        let r = q.subrange(1, q.len() as int);
        assert forall|i: int| 0 <= i < r.len() - 1 implies match (#[trigger] r[i]).kind {
            ExprKind::FieldAccess(b, _) => *b == r[i + 1],
            ExprKind::Index(b, _) => *b == r[i + 1],
            _ => false,
        } by {
            assert(r[i] == q[i + 1]);
            assert(r[i + 1] == q[(i + 1) + 1]);
        }
        assert(r.last() == q.last());
        lemma_root_is(r, n);
        assert(r[0] == q[1]);
    }
}

/// The name that a target changes.
proof fn lemma_root(e: Expr)
    ensures
        forall|n: Seq<char>| #[trigger] part_of(e, n) <==> target_root(e) == Some(n),
{
    assert forall|n: Seq<char>| #[trigger] part_of(e, n) <==> target_root(e) == Some(n) by {
        if target_root(e) == Some(n) {
            lemma_root_found(e, n);
        }
        if part_of(e, n) {
            let q = choose|q: Seq<Expr>| #[trigger]
                narrows(q) && q[0] == e && is_name(q.last(), n);
            lemma_root_is(q, n);
        }
    }
}

/// An assignment in which nothing else is wrong is refused exactly where it is forbidden.
proof fn lemma_own(x: Stmt, s: Known)
    ensures
        forbidden(Code::Stmt(x), s) ==> stmt_error(x, s) is Some,
        (x.kind matches StmtKind::Assign { target, value } && expr_error(target, s) is None
            && expr_error(value, s) is None && stmt_error(x, s) is Some) ==> forbidden(
            Code::Stmt(x),
            s,
        ),
{
    if let StmtKind::Assign { target, .. } = x.kind {
        lemma_root(target);
        if let Some(n) = target_root(target) {
            assert(part_of(target, n));
        }
    }
}

/// Whether code holds, at any depth, an assignment to a name that is not mutable there.
pub open spec fn assigns_wrongly(a: Code, s: Known) -> bool {
    exists|p: Seq<(Code, Known)>| #[trigger]
        descends(p) && p[0] == (a, s) && forbidden(p.last().0, p.last().1)
}

spec fn has_error(a: Code, s: Known) -> bool {
    match a {
        Code::Block(x) => block_error(x, s) is Some,
        Code::Stmt(x) => stmt_error(x, s) is Some,
        Code::Expr(e) => expr_error(e, s) is Some,
    }
}

proof fn lemma_deeper(a: Code, s: Known)
    ensures
        assigns_wrongly(a, s) <==> forbidden(a, s) || exists|b: Code, t: Known| #[trigger]
            directly(a, s, b, t) && assigns_wrongly(b, t),
{
    if forbidden(a, s) {
        let p = seq![(a, s)];
        assert(descends(p) && p[0] == (a, s) && p.last() == (a, s));
    }
    if exists|b: Code, t: Known| #[trigger] directly(a, s, b, t) && assigns_wrongly(b, t) {
        let (b, t) = choose|b: Code, t: Known| #[trigger]
            directly(a, s, b, t) && assigns_wrongly(b, t);
        let p = choose|p: Seq<(Code, Known)>| #[trigger]
            descends(p) && p[0] == (b, t) && forbidden(p.last().0, p.last().1);
        let q = seq![(a, s)] + p;
        assert forall|i: int| 0 <= i < q.len() - 1 implies directly(
            (#[trigger] q[i]).0,
            q[i].1,
            q[i + 1].0,
            q[i + 1].1,
        ) by {
            if i > 0 {
                assert(q[i] == p[i - 1]);
                assert(q[i + 1] == p[(i - 1) + 1]);
            }
        }
        assert(descends(q) && q[0] == (a, s) && q.last() == p.last());
    }
    if assigns_wrongly(a, s) && !forbidden(a, s) {
        let p = choose|p: Seq<(Code, Known)>| #[trigger]
            descends(p) && p[0] == (a, s) && forbidden(p.last().0, p.last().1);
        assert(p.len() > 1);
        let q = p.subrange(1, p.len() as int);
        assert forall|i: int| 0 <= i < q.len() - 1 implies directly(
            (#[trigger] q[i]).0,
            q[i].1,
            q[i + 1].0,
            q[i + 1].1,
        ) by {
            assert(q[i] == p[i + 1]);
            assert(q[i + 1] == p[(i + 1) + 1]);
        }
        assert(descends(q) && q.last() == p.last());
        assert(directly(p[0].0, p[0].1, p[1].0, p[1].1));
        assert(q[0] == (p[1].0, p[1].1));
        assert(assigns_wrongly(p[1].0, p[1].1));
    }
}

proof fn lemma_list(es: Vec<Expr>, i: nat, s: Known)
    requires
        i <= es@.len(),
    ensures
        exprs_error(es, i, s) is Some <==> exists|k: int|
            i <= k < es@.len() && expr_error(#[trigger] es@[k], s) is Some,
    decreases es@.len() - i,
{
    if i < es@.len() {
        lemma_list(es, i + 1, s);
    }
}

proof fn lemma_field_list(fields: Vec<(String, Expr)>, i: nat, s: Known)
    requires
        i <= fields@.len(),
    ensures
        fields_error(fields, i, s) is Some <==> exists|k: int|
            i <= k < fields@.len() && expr_error((#[trigger] fields@[k]).1, s) is Some,
    decreases fields@.len() - i,
{
    if i < fields@.len() {
        lemma_field_list(fields, i + 1, s);
    }
}

proof fn lemma_stmt_list(stmts: Vec<Stmt>, i: nat, s: Known)
    requires
        i <= stmts@.len(),
    ensures
        ({
            let r = stmts_error(stmts, i, names_before(stmts@, i, s));
            &&& r.1 is Some <==> exists|k: int|
                i <= k < stmts@.len() && stmt_error(
                    #[trigger] stmts@[k],
                    names_before(stmts@, k as nat, s),
                ) is Some
            &&& r.1 is None ==> r.0 == names_before(stmts@, stmts@.len(), s)
        }),
    decreases stmts@.len() - i,
{
    if i < stmts@.len() {
        lemma_stmt_list(stmts, i + 1, s);
        assert(scope_after(stmts@[i as int], names_before(stmts@, i, s)) == names_before(
            stmts@,
            i + 1,
            s,
        ));
    }
}

proof fn lemma_params(params: Seq<Param>, n: nat, s: Known)
    requires
        n <= params.len(),
    ensures
        params_scope(params, n, s) == with_params(params.take(n as int), s),
    decreases n,
{
    let now = params.take(n as int);
    if n > 0 {
        lemma_params(params, (n - 1) as nat, s);
        let then = params.take(n - 1);
        assert forall|x: Seq<char>| #[trigger] is_param(now, x) == (is_param(then, x) || x
            == params[n - 1].name@) by {
            if is_param(then, x) {
                let k = choose|k: int| 0 <= k < then.len() && (#[trigger] then[k]).name@ == x;
                assert(now[k] == then[k]);
            }
            if x == params[n - 1].name@ {
                assert(now[n - 1].name@ == x);
            }
            if is_param(now, x) {
                let k = choose|k: int| 0 <= k < now.len() && (#[trigger] now[k]).name@ == x;
                if k < n - 1 {
                    assert(then[k] == now[k]);
                }
            }
        }
    } else {
        assert forall|x: Seq<char>| !#[trigger] is_param(now, x) by {}
    }
    assert(params_scope(params, n, s) =~= with_params(now, s));
}

proof fn lemma_scope_of(params: Seq<Param>, s: Known)
    ensures
        params_scope(params, params.len(), s) == with_params(params, s),
{
    lemma_params(params, params.len(), s);
    assert(params.take(params.len() as int) =~= params);
}

spec fn part_has_error(a: Code, s: Known) -> bool {
    exists|b: Code, t: Known| #[trigger] directly(a, s, b, t) && has_error(b, t)
}

proof fn lemma_some_part(a: Code, s: Known, b: Code, t: Known)
    requires
        directly(a, s, b, t),
        has_error(b, t),
    ensures
        part_has_error(a, s),
{
}

proof fn lemma_parts_of_list(a: Code, s: Known, es: Vec<Expr>)
    requires
        forall|b: Code| #[trigger] one_of(es@, b) ==> directly(a, s, b, s),
        exprs_error(es, 0, s) is Some,
    ensures
        part_has_error(a, s),
{
    lemma_list(es, 0, s);
    let k = choose|k: int| 0 <= k < es@.len() && expr_error(#[trigger] es@[k], s) is Some;
    assert(one_of(es@, Code::Expr(es@[k])));
    lemma_some_part(a, s, Code::Expr(es@[k]), s);
}

/// Code has an error of its own or in one of its parts.
#[verifier::spinoff_prover]
#[verifier::rlimit(40)]
proof fn lemma_error_in_parts(a: Code, s: Known)
    requires
        has_error(a, s),
    ensures
        forbidden(a, s) || part_has_error(a, s),
{
    if let Code::Stmt(x) = a {
        lemma_own(x, s);
    }
    match a {
        Code::Block(x) => {
            lemma_stmt_list(x.stmts, 0, s);
            if stmts_error(x.stmts, 0, s).1 is Some {
                let k = choose|k: int|
                    0 <= k < x.stmts@.len() && stmt_error(
                        #[trigger] x.stmts@[k],
                        names_before(x.stmts@, k as nat, s),
                    ) is Some;
                lemma_some_part(
                    a,
                    s,
                    Code::Stmt(x.stmts@[k]),
                    names_before(x.stmts@, k as nat, s),
                );
            } else {
                lemma_some_part(
                    a,
                    s,
                    Code::Expr(*x.tail->0),
                    names_before(x.stmts@, x.stmts@.len(), s),
                );
            }
        },
        Code::Stmt(x) => match x.kind {
            StmtKind::Let { value, .. } => lemma_some_part(a, s, Code::Expr(value), s),
            StmtKind::Assign { target, value } => {
                if expr_error(target, s) is Some {
                    lemma_some_part(a, s, Code::Expr(target), s);
                } else if expr_error(value, s) is Some {
                    lemma_some_part(a, s, Code::Expr(value), s);
                }
            },
            StmtKind::Expr(e) => lemma_some_part(a, s, Code::Expr(e), s),
            StmtKind::Break(value) => lemma_some_part(a, s, Code::Expr(value->0), s),
        },
        Code::Expr(e) => match e.kind {
            ExprKind::Call(_, _, args, _) => lemma_parts_of_list(a, s, args),
            ExprKind::FieldAccess(base, _) => lemma_some_part(a, s, Code::Expr(*base), s),
            ExprKind::MethodCall(base, _, args) => {
                if expr_error(*base, s) is Some {
                    lemma_some_part(a, s, Code::Expr(*base), s);
                } else {
                    lemma_parts_of_list(a, s, args);
                }
            },
            ExprKind::Index(base, indices) => {
                if expr_error(*base, s) is Some {
                    lemma_some_part(a, s, Code::Expr(*base), s);
                } else {
                    lemma_parts_of_list(a, s, indices);
                }
            },
            ExprKind::ArrayLit(elems) => lemma_parts_of_list(a, s, elems),
            ExprKind::ArrayRepeat { value, count } => {
                if expr_error(*value, s) is Some {
                    lemma_some_part(a, s, Code::Expr(*value), s);
                } else {
                    lemma_some_part(a, s, Code::Expr(*count), s);
                }
            },
            ExprKind::StructLit(_, _, fields) => {
                lemma_field_list(fields, 0, s);
                let k = choose|k: int|
                    0 <= k < fields@.len() && expr_error((#[trigger] fields@[k]).1, s) is Some;
                assert(one_of_fields(fields@, Code::Expr(fields@[k].1)));
                lemma_some_part(a, s, Code::Expr(fields@[k].1), s);
            },
            ExprKind::If { cond, then_branch, else_branch } => {
                if expr_error(*cond, s) is Some {
                    lemma_some_part(a, s, Code::Expr(*cond), s);
                } else if block_error(then_branch, s) is Some {
                    lemma_some_part(a, s, Code::Block(then_branch), s);
                } else {
                    match *else_branch->0 {
                        ElseBranch::If(e2) => lemma_some_part(a, s, Code::Expr(e2), s),
                        ElseBranch::Block(b2) => lemma_some_part(a, s, Code::Block(b2), s),
                    }
                }
            },
            ExprKind::While { cond, body } => {
                if expr_error(*cond, s) is Some {
                    lemma_some_part(a, s, Code::Expr(*cond), s);
                } else {
                    lemma_some_part(a, s, Code::Block(body), s);
                }
            },
            ExprKind::For { var, start, end, body } => {
                if expr_error(*start, s) is Some {
                    lemma_some_part(a, s, Code::Expr(*start), s);
                } else if expr_error(*end, s) is Some {
                    lemma_some_part(a, s, Code::Expr(*end), s);
                } else {
                    lemma_some_part(a, s, Code::Block(body), s.insert(var@, false));
                }
            },
            ExprKind::ForIn { var, iter, body } => {
                if expr_error(*iter, s) is Some {
                    lemma_some_part(a, s, Code::Expr(*iter), s);
                } else {
                    lemma_some_part(a, s, Code::Block(body), s.insert(var@, false));
                }
            },
            ExprKind::Loop { body } => lemma_some_part(a, s, Code::Block(body), s),
            ExprKind::Block(b) => lemma_some_part(a, s, Code::Block(b), s),
            ExprKind::Lambda { params, body, .. } => {
                lemma_scope_of(params@, s);
                lemma_some_part(a, s, Code::Block(body), with_params(params@, s));
            },
            _ => {},
        },
    }
}

/// What is wrong with a part of code is wrong with the code.
#[verifier::spinoff_prover]
#[verifier::rlimit(40)]
proof fn lemma_part_in_error(a: Code, s: Known, b: Code, t: Known)
    requires
        directly(a, s, b, t),
        has_error(b, t),
    ensures
        has_error(a, s),
{
    match a {
        Code::Block(x) => lemma_stmt_list(x.stmts, 0, s),
        Code::Stmt(x) => {},
        Code::Expr(e) => match e.kind {
            ExprKind::Call(_, _, args, _) => lemma_list(args, 0, s),
            ExprKind::MethodCall(_, _, args) => lemma_list(args, 0, s),
            ExprKind::Index(_, indices) => lemma_list(indices, 0, s),
            ExprKind::ArrayLit(elems) => lemma_list(elems, 0, s),
            ExprKind::StructLit(_, _, fields) => lemma_field_list(fields, 0, s),
            ExprKind::Lambda { params, .. } => lemma_scope_of(params@, s),
            _ => {},
        },
    }
}

/// What stands directly in an expression is smaller.
proof fn lemma_smaller_expr(e: Expr, s: Known, b: Code, t: Known)
    requires
        directly(Code::Expr(e), s, b, t),
    ensures
        match b {
            Code::Expr(x) => decreases_to!(e => x),
            Code::Block(x) => decreases_to!(e => x),
            Code::Stmt(_) => false,
        },
{
    match e.kind {
        ExprKind::Call(_, _, args, _) => lemma_smaller_in(args, b),
        ExprKind::FieldAccess(base, _) => assert(decreases_to!(e => *base)),
        ExprKind::MethodCall(base, _, args) => {
            assert(decreases_to!(e => *base));
            if one_of(args@, b) {
                lemma_smaller_in(args, b);
            }
        },
        ExprKind::Index(base, indices) => {
            assert(decreases_to!(e => *base));
            if one_of(indices@, b) {
                lemma_smaller_in(indices, b);
            }
        },
        ExprKind::ArrayLit(elems) => lemma_smaller_in(elems, b),
        ExprKind::ArrayRepeat { value, count } => {
            assert(decreases_to!(e => *value));
            assert(decreases_to!(e => *count));
        },
        ExprKind::StructLit(_, _, fields) => {
            let k = choose|k: int|
                0 <= k < fields@.len() && b == Code::Expr((#[trigger] fields@[k]).1);
            assert(decreases_to!(fields => fields@));
            assert(decreases_to!(fields@ => fields@[k]));
            assert(decreases_to!(fields@[k] => fields@[k].1));
            assert(decreases_to!(e => fields));
        },
        ExprKind::If { cond, then_branch, else_branch } => {
            assert(decreases_to!(e => *cond));
            assert(decreases_to!(e => then_branch));
            if let Some(x) = else_branch {
                assert(decreases_to!(e => *x));
                match *x {
                    ElseBranch::If(e2) => assert(decreases_to!(*x => e2)),
                    ElseBranch::Block(b2) => assert(decreases_to!(*x => b2)),
                }
            }
        },
        ExprKind::While { cond, body } => {
            assert(decreases_to!(e => *cond));
            assert(decreases_to!(e => body));
        },
        ExprKind::For { start, end, body, .. } => {
            assert(decreases_to!(e => *start));
            assert(decreases_to!(e => *end));
            assert(decreases_to!(e => body));
        },
        ExprKind::ForIn { iter, body, .. } => {
            assert(decreases_to!(e => *iter));
            assert(decreases_to!(e => body));
        },
        ExprKind::Loop { body } => assert(decreases_to!(e => body)),
        ExprKind::Block(x) => assert(decreases_to!(e => x)),
        ExprKind::Lambda { body, .. } => assert(decreases_to!(e => body)),
        _ => {},
    }
}

proof fn lemma_smaller_in(es: Vec<Expr>, b: Code)
    requires
        one_of(es@, b),
    ensures
        b matches Code::Expr(x) && decreases_to!(es => x),
{
    let k = choose|k: int| 0 <= k < es@.len() && b == Code::Expr(#[trigger] es@[k]);
    assert(decreases_to!(es => es@));
    assert(decreases_to!(es@ => es@[k]));
}

proof fn lemma_found_in_expr(e: Expr, s: Known)
    requires
        expr_error(e, s) is Some,
    ensures
        assigns_wrongly(Code::Expr(e), s),
    decreases e,
{
    let a = Code::Expr(e);
    lemma_error_in_parts(a, s);
    let (b, t) = choose|b: Code, t: Known| #[trigger] directly(a, s, b, t) && has_error(b, t);
    lemma_smaller_expr(e, s, b, t);
    match b {
        Code::Expr(x) => lemma_found_in_expr(x, t),
        Code::Block(x) => lemma_found_in_block(x, t),
        Code::Stmt(_) => {},
    }
    lemma_deeper(a, s);
}

proof fn lemma_found_in_block(x: Block, s: Known)
    requires
        block_error(x, s) is Some,
    ensures
        assigns_wrongly(Code::Block(x), s),
    decreases x,
{
    let a = Code::Block(x);
    lemma_error_in_parts(a, s);
    let (b, t) = choose|b: Code, t: Known| #[trigger] directly(a, s, b, t) && has_error(b, t);
    match b {
        Code::Expr(e) => {
            assert(x.tail matches Some(last) && e == *last);
            lemma_found_in_expr(*x.tail->0, t);
        },
        Code::Stmt(y) => {
            let k = choose|k: int|
                0 <= k < x.stmts@.len() && b == Code::Stmt(#[trigger] x.stmts@[k]) && t
                    == names_before(x.stmts@, k as nat, s);
            assert(decreases_to!(x.stmts => x.stmts@));
            assert(decreases_to!(x.stmts@ => x.stmts@[k]));
            lemma_found_in_stmt(x.stmts@[k], t);
        },
        Code::Block(_) => {},
    }
    lemma_deeper(a, s);
}

proof fn lemma_found_in_stmt(x: Stmt, s: Known)
    requires
        stmt_error(x, s) is Some,
    ensures
        assigns_wrongly(Code::Stmt(x), s),
    decreases x,
{
    let a = Code::Stmt(x);
    lemma_error_in_parts(a, s);
    if !forbidden(a, s) {
        match x.kind {
            StmtKind::Let { value, .. } => lemma_found_in_expr(value, s),
            StmtKind::Assign { target, value } => {
                if expr_error(target, s) is Some {
                    lemma_found_in_expr(target, s);
                    assert(directly(a, s, Code::Expr(target), s));
                } else {
                    lemma_found_in_expr(value, s);
                    assert(directly(a, s, Code::Expr(value), s));
                }
            },
            StmtKind::Expr(e) => lemma_found_in_expr(e, s),
            StmtKind::Break(value) => lemma_found_in_expr(value->0, s),
        }
        match x.kind {
            StmtKind::Let { value, .. } => assert(directly(a, s, Code::Expr(value), s)),
            StmtKind::Expr(e) => assert(directly(a, s, Code::Expr(e), s)),
            StmtKind::Break(value) => assert(directly(a, s, Code::Expr(value->0), s)),
            _ => {},
        }
    }
    lemma_deeper(a, s);
}

proof fn lemma_path_in_error(p: Seq<(Code, Known)>)
    requires
        descends(p),
        forbidden(p.last().0, p.last().1),
    ensures
        has_error(p[0].0, p[0].1),
    decreases p.len(),
{
    if p.len() == 1 {
        if let Code::Stmt(x) = p[0].0 {
            lemma_own(x, p[0].1);
        }
    } else {
        let q = p.subrange(1, p.len() as int);
        assert forall|i: int| 0 <= i < q.len() - 1 implies directly(
            (#[trigger] q[i]).0,
            q[i].1,
            q[i + 1].0,
            q[i + 1].1,
        ) by {
            assert(q[i] == p[i + 1]);
            assert(q[i + 1] == p[(i + 1) + 1]);
        }
        assert(q.last() == p.last());
        lemma_path_in_error(q);
        assert(q[0] == p[1]);
        lemma_part_in_error(p[0].0, p[0].1, p[1].0, p[1].1);
    }
}

/// A function is refused for an assignment exactly where an assignment in its body, at any
/// depth, is to a name that the innermost binding around it does not make mutable: a
/// parameter, a loop's name or a `let` without `mut`.
pub proof fn lemma_assignments(f: FnDecl)
    ensures
        mutability_error(f) is Some <==> (f.body matches Some(body) && assigns_wrongly(
            Code::Block(body),
            with_params(f.params@, Map::empty()),
        )),
{
    if let Some(body) = f.body {
        let s = with_params(f.params@, Map::empty());
        lemma_scope_of(f.params@, Map::empty());
        let a = Code::Block(body);
        if block_error(body, s) is Some {
            lemma_found_in_block(body, s);
        }
        if assigns_wrongly(a, s) {
            let p = choose|p: Seq<(Code, Known)>| #[trigger]
                descends(p) && p[0] == (a, s) && forbidden(p.last().0, p.last().1);
            lemma_path_in_error(p);
        }
    }
}

} // verus!
