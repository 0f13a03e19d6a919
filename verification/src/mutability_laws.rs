//! What holds of the check that only mutable names are assigned to.

use vstd::prelude::*;

use crate::ast::{Block, ElseBranch, Expr, ExprKind, FnDecl, Param, Stmt, StmtKind};
use crate::errors::TypeErrorV;
use crate::mutability::{
    block_error, expr_error, exprs_error, fields_error, mutability_error, params_scope,
    scope_after, stmt_error, stmts_error, target_root,
};

verus! {

/// Whether every name that the second scope holds as not mutable, the first does
/// too.
pub open spec fn stricter(s: Map<Seq<char>, bool>, t: Map<Seq<char>, bool>) -> bool {
    forall|n: Seq<char>| #[trigger] t.contains_key(n) && !t[n] ==> s.contains_key(n) && !s[n]
}

/// Whether an error, if there is one, is that of an assignment to a name that is not
/// mutable.
pub open spec fn refuses_assignment(e: Option<TypeErrorV>) -> bool {
    e matches Some(x) ==> x.kind is AssignToImmutable
}

proof fn lemma_params_stricter(
    params: Seq<Param>,
    n: nat,
    s: Map<Seq<char>, bool>,
    t: Map<Seq<char>, bool>,
)
    requires
        stricter(s, t),
    ensures
        stricter(params_scope(params, n, s), params_scope(params, n, t)),
    decreases n,
{
    if !(n == 0 || n > params.len()) {
        lemma_params_stricter(params, (n - 1) as nat, s, t);
    }
}

/// What the check reports is an assignment to a name that is not mutable.
pub proof fn lemma_reports_assignments(f: FnDecl)
    ensures
        refuses_assignment(mutability_error(f)),
{
    if let Some(body) = f.body {
        let scope = params_scope(f.params@, f.params@.len(), Map::empty());
        lemma_block(body, scope, scope);
    }
}

/// A block that is accepted where fewer names are mutable is accepted where more
/// are.
pub proof fn lemma_more_mutable(b: Block, s: Map<Seq<char>, bool>, t: Map<Seq<char>, bool>)
    requires
        stricter(s, t),
        block_error(b, s) is None,
    ensures
        block_error(b, t) is None,
{
    lemma_block(b, s, t);
}

proof fn lemma_param_in_scope(params: Seq<Param>, n: nat, scope: Map<Seq<char>, bool>, i: nat)
    requires
        i < n <= params.len(),
    ensures
        params_scope(params, n, scope).contains_key(params[i as int].name@),
        !params_scope(params, n, scope)[params[i as int].name@],
    decreases n,
{
    if i < n - 1 {
        lemma_param_in_scope(params, (n - 1) as nat, scope, i);
    }
}

proof fn lemma_assigned_later(
    stmts: Vec<Stmt>,
    j: nat,
    k: nat,
    scope: Map<Seq<char>, bool>,
    name: Seq<char>,
)
    requires
        j <= k < stmts@.len(),
        scope.contains_key(name) && !scope[name],
        assigns(stmts@[k as int], name),
        forall|m: int| j <= m < k ==> !binds(#[trigger] stmts@[m], name),
    ensures
        stmts_error(stmts, j, scope).1 is Some,
    decreases k - j,
{
    if j < k {
        let s = stmts@[j as int];
        assert(!binds(s, name));
        if stmt_error(s, scope) is None {
            lemma_assigned_later(stmts, j + 1, k, scope_after(s, scope), name);
        }
    } else {
        assert(stmt_error(stmts@[k as int], scope) is Some);
    }
}

/// Whether a statement assigns to a name, or to a part of what it stands for.
pub open spec fn assigns(s: Stmt, name: Seq<char>) -> bool {
    s.kind matches StmtKind::Assign { target, .. } && target_root(target) == Some(name)
}

/// Whether a statement binds a name.
pub open spec fn binds(s: Stmt, name: Seq<char>) -> bool {
    s.kind matches StmtKind::Let { name: own, .. } && own@ == name
}

/// Parameters are never mutable: a function that assigns to one, before the name is bound to
/// something else, is refused.
pub proof fn lemma_parameters_are_not_assigned(f: FnDecl, i: nat, k: nat)
    requires
        i < f.params@.len(),
        f.body is Some,
        k < f.body->0.stmts@.len(),
        assigns(f.body->0.stmts@[k as int], f.params@[i as int].name@),
        forall|m: int|
            0 <= m < k ==> !binds(#[trigger] f.body->0.stmts@[m], f.params@[i as int].name@),
    ensures
        mutability_error(f) is Some,
{
    let n = f.params@.len();
    let scope = params_scope(f.params@, n, Map::empty());
    lemma_param_in_scope(f.params@, n, Map::empty(), i);
    lemma_assigned_later(f.body->0.stmts, 0, k, scope, f.params@[i as int].name@);
}

/// An assignment to a name that is not in scope is not refused.
pub proof fn lemma_unknown_name_may_be_assigned(s: Stmt)
    requires
        s.kind is Assign,
        expr_error(s.kind->target, Map::empty()) is None,
        expr_error(s.kind->Assign_value, Map::empty()) is None,
    ensures
        stmt_error(s, Map::empty()) is None,
{
}

proof fn lemma_block(b: Block, s: Map<Seq<char>, bool>, t: Map<Seq<char>, bool>)
    ensures
        refuses_assignment(block_error(b, s)),
        stricter(s, t) && block_error(b, s) is None ==> block_error(b, t) is None,
    decreases b, 0nat,
{
    lemma_stmts(b.stmts, 0, s, t);
    let (si, _) = stmts_error(b.stmts, 0, s);
    let (ti, _) = stmts_error(b.stmts, 0, t);
    if let Some(tail) = b.tail {
        lemma_expr(*tail, si, ti);
    }
}

proof fn lemma_stmts(
    stmts: Vec<Stmt>,
    i: nat,
    s: Map<Seq<char>, bool>,
    t: Map<Seq<char>, bool>,
)
    ensures
        refuses_assignment(stmts_error(stmts, i, s).1),
        stricter(s, t) && stmts_error(stmts, i, s).1 is None ==> stmts_error(stmts, i, t).1
            is None && stricter(stmts_error(stmts, i, s).0, stmts_error(stmts, i, t).0),
    decreases stmts, stmts@.len() - i,
{
    if i < stmts@.len() {
        let x = stmts@[i as int];
        lemma_stmt(x, s, t);
        lemma_stmts(stmts, i + 1, scope_after(x, s), scope_after(x, t));
    }
}

proof fn lemma_stmt(x: Stmt, s: Map<Seq<char>, bool>, t: Map<Seq<char>, bool>)
    ensures
        refuses_assignment(stmt_error(x, s)),
        stricter(s, t) && stmt_error(x, s) is None ==> stmt_error(x, t) is None,
    decreases x, 0nat,
{
    match x.kind {
        StmtKind::Let { value, .. } => lemma_expr(value, s, t),
        StmtKind::Assign { target, value } => {
            lemma_expr(target, s, t);
            lemma_expr(value, s, t);
        },
        StmtKind::Expr(e) => lemma_expr(e, s, t),
        StmtKind::Break(value) => {
            if let Some(v) = value {
                lemma_expr(v, s, t);
            }
        },
    }
}

proof fn lemma_expr(e: Expr, s: Map<Seq<char>, bool>, t: Map<Seq<char>, bool>)
    ensures
        refuses_assignment(expr_error(e, s)),
        stricter(s, t) && expr_error(e, s) is None ==> expr_error(e, t) is None,
    decreases e, 0nat,
{
    match e.kind {
        ExprKind::Call(_, _, args, _) => lemma_exprs(args, 0, s, t),
        ExprKind::FieldAccess(base, _) => lemma_expr(*base, s, t),
        ExprKind::MethodCall(base, _, args) => {
            lemma_expr(*base, s, t);
            lemma_exprs(args, 0, s, t);
        },
        ExprKind::Index(base, indices) => {
            lemma_expr(*base, s, t);
            lemma_exprs(indices, 0, s, t);
        },
        ExprKind::ArrayLit(elems) => lemma_exprs(elems, 0, s, t),
        ExprKind::ArrayRepeat { value, count } => {
            lemma_expr(*value, s, t);
            lemma_expr(*count, s, t);
        },
        ExprKind::StructLit(_, _, fields) => lemma_fields(fields, 0, s, t),
        ExprKind::If { cond, then_branch, else_branch } => {
            lemma_expr(*cond, s, t);
            lemma_block(then_branch, s, t);
            if let Some(b) = else_branch {
                match *b {
                    ElseBranch::If(e2) => lemma_expr(e2, s, t),
                    ElseBranch::Block(b2) => lemma_block(b2, s, t),
                }
            }
        },
        ExprKind::While { cond, body } => {
            lemma_expr(*cond, s, t);
            lemma_block(body, s, t);
        },
        ExprKind::For { var, start, end, body } => {
            lemma_expr(*start, s, t);
            lemma_expr(*end, s, t);
            lemma_block(body, s.insert(var@, false), t.insert(var@, false));
        },
        ExprKind::ForIn { var, iter, body } => {
            lemma_expr(*iter, s, t);
            lemma_block(body, s.insert(var@, false), t.insert(var@, false));
        },
        ExprKind::Loop { body } => lemma_block(body, s, t),
        ExprKind::Block(b) => lemma_block(b, s, t),
        ExprKind::Lambda { params, body, .. } => {
            let si = params_scope(params@, params@.len(), s);
            let ti = params_scope(params@, params@.len(), t);
            lemma_block(body, si, ti);
            if stricter(s, t) {
                lemma_params_stricter(params@, params@.len(), s, t);
            }
        },
        _ => {},
    }
}

proof fn lemma_exprs(es: Vec<Expr>, i: nat, s: Map<Seq<char>, bool>, t: Map<Seq<char>, bool>)
    ensures
        refuses_assignment(exprs_error(es, i, s)),
        stricter(s, t) && exprs_error(es, i, s) is None ==> exprs_error(es, i, t) is None,
    decreases es, es@.len() - i,
{
    if i < es@.len() {
        lemma_expr(es@[i as int], s, t);
        lemma_exprs(es, i + 1, s, t);
    }
}

proof fn lemma_fields(
    fields: Vec<(String, Expr)>,
    i: nat,
    s: Map<Seq<char>, bool>,
    t: Map<Seq<char>, bool>,
)
    ensures
        refuses_assignment(fields_error(fields, i, s)),
        stricter(s, t) && fields_error(fields, i, s) is None ==> fields_error(fields, i, t)
            is None,
    decreases fields, fields@.len() - i,
{
    if i < fields@.len() {
        lemma_expr(fields@[i as int].1, s, t);
        lemma_fields(fields, i + 1, s, t);
    }
}

} // verus!
