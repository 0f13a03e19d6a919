//! Only a binding that was declared mutable may be assigned to.

use vstd::prelude::*;

use crate::ast::{Block, ElseBranch, Expr, ExprKind, FnDecl, Param, Stmt, StmtKind};
use crate::errors::{error_at, TypeError, TypeErrorKind, TypeErrorKindV, TypeErrorV};
use crate::table::{Dup, Table};

verus! {

impl Dup for bool {
    fn dup(&self) -> (r: Self) {
        *self
    }
}

/// The error of a check, if it found one.
pub open spec fn error_of(r: Result<(), TypeError>) -> Option<TypeErrorV> {
    match r {
        Ok(_) => None,
        Err(e) => Some(e@),
    }
}

/// Whether each name in scope is mutable.
pub type Scope = Table<String, bool>;

/// The name that an assignment changes: that of the variable which the target
/// is, or is a part of.
pub open spec fn target_root(e: Expr) -> Option<Seq<char>>
    decreases e,
{
    match e.kind {
        ExprKind::Path(p) => if p.segments@.len() == 1 {
            Some(p.segments@[0]@)
        } else {
            None
        },
        ExprKind::FieldAccess(base, _) => target_root(*base),
        ExprKind::Index(base, _) => target_root(*base),
        _ => None,
    }
}

/// The scope with the first `n` parameters in it. No parameter is mutable.
pub open spec fn params_scope(
    params: Seq<Param>,
    n: nat,
    scope: Map<Seq<char>, bool>,
) -> Map<Seq<char>, bool>
    decreases n,
{
    if n == 0 || n > params.len() {
        scope
    } else {
        params_scope(params, (n - 1) as nat, scope).insert(params[n - 1].name@, false)
    }
}

/// The first assignment in a function to a name that is not mutable.
pub open spec fn mutability_error(f: FnDecl) -> Option<TypeErrorV> {
    match f.body {
        None => None,
        Some(body) => block_error(body, params_scope(f.params@, f.params@.len(), Map::empty())),
    }
}

/// The first such assignment in a block.
pub open spec fn block_error(b: Block, scope: Map<Seq<char>, bool>) -> Option<TypeErrorV>
    decreases b, 0nat,
{
    let (inner, found) = stmts_error(b.stmts, 0, scope);
    match found {
        Some(e) => Some(e),
        None => match b.tail {
            Some(tail) => expr_error(*tail, inner),
            None => None,
        },
    }
}

/// The first such assignment in the statements from the `i`th on, and the scope
/// after them.
pub open spec fn stmts_error(stmts: Vec<Stmt>, i: nat, scope: Map<Seq<char>, bool>) -> (
    Map<Seq<char>, bool>,
    Option<TypeErrorV>,
)
    decreases stmts, stmts@.len() - i,
{
    if i >= stmts@.len() {
        (scope, None)
    } else {
        let s = stmts@[i as int];
        match stmt_error(s, scope) {
            Some(e) => (scope, Some(e)),
            None => stmts_error(stmts, i + 1, scope_after(s, scope)),
        }
    }
}

/// The scope after a statement.
pub open spec fn scope_after(s: Stmt, scope: Map<Seq<char>, bool>) -> Map<Seq<char>, bool> {
    match s.kind {
        StmtKind::Let { mutable, name, .. } => scope.insert(name@, mutable),
        _ => scope,
    }
}

/// The first such assignment in a statement.
pub open spec fn stmt_error(s: Stmt, scope: Map<Seq<char>, bool>) -> Option<TypeErrorV>
    decreases s, 0nat,
{
    match s.kind {
        StmtKind::Let { value, .. } => expr_error(value, scope),
        StmtKind::Assign { target, value } => match expr_error(target, scope) {
            Some(e) => Some(e),
            None => match expr_error(value, scope) {
                Some(e) => Some(e),
                None => match target_root(target) {
                    Some(root) => if scope.contains_key(root) && !scope[root] {
                        Some(
                            error_at(s.span, TypeErrorKindV::AssignToImmutable { name: root }),
                        )
                    } else {
                        None
                    },
                    None => None,
                },
            },
        },
        StmtKind::Expr(e) => expr_error(e, scope),
        StmtKind::Break(value) => match value {
            Some(v) => expr_error(v, scope),
            None => None,
        },
    }
}

/// The first such assignment in an expression.
pub open spec fn expr_error(e: Expr, scope: Map<Seq<char>, bool>) -> Option<TypeErrorV>
    decreases e, 0nat,
{
    match e.kind {
        ExprKind::NumberLit { .. } => None,
        ExprKind::ImaginaryLit { .. } => None,
        ExprKind::BoolLit(_) => None,
        ExprKind::Path(_) => None,
        ExprKind::PackRef(_) => None,
        ExprKind::Call(_, _, args, _) => exprs_error(args, 0, scope),
        ExprKind::FieldAccess(base, _) => expr_error(*base, scope),
        ExprKind::MethodCall(base, _, args) => match expr_error(*base, scope) {
            Some(x) => Some(x),
            None => exprs_error(args, 0, scope),
        },
        ExprKind::Index(base, indices) => match expr_error(*base, scope) {
            Some(x) => Some(x),
            None => exprs_error(indices, 0, scope),
        },
        ExprKind::ArrayLit(elems) => exprs_error(elems, 0, scope),
        ExprKind::ArrayRepeat { value, count } => match expr_error(*value, scope) {
            Some(x) => Some(x),
            None => expr_error(*count, scope),
        },
        ExprKind::StructLit(_, _, fields) => fields_error(fields, 0, scope),
        ExprKind::If { cond, then_branch, else_branch } => match expr_error(*cond, scope) {
            Some(x) => Some(x),
            None => match block_error(then_branch, scope) {
                Some(x) => Some(x),
                None => match else_branch {
                    Some(b) => match *b {
                        ElseBranch::If(e2) => expr_error(e2, scope),
                        ElseBranch::Block(b2) => block_error(b2, scope),
                    },
                    None => None,
                },
            },
        },
        ExprKind::While { cond, body } => match expr_error(*cond, scope) {
            Some(x) => Some(x),
            None => block_error(body, scope),
        },
        ExprKind::For { var, start, end, body } => match expr_error(*start, scope) {
            Some(x) => Some(x),
            None => match expr_error(*end, scope) {
                Some(x) => Some(x),
                None => block_error(body, scope.insert(var@, false)),
            },
        },
        ExprKind::ForIn { var, iter, body } => match expr_error(*iter, scope) {
            Some(x) => Some(x),
            None => block_error(body, scope.insert(var@, false)),
        },
        ExprKind::Loop { body } => block_error(body, scope),
        ExprKind::Block(b) => block_error(b, scope),
        ExprKind::Lambda { params, body, .. } => block_error(
            body,
            params_scope(params@, params@.len(), scope),
        ),
    }
}

/// The first such assignment in the expressions from the `i`th on.
pub open spec fn exprs_error(es: Vec<Expr>, i: nat, scope: Map<Seq<char>, bool>) -> Option<
    TypeErrorV,
>
    decreases es, es@.len() - i,
{
    if i >= es@.len() {
        None
    } else {
        match expr_error(es@[i as int], scope) {
            Some(x) => Some(x),
            None => exprs_error(es, i + 1, scope),
        }
    }
}

/// The first such assignment in the field values from the `i`th on.
pub open spec fn fields_error(
    fields: Vec<(String, Expr)>,
    i: nat,
    scope: Map<Seq<char>, bool>,
) -> Option<TypeErrorV>
    decreases fields, fields@.len() - i,
{
    if i >= fields@.len() {
        None
    } else {
        match expr_error(fields@[i as int].1, scope) {
            Some(x) => Some(x),
            None => fields_error(fields, i + 1, scope),
        }
    }
}

/// Checks that a function assigns to mutable names only.
pub fn check_mutability(f: &FnDecl) -> (r: Result<(), TypeError>)
    ensures
        error_of(r) == mutability_error(*f),
{
    match &f.body {
        None => Ok(()),
        Some(body) => {
            let mut scope: Scope = Table::new();
            add_params(&f.params, &mut scope);
            check_mutability_block(body, &scope)
        },
    }
}

fn add_params(params: &Vec<Param>, scope: &mut Scope)
    ensures
        final(scope)@ == params_scope(params@, params@.len(), old(scope)@),
{
    let mut i: usize = 0;
    while i < params.len()
        invariant
            i <= params.len(),
            scope@ == params_scope(params@, i as nat, old(scope)@),
        decreases params.len() - i,
    {
        scope.insert(params[i].name.clone(), false);
        i = i + 1;
    }
}

fn check_mutability_block(block: &Block, scope: &Scope) -> (r: Result<(), TypeError>)
    ensures
        error_of(r) == block_error(*block, scope@),
    decreases block, 0nat,
{
    let mut inner: Scope = scope.dup();
    check_stmts(&block.stmts, &mut inner)?;
    match &block.tail {
        Some(tail) => check_mutability_expr(tail, &inner),
        None => Ok(()),
    }
}

fn check_stmts(stmts: &Vec<Stmt>, scope: &mut Scope) -> (r: Result<(), TypeError>)
    ensures
        stmts_error(*stmts, 0, old(scope)@) == (final(scope)@, error_of(r)),
    decreases stmts, 0nat,
{
    let mut i: usize = 0;
    while i < stmts.len()
        invariant
            i <= stmts.len(),
            stmts_error(*stmts, 0, old(scope)@) == stmts_error(*stmts, i as nat, scope@),
        decreases stmts.len() - i,
    {
        check_stmt(&stmts[i], scope)?;
        if let StmtKind::Let { mutable, name, .. } = &stmts[i].kind {
            scope.insert(name.clone(), *mutable);
        }
        i = i + 1;
    }
    Ok(())
}

fn check_stmt(stmt: &Stmt, scope: &Scope) -> (r: Result<(), TypeError>)
    ensures
        error_of(r) == stmt_error(*stmt, scope@),
    decreases stmt, 0nat,
{
    match &stmt.kind {
        StmtKind::Let { value, .. } => check_mutability_expr(value, scope),
        StmtKind::Assign { target, value } => {
            check_mutability_expr(target, scope)?;
            check_mutability_expr(value, scope)?;
            if let Some(root) = assign_target_root(target) {
                if let Some(mutable) = scope.get(root) {
                    if !*mutable {
                        return Err(
                            TypeError {
                                span: stmt.span,
                                kind: TypeErrorKind::AssignToImmutable { name: root.clone() },
                            },
                        );
                    }
                }
            }
            Ok(())
        },
        StmtKind::Expr(e) => check_mutability_expr(e, scope),
        StmtKind::Break(value) => match value {
            Some(v) => check_mutability_expr(v, scope),
            None => Ok(()),
        },
    }
}

fn check_mutability_expr(expr: &Expr, scope: &Scope) -> (r: Result<(), TypeError>)
    ensures
        error_of(r) == expr_error(*expr, scope@),
    decreases expr, 0nat,
{
    match &expr.kind {
        ExprKind::NumberLit { .. }
        | ExprKind::ImaginaryLit { .. }
        | ExprKind::BoolLit(_)
        | ExprKind::Path(_)
        | ExprKind::PackRef(_) => Ok(()),
        ExprKind::Call(_, _, args, _) => check_exprs(args, scope),
        ExprKind::FieldAccess(base, _) => check_mutability_expr(base, scope),
        ExprKind::MethodCall(base, _, args) => {
            check_mutability_expr(base, scope)?;
            check_exprs(args, scope)
        },
        ExprKind::Index(base, indices) => {
            check_mutability_expr(base, scope)?;
            check_exprs(indices, scope)
        },
        ExprKind::ArrayLit(elems) => check_exprs(elems, scope),
        ExprKind::ArrayRepeat { value, count } => {
            check_mutability_expr(value, scope)?;
            check_mutability_expr(count, scope)
        },
        ExprKind::StructLit(_, _, fields) => check_fields(fields, scope),
        ExprKind::If { cond, then_branch, else_branch } => {
            check_mutability_expr(cond, scope)?;
            check_mutability_block(then_branch, scope)?;
            match else_branch {
                Some(b) => match &**b {
                    ElseBranch::If(e) => check_mutability_expr(e, scope),
                    ElseBranch::Block(b2) => check_mutability_block(b2, scope),
                },
                None => Ok(()),
            }
        },
        ExprKind::While { cond, body } => {
            check_mutability_expr(cond, scope)?;
            check_mutability_block(body, scope)
        },
        ExprKind::For { var, start, end, body } => {
            check_mutability_expr(start, scope)?;
            check_mutability_expr(end, scope)?;
            let mut inner: Scope = scope.dup();
            inner.insert(var.clone(), false);
            check_mutability_block(body, &inner)
        },
        ExprKind::ForIn { var, iter, body } => {
            check_mutability_expr(iter, scope)?;
            let mut inner: Scope = scope.dup();
            inner.insert(var.clone(), false);
            check_mutability_block(body, &inner)
        },
        ExprKind::Loop { body } => check_mutability_block(body, scope),
        ExprKind::Block(b) => check_mutability_block(b, scope),
        ExprKind::Lambda { params, body, .. } => {
            let mut inner: Scope = scope.dup();
            add_params(params, &mut inner);
            check_mutability_block(body, &inner)
        },
    }
}

fn check_exprs(es: &Vec<Expr>, scope: &Scope) -> (r: Result<(), TypeError>)
    ensures
        error_of(r) == exprs_error(*es, 0, scope@),
    decreases es, 0nat,
{
    let mut i: usize = 0;
    while i < es.len()
        invariant
            i <= es.len(),
            exprs_error(*es, 0, scope@) == exprs_error(*es, i as nat, scope@),
        decreases es.len() - i,
    {
        check_mutability_expr(&es[i], scope)?;
        i = i + 1;
    }
    Ok(())
}

fn check_fields(fields: &Vec<(String, Expr)>, scope: &Scope) -> (r: Result<(), TypeError>)
    ensures
        error_of(r) == fields_error(*fields, 0, scope@),
    decreases fields, 0nat,
{
    let mut i: usize = 0;
    while i < fields.len()
        invariant
            i <= fields.len(),
            fields_error(*fields, 0, scope@) == fields_error(*fields, i as nat, scope@),
        decreases fields.len() - i,
    {
        check_mutability_expr(&fields[i].1, scope)?;
        i = i + 1;
    }
    Ok(())
}

fn assign_target_root(expr: &Expr) -> (r: Option<&String>)
    ensures
        match r {
            Some(name) => target_root(*expr) == Some(name@),
            None => target_root(*expr) is None,
        },
    decreases expr,
{
    match &expr.kind {
        ExprKind::Path(p) => if p.segments.len() == 1 {
            Some(&p.segments[0])
        } else {
            None
        },
        ExprKind::FieldAccess(base, _) => assign_target_root(base),
        ExprKind::Index(base, _) => assign_target_root(base),
        _ => None,
    }
}

} // verus!
