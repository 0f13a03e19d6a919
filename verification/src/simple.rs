//! Programs without packs, without generics that stand for constants, and without constants
//! that are computed in types.

use vstd::prelude::*;

use crate::ast::{
    Block, ElseBranch, Expr, ExprKind, Field, FnDecl, FnSig, GenericArg, GenericParam, Param, Stmt,
    StmtKind, Type, TypeKind,
};
use crate::registry::{ImplEntry, Registry};

verus! {

// ---- types ----

/// Whether a size or a constant argument is written out, or named.
pub open spec fn simple_const(e: Expr) -> bool {
    e.kind is NumberLit || e.kind is BoolLit || e.kind is Path
}

/// Whether a type expression names no pack and computes no constant.
pub open spec fn simple_type(t: Type) -> bool
    decreases t, 0nat,
{
    match t.kind {
        TypeKind::Path(_, args) => simple_args_from(args, 0),
        TypeKind::Array(elem, size) => simple_type(*elem) && simple_const(*size),
        TypeKind::Fn(params, ret) => simple_types_from(params, 0) && simple_type(*ret),
        TypeKind::PackRef(_) => false,
    }
}

pub open spec fn simple_args_from(args: Vec<GenericArg>, i: nat) -> bool
    decreases args, args@.len() - i,
{
    i >= args@.len() || (simple_args_from(args, i + 1) && match args@[i as int] {
        GenericArg::Type(t) => simple_type(t),
        GenericArg::Const(e) => simple_const(e),
    })
}

pub open spec fn simple_types_from(tys: Vec<Type>, i: nat) -> bool
    decreases tys, tys@.len() - i,
{
    i >= tys@.len() || (simple_types_from(tys, i + 1) && simple_type(tys@[i as int]))
}

pub open spec fn simple_option(t: Option<Type>) -> bool {
    match t {
        Some(t) => simple_type(t),
        None => true,
    }
}

pub open spec fn simple_params(params: Seq<Param>) -> bool {
    forall|i: int| 0 <= i < params.len() ==> simple_option((#[trigger] params[i]).ty)
}

/// Whether a generic argument names no pack and computes no constant.
pub open spec fn simple_arg(g: GenericArg) -> bool {
    match g {
        GenericArg::Type(t) => simple_type(t),
        GenericArg::Const(e) => simple_const(e),
    }
}

pub open spec fn simple_args(args: Seq<GenericArg>) -> bool {
    forall|i: int| 0 <= i < args.len() ==> simple_arg(#[trigger] args[i])
}

// ---- expressions ----

/// Whether an expression names no pack, and computes no constant in a type.
pub open spec fn simple_expr(e: Expr) -> bool
    decreases e, 0nat,
{
    match e.kind {
        ExprKind::Call(_, explicit, args, _) => simple_args_from(explicit, 0) && simple_exprs_from(
            args,
            0,
        ),
        ExprKind::FieldAccess(base, _) => simple_expr(*base),
        ExprKind::MethodCall(base, _, args) => simple_expr(*base) && simple_exprs_from(args, 0),
        ExprKind::Index(base, indices) => simple_expr(*base) && simple_exprs_from(indices, 0),
        ExprKind::ArrayLit(elems) => simple_exprs_from(elems, 0),
        ExprKind::ArrayRepeat { value, count } => simple_expr(*value) && simple_expr(*count),
        ExprKind::StructLit(_, explicit, fields) => simple_args_from(explicit, 0)
            && simple_inits_from(fields, 0),
        ExprKind::If { cond, then_branch, else_branch } => simple_expr(*cond) && simple_block(
            then_branch,
        ) && match else_branch {
            Some(b) => match *b {
                ElseBranch::If(e2) => simple_expr(e2),
                ElseBranch::Block(b2) => simple_block(b2),
            },
            None => true,
        },
        ExprKind::While { cond, body } => simple_expr(*cond) && simple_block(body),
        ExprKind::For { start, end, body, .. } => simple_expr(*start) && simple_expr(*end)
            && simple_block(body),
        ExprKind::ForIn { iter, body, .. } => simple_expr(*iter) && simple_block(body),
        ExprKind::Loop { body } => simple_block(body),
        ExprKind::Block(b) => simple_block(b),
        ExprKind::Lambda { params, ret, body } => simple_params(params@) && simple_option(ret)
            && simple_block(body),
        ExprKind::PackRef(_) => false,
        _ => true,
    }
}

pub open spec fn simple_exprs_from(es: Vec<Expr>, i: nat) -> bool
    decreases es, es@.len() - i,
{
    i >= es@.len() || (simple_expr(es@[i as int]) && simple_exprs_from(es, i + 1))
}

pub open spec fn simple_inits_from(fields: Vec<(String, Expr)>, i: nat) -> bool
    decreases fields, fields@.len() - i,
{
    i >= fields@.len() || (simple_expr(fields@[i as int].1) && simple_inits_from(fields, i + 1))
}

pub open spec fn simple_block(b: Block) -> bool
    decreases b, 1nat,
{
    &&& simple_stmts_from(b.stmts, 0)
    &&& match b.tail {
        Some(tail) => simple_expr(*tail),
        None => true,
    }
}

pub open spec fn simple_stmts_from(stmts: Vec<Stmt>, i: nat) -> bool
    decreases stmts, stmts@.len() - i,
{
    i >= stmts@.len() || (simple_stmt(stmts@[i as int]) && simple_stmts_from(stmts, i + 1))
}

pub open spec fn simple_stmt(s: Stmt) -> bool
    decreases s, 0nat,
{
    match s.kind {
        StmtKind::Let { ty, value, .. } => simple_option(ty) && simple_expr(value),
        StmtKind::Assign { target, value } => simple_expr(target) && simple_expr(value),
        StmtKind::Expr(e) => simple_expr(e),
        StmtKind::Break(value) => match value {
            Some(v) => simple_expr(v),
            None => true,
        },
    }
}

// ---- declarations ----

/// Whether every generic stands for one type.
pub open spec fn simple_generics(generics: Seq<GenericParam>) -> bool {
    forall|i: int|
        0 <= i < generics.len() ==> (#[trigger] generics[i]) is Type
            && !generics[i].spec_variadic()
}

pub open spec fn simple_sigs(fns: Seq<FnSig>) -> bool {
    forall|i: int|
        0 <= i < fns.len() ==> simple_params((#[trigger] fns[i]).params@) && simple_option(
            fns[i].ret,
        )
}

pub open spec fn simple_fields(fields: Seq<Field>) -> bool {
    forall|i: int| 0 <= i < fields.len() ==> simple_type((#[trigger] fields[i]).ty)
}

pub open spec fn simple_impl(entry: ImplEntry) -> bool {
    simple_generics(entry.generics@) && forall|j: int|
        0 <= j < entry.targets@.len() ==> simple_type(#[trigger] entry.targets@[j])
}

/// Whether what a program declares has no packs, no generics that stand for constants, and no
/// constants that are computed in types.
pub open spec fn simple_registry(r: Registry) -> bool {
    &&& forall|i: int|
        0 <= i < r.algebras@.len() ==> simple_generics((#[trigger] r.algebras@[i]).generics@)
            && simple_sigs(r.algebras@[i].fns@)
    &&& forall|i: int|
        0 <= i < r.structs@.len() ==> simple_generics((#[trigger] r.structs@[i]).generics@)
            && simple_fields(r.structs@[i].fields@)
    &&& forall|i: int| 0 <= i < r.impls@.len() ==> simple_impl(#[trigger] r.impls@[i])
    &&& forall|i: int|
        0 <= i < r.inherent@.len() ==> simple_generics((#[trigger] r.inherent@[i]).generics@)
            && simple_type(r.inherent@[i].target) && simple_params(
            r.inherent@[i].method.params@,
        ) && simple_option(r.inherent@[i].method.ret)
}

/// Whether a function has no packs, no generics that stand for constants, and no constants
/// that are computed in types.
pub open spec fn simple_fn(f: FnDecl) -> bool {
    &&& simple_generics(f.generics@)
    &&& simple_params(f.params@)
    &&& simple_option(f.ret)
    &&& f.body matches Some(b) && simple_block(b)
}

} // verus!
