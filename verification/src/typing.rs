//! What it means for the types of a function's nodes to fit together.

use vstd::prelude::*;

use crate::ast::{Block, ElseBranch, Expr, ExprKind, Stmt, StmtKind};
use crate::const_eval::ConstValue;
use crate::infer_calls::{not_inferred, struct_name_of, unit_ty};
use crate::infer_expr::bool_ty;
use crate::infer_types::path_name;
use crate::subst::{applied, SubstV};
use crate::ty::TyV;

verus! {

// ---- the nodes of expressions ----

/// The numbers of the nodes of an expression.
pub open spec fn ids(e: Expr) -> Set<u32>
    decreases e, 1nat,
{
    inner_ids(e).insert(e.id.0)
}

/// The numbers of the nodes below an expression.
pub open spec fn inner_ids(e: Expr) -> Set<u32>
    decreases e, 0nat,
{
    match e.kind {
        ExprKind::Call(_, _, args, _) => ids_from(args, 0),
        ExprKind::FieldAccess(base, _) => ids(*base),
        ExprKind::MethodCall(base, _, args) => ids(*base).union(ids_from(args, 0)),
        ExprKind::Index(base, indices) => ids(*base).union(ids_from(indices, 0)),
        ExprKind::ArrayLit(elems) => ids_from(elems, 0),
        ExprKind::ArrayRepeat { value, count } => ids(*value).union(ids(*count)),
        ExprKind::StructLit(_, _, fields) => field_ids_from(fields, 0),
        ExprKind::If { cond, then_branch, else_branch } => ids(*cond).union(
            block_ids(then_branch),
        ).union(
            match else_branch {
                Some(b) => match *b {
                    ElseBranch::If(e2) => ids(e2),
                    ElseBranch::Block(b2) => block_ids(b2),
                },
                None => Set::empty(),
            },
        ),
        ExprKind::While { cond, body } => ids(*cond).union(block_ids(body)),
        ExprKind::For { start, end, body, .. } => ids(*start).union(ids(*end)).union(
            block_ids(body),
        ),
        ExprKind::ForIn { iter, body, .. } => ids(*iter).union(block_ids(body)),
        ExprKind::Loop { body } => block_ids(body),
        ExprKind::Block(b) => block_ids(b),
        ExprKind::Lambda { body, .. } => block_ids(body),
        _ => Set::empty(),
    }
}

/// The numbers of the nodes of the expressions from the `i`th on.
pub open spec fn ids_from(es: Vec<Expr>, i: nat) -> Set<u32>
    decreases es, es@.len() - i,
{
    if i >= es@.len() {
        Set::empty()
    } else {
        ids(es@[i as int]).union(ids_from(es, i + 1))
    }
}

/// The numbers of the nodes of the field values from the `i`th on.
pub open spec fn field_ids_from(fields: Vec<(String, Expr)>, i: nat) -> Set<u32>
    decreases fields, fields@.len() - i,
{
    if i >= fields@.len() {
        Set::empty()
    } else {
        ids(fields@[i as int].1).union(field_ids_from(fields, i + 1))
    }
}

/// The numbers of the nodes of the expressions in a block.
pub open spec fn block_ids(b: Block) -> Set<u32>
    decreases b, 1nat,
{
    stmt_ids_from(b.stmts, 0).union(
        match b.tail {
            Some(tail) => ids(*tail),
            None => Set::empty(),
        },
    )
}

pub open spec fn stmt_ids_from(stmts: Vec<Stmt>, i: nat) -> Set<u32>
    decreases stmts, stmts@.len() - i,
{
    if i >= stmts@.len() {
        Set::empty()
    } else {
        stmt_ids(stmts@[i as int]).union(stmt_ids_from(stmts, i + 1))
    }
}

pub open spec fn stmt_ids(s: Stmt) -> Set<u32>
    decreases s, 0nat,
{
    match s.kind {
        StmtKind::Let { value, .. } => ids(value),
        StmtKind::Assign { target, value } => ids(target).union(ids(value)),
        StmtKind::Expr(e) => ids(e),
        StmtKind::Break(value) => match value {
            Some(v) => ids(v),
            None => Set::empty(),
        },
    }
}

// ---- expressions that are in order ----

/// Whether an expression numbers each of its nodes once.
pub open spec fn orderly(e: Expr) -> bool
    decreases e, 1nat,
{
    !inner_ids(e).contains(e.id.0) && orderly_within(e)
}

pub open spec fn orderly_within(e: Expr) -> bool
    decreases e, 0nat,
{
    match e.kind {
        ExprKind::Call(_, _, args, _) => orderly_from(args, 0),
        ExprKind::FieldAccess(base, _) => orderly(*base),
        ExprKind::MethodCall(base, _, args) => orderly(*base) && orderly_from(args, 0) && ids(
            *base,
        ).disjoint(ids_from(args, 0)),
        ExprKind::Index(base, indices) => orderly(*base) && orderly_from(indices, 0) && ids(
            *base,
        ).disjoint(ids_from(indices, 0)),
        ExprKind::ArrayLit(elems) => orderly_from(elems, 0),
        ExprKind::ArrayRepeat { value, count } => orderly(*value) && orderly(*count) && ids(
            *value,
        ).disjoint(ids(*count)),
        ExprKind::StructLit(_, _, fields) => orderly_fields_from(fields, 0),
        ExprKind::If { cond, then_branch, else_branch } => {
            &&& orderly(*cond)
            &&& orderly_block(then_branch)
            &&& ids(*cond).disjoint(block_ids(then_branch))
            &&& match else_branch {
                Some(b) => match *b {
                    ElseBranch::If(e2) => orderly(e2) && ids(*cond).disjoint(ids(e2))
                        && block_ids(then_branch).disjoint(ids(e2)),
                    ElseBranch::Block(b2) => orderly_block(b2) && ids(*cond).disjoint(
                        block_ids(b2),
                    ) && block_ids(then_branch).disjoint(block_ids(b2)),
                },
                None => true,
            }
        },
        ExprKind::While { cond, body } => orderly(*cond) && orderly_block(body) && ids(
            *cond,
        ).disjoint(block_ids(body)),
        ExprKind::For { start, end, body, .. } => {
            &&& orderly(*start)
            &&& orderly(*end)
            &&& orderly_block(body)
            &&& ids(*start).disjoint(ids(*end))
            &&& ids(*start).disjoint(block_ids(body))
            &&& ids(*end).disjoint(block_ids(body))
        },
        ExprKind::ForIn { iter, body, .. } => orderly(*iter) && orderly_block(body) && ids(
            *iter,
        ).disjoint(block_ids(body)),
        ExprKind::Loop { body } => orderly_block(body),
        ExprKind::Block(b) => orderly_block(b),
        ExprKind::Lambda { body, .. } => orderly_block(body),
        _ => true,
    }
}

pub open spec fn orderly_from(es: Vec<Expr>, i: nat) -> bool
    decreases es, es@.len() - i,
{
    i >= es@.len() || (orderly(es@[i as int]) && orderly_from(es, i + 1) && ids(
        es@[i as int],
    ).disjoint(ids_from(es, i + 1)))
}

pub open spec fn orderly_fields_from(fields: Vec<(String, Expr)>, i: nat) -> bool
    decreases fields, fields@.len() - i,
{
    i >= fields@.len() || (orderly(fields@[i as int].1) && orderly_fields_from(fields, i + 1)
        && ids(fields@[i as int].1).disjoint(field_ids_from(fields, i + 1)))
}

pub open spec fn orderly_block(b: Block) -> bool
    decreases b, 1nat,
{
    &&& orderly_stmts_from(b.stmts, 0)
    &&& match b.tail {
        Some(tail) => orderly(*tail) && stmt_ids_from(b.stmts, 0).disjoint(ids(*tail)),
        None => true,
    }
}

pub open spec fn orderly_stmts_from(stmts: Vec<Stmt>, i: nat) -> bool
    decreases stmts, stmts@.len() - i,
{
    i >= stmts@.len() || (orderly_stmt(stmts@[i as int]) && orderly_stmts_from(stmts, i + 1)
        && stmt_ids(stmts@[i as int]).disjoint(stmt_ids_from(stmts, i + 1)))
}

pub open spec fn orderly_stmt(s: Stmt) -> bool
    decreases s, 0nat,
{
    match s.kind {
        StmtKind::Let { value, .. } => orderly(value),
        StmtKind::Assign { target, value } => orderly(target) && orderly(value) && ids(
            target,
        ).disjoint(ids(value)),
        StmtKind::Expr(e) => orderly(e),
        StmtKind::Break(value) => match value {
            Some(v) => orderly(v),
            None => true,
        },
    }
}

// ---- types that fit together ----

/// The types of nodes, when two types agree, which type an array has, when a type is that of a
/// field of a value of another, and when a value of a type can be put into a field of a struct.
pub struct Seen {
    pub types: Map<u32, TyV>,
    pub agree: spec_fn(TyV, TyV) -> bool,
    pub array: spec_fn(TyV, TyV) -> TyV,
    pub reads: spec_fn(TyV, Seq<char>, TyV) -> bool,
    pub fills: spec_fn(Seq<char>, Seq<char>, TyV) -> bool,
}

/// The type of a block: that of its last expression.
pub open spec fn block_ty(nt: Map<u32, TyV>, b: Block) -> TyV {
    match b.tail {
        Some(tail) => nt[tail.id.0],
        None => unit_ty(),
    }
}

/// Whether a method call can be the question how many types a pack holds, which has no parts.
pub open spec fn asks_length(base: Expr, method: Seq<char>, args: Seq<Expr>) -> bool {
    method == "len"@ && args.len() == 0 && base.kind is Path
}

/// Whether the types of the nodes of an expression fit together: conditions are truth values,
/// branches agree, elements of an array agree, what is assigned agrees with what it is
/// assigned to, a field that is read has the type that its struct declares, what is put into a
/// field agrees with that type, and compound expressions have the types that their parts give them. The arguments of a method of a value whose type could not be inferred have no types, and
/// neither has a pack that is the size of an array.
pub open spec fn well_typed(v: Seen, e: Expr) -> bool
    decreases e, 0nat,
{
    let nt = v.types;
    let t = nt[e.id.0];
    nt.contains_key(e.id.0) && match e.kind {
        ExprKind::NumberLit { suffix, .. } => match suffix {
            Some(s) => t == TyV::Con(s@),
            None => true,
        },
        ExprKind::ImaginaryLit { .. } => true,
        ExprKind::BoolLit(_) => t == bool_ty(),
        ExprKind::Path(_) => true,
        ExprKind::PackRef(_) => true,
        ExprKind::Call(_, _, args, _) => well_typed_from(v, args, 0),
        ExprKind::FieldAccess(base, name) => well_typed(v, *base) && (v.reads)(
            nt[base.id.0],
            name@,
            t,
        ),
        ExprKind::MethodCall(base, name, args) => asks_length(*base, name@, args@) || (well_typed(
            v,
            *base,
        ) && (t == not_inferred() || well_typed_from(v, args, 0))),
        ExprKind::Index(base, indices) => well_typed(v, *base) && well_typed_from(v, indices, 0),
        ExprKind::ArrayLit(elems) => {
            &&& well_typed_from(v, elems, 0)
            &&& t matches TyV::Array(elem, size)
            &&& *size == TyV::Const(ConstValue::Int(elems@.len() as u64))
            &&& elements_agree(v, elems@, elems@.len(), *elem)
        },
        ExprKind::ArrayRepeat { value, count } => well_typed(v, *value) && (if count.kind
            is PackRef {
            exists|size: TyV| t == #[trigger] (v.array)(nt[value.id.0], size)
        } else {
            well_typed(v, *count) && t == (v.array)(nt[value.id.0], nt[count.id.0])
        }),
        ExprKind::StructLit(path, _, fields) => {
            &&& well_typed_fields_from(v, fields, 0)
            &&& struct_name_of(t) == Some(path_name(path))
            &&& t is Con ==> fills_from(v, path_name(path), fields@, 0)
        },
        ExprKind::If { cond, then_branch, else_branch } => {
            &&& well_typed(v, *cond)
            &&& well_typed_block(v, then_branch)
            &&& (v.agree)(bool_ty(), nt[cond.id.0])
            &&& match else_branch {
                Some(b) => t == block_ty(nt, then_branch) && match *b {
                    ElseBranch::If(e2) => well_typed(v, e2) && (v.agree)(t, nt[e2.id.0]),
                    ElseBranch::Block(b2) => well_typed_block(v, b2) && (v.agree)(
                        t,
                        block_ty(nt, b2),
                    ),
                },
                None => t == unit_ty() && (v.agree)(t, block_ty(nt, then_branch)),
            }
        },
        ExprKind::While { cond, body } => well_typed(v, *cond) && well_typed_block(v, body)
            && (v.agree)(bool_ty(), nt[cond.id.0]) && t == unit_ty(),
        ExprKind::For { start, end, body, .. } => well_typed(v, *start) && well_typed(v, *end)
            && well_typed_block(v, body) && (v.agree)(nt[start.id.0], nt[end.id.0]) && t
            == unit_ty(),
        ExprKind::ForIn { iter, body, .. } => well_typed(v, *iter) && well_typed_block(v, body)
            && t == unit_ty(),
        ExprKind::Loop { body } => well_typed_block(v, body),
        ExprKind::Block(b) => well_typed_block(v, b) && t == block_ty(nt, b),
        ExprKind::Lambda { params, body, .. } => well_typed_block(v, body) && (
        t matches TyV::Fn(tys, ret) && tys.len() == params@.len() && *ret == block_ty(nt, body)),
    }
}

pub open spec fn well_typed_from(v: Seen, es: Vec<Expr>, i: nat) -> bool
    decreases es, es@.len() - i,
{
    i >= es@.len() || (well_typed(v, es@[i as int]) && well_typed_from(v, es, i + 1))
}

pub open spec fn well_typed_fields_from(v: Seen, fields: Vec<(String, Expr)>, i: nat) -> bool
    decreases fields, fields@.len() - i,
{
    i >= fields@.len() || (well_typed(v, fields@[i as int].1) && well_typed_fields_from(
        v,
        fields,
        i + 1,
    ))
}

/// Whether the values from the `i`th on can be put into the fields of a struct.
pub open spec fn fills_from(
    v: Seen,
    struct_name: Seq<char>,
    fields: Seq<(String, Expr)>,
    i: nat,
) -> bool {
    forall|k: int|
        i <= k < fields.len() ==> (v.fills)(
            struct_name,
            (#[trigger] fields[k]).0@,
            v.types[fields[k].1.id.0],
        )
}

/// Whether the types of the first `n` elements agree with that of the elements of the array.
pub open spec fn elements_agree(v: Seen, es: Seq<Expr>, n: nat, elem: TyV) -> bool {
    forall|k: int|
        0 <= k < n && k < es.len() ==> (v.agree)(elem, v.types[(#[trigger] es[k]).id.0])
}

pub open spec fn well_typed_block(v: Seen, b: Block) -> bool
    decreases b, 1nat,
{
    &&& well_typed_stmts_from(v, b.stmts, 0)
    &&& match b.tail {
        Some(tail) => well_typed(v, *tail),
        None => true,
    }
}

pub open spec fn well_typed_stmts_from(v: Seen, stmts: Vec<Stmt>, i: nat) -> bool
    decreases stmts, stmts@.len() - i,
{
    i >= stmts@.len() || (well_typed_stmt(v, stmts@[i as int]) && well_typed_stmts_from(
        v,
        stmts,
        i + 1,
    ))
}

pub open spec fn well_typed_stmt(v: Seen, s: Stmt) -> bool
    decreases s, 0nat,
{
    match s.kind {
        StmtKind::Let { value, .. } => well_typed(v, value),
        StmtKind::Assign { target, value } => well_typed(v, target) && well_typed(v, value)
            && (v.agree)(v.types[target.id.0], v.types[value.id.0]),
        StmtKind::Expr(e) => well_typed(v, e),
        StmtKind::Break(value) => match value {
            Some(x) => well_typed(v, x),
            None => true,
        },
    }
}

/// The types of nodes, as they are known.
pub open spec fn resolved(nt: Map<u32, TyV>, s: SubstV) -> Map<u32, TyV> {
    nt.map_values(|t: TyV| applied(s, t))
}

} // verus!
