//! Types that fit together go on doing so as more is known.

use vstd::prelude::*;

use crate::ast::{Block, ElseBranch, Expr, ExprKind, Stmt, StmtKind};
use crate::const_eval::ConstValue;
use crate::infer_calls::{not_inferred, unit_ty};
use crate::infer_expr::bool_ty;
use crate::ty::TyV;
use crate::typing::{
    block_ids, block_ty, field_ids_from, ids, ids_from, inner_ids, stmt_ids,
    stmt_ids_from, well_typed, well_typed_block, well_typed_fields_from, well_typed_from,
    well_typed_stmt, well_typed_stmts_from, Seen,
};

verus! {

/// How types are carried over to where more is known: what each becomes, and of which types
/// it is known that they go on agreeing.
pub struct Carried {
    pub to: spec_fn(TyV) -> TyV,
    pub good: spec_fn(TyV) -> bool,
}

/// Nothing becomes anything else.
pub open spec fn unmoved() -> Carried {
    Carried { to: |t: TyV| t, good: |t: TyV| true }
}

/// Whether types keep their forms, and good types that agree go on agreeing.
pub open spec fn carries(c: Carried, v: Seen, v2: Seen) -> bool {
    &&& forall|a: TyV, b: TyV| #[trigger]
        (v.agree)(a, b) && (c.good)(a) && (c.good)(b) ==> (v2.agree)((c.to)(a), (c.to)(b))
    &&& forall|b: TyV, n: Seq<char>, t: TyV| #[trigger]
        (v.reads)(b, n, t) && (c.good)(b) && (c.good)(t) ==> (v2.reads)((c.to)(b), n, (c.to)(t))
    &&& forall|s: Seq<char>, n: Seq<char>, t: TyV| #[trigger]
        (v.fills)(s, n, t) && (c.good)(t) ==> (v2.fills)(s, n, (c.to)(t))
    &&& forall|n: Seq<char>| #[trigger] (c.to)(TyV::Con(n)) == TyV::Con(n)
    &&& forall|n: Seq<char>| #[trigger] (c.good)(TyV::Con(n))
    &&& forall|n: Seq<char>, args: Seq<TyV>|
        #[trigger] (c.to)(TyV::App(n, args)) matches TyV::App(n2, _) && n2 == n
    &&& forall|elem: Box<TyV>, size: Box<TyV>| #[trigger]
        (c.good)(TyV::Array(elem, size)) ==> (c.good)(*elem)
    &&& forall|elem: Box<TyV>, n: ConstValue|
        #[trigger] (c.to)(TyV::Array(elem, Box::new(TyV::Const(n)))) == TyV::Array(
            Box::new((c.to)(*elem)),
            Box::new(TyV::Const(n)),
        )
    &&& forall|x: TyV, y: TyV|
        (c.to)(#[trigger] (v.array)(x, y)) == (v2.array)((c.to)(x), (c.to)(y))
    &&& forall|tys: Seq<TyV>, ret: Box<TyV>|
        #[trigger] (c.to)(TyV::Fn(tys, ret)) matches TyV::Fn(tys2, ret2) && tys2.len()
            == tys.len() && *ret2 == (c.to)(*ret)
}

/// Whether the nodes with those numbers still have their types.
pub open spec fn kept_on(nt: Map<u32, TyV>, nt2: Map<u32, TyV>, some: Set<u32>) -> bool {
    forall|id: u32| #[trigger]
        some.contains(id) && nt.contains_key(id) ==> nt2.contains_key(id) && nt2[id] == nt[id]
}

/// Whether all other nodes still have their types.
pub open spec fn kept_off(nt: Map<u32, TyV>, nt2: Map<u32, TyV>, some: Set<u32>) -> bool {
    forall|id: u32|
        #![trigger nt.contains_key(id)]
        #![trigger nt2.contains_key(id)]
        !some.contains(id) && nt.contains_key(id) ==> nt2.contains_key(id) && nt2[id] == nt[id]
}

/// Whether the types of the nodes with those numbers are good, and are carried over.
pub open spec fn carried_on(
    c: Carried,
    nt: Map<u32, TyV>,
    nt2: Map<u32, TyV>,
    some: Set<u32>,
) -> bool {
    forall|id: u32| #[trigger]
        some.contains(id) && nt.contains_key(id) ==> nt2.contains_key(id) && nt2[id] == (c.to)(
            nt[id],
        ) && (c.good)(nt[id])
}

/// What is carried over of a whole is carried over of its parts.
proof fn lemma_parts(
    c: Carried,
    nt: Map<u32, TyV>,
    nt2: Map<u32, TyV>,
    all: Set<u32>,
    part: Set<u32>,
)
    requires
        carried_on(c, nt, nt2, all),
        part.subset_of(all),
    ensures
        carried_on(c, nt, nt2, part),
{
    assert forall|id: u32| #[trigger]
        part.contains(id) && nt.contains_key(id) implies nt2.contains_key(id) && nt2[id] == (c.to)(
        nt[id],
    ) && (c.good)(nt[id]) by {
        assert(all.contains(id));
    }
}

/// The type of an expression is one of those of its nodes.
proof fn lemma_own(c: Carried, v: Seen, v2: Seen, e: Expr)
    requires
        carried_on(c, v.types, v2.types, ids(e)),
        well_typed(v, e),
    ensures
        v.types.contains_key(e.id.0),
        v2.types.contains_key(e.id.0),
        v2.types[e.id.0] == (c.to)(v.types[e.id.0]),
        (c.good)(v.types[e.id.0]),
{
    assert(ids(e).contains(e.id.0));
}

/// The type of a block is carried over.
proof fn lemma_block_own(c: Carried, v: Seen, v2: Seen, b: Block)
    requires
        carries(c, v, v2),
        carried_on(c, v.types, v2.types, block_ids(b)),
        well_typed_block(v, b),
    ensures
        block_ty(v2.types, b) == (c.to)(block_ty(v.types, b)),
        (c.good)(block_ty(v.types, b)),
{
    match b.tail {
        Some(tail) => {
            lemma_parts(c, v.types, v2.types, block_ids(b), ids(*tail));
            lemma_own(c, v, v2, *tail);
        },
        None => {
            lemma_known_forms(c, v, v2);
        },
    }
}

/// Types that have no parts stay as they are.
proof fn lemma_known_forms(c: Carried, v: Seen, v2: Seen)
    requires
        carries(c, v, v2),
    ensures
        (c.to)(unit_ty()) == unit_ty(),
        (c.good)(unit_ty()),
        (c.to)(bool_ty()) == bool_ty(),
        (c.good)(bool_ty()),
        (c.to)(not_inferred()) == not_inferred(),
{
    assert(unit_ty() is Con);
    assert(bool_ty() is Con);
    assert(not_inferred() is Con);
    assert((c.to)(TyV::Con(unit_ty()->Con_0)) == unit_ty());
    assert((c.to)(TyV::Con(bool_ty()->Con_0)) == bool_ty());
    assert((c.to)(TyV::Con(not_inferred()->Con_0)) == not_inferred());
    assert((c.good)(TyV::Con(unit_ty()->Con_0)));
    assert((c.good)(TyV::Con(bool_ty()->Con_0)));
}

pub proof fn lemma_typed_later(c: Carried, v: Seen, v2: Seen, e: Expr)
    requires
        carries(c, v, v2),
        carried_on(c, v.types, v2.types, ids(e)),
        well_typed(v, e),
    ensures
        well_typed(v2, e),
    decreases e, 0nat,
{
    let (nt, nt2) = (v.types, v2.types);
    let id = e.id.0;
    let t = nt[id];
    lemma_own(c, v, v2, e);
    lemma_known_forms(c, v, v2);
    lemma_parts(c, nt, nt2, ids(e), inner_ids(e));
    match e.kind {
        ExprKind::NumberLit { suffix, .. } => {
            if let Some(s) = suffix {
                assert((c.to)(TyV::Con(s@)) == TyV::Con(s@));
            }
        },
        ExprKind::Call(_, _, args, _) => lemma_typed_later_from(c, v, v2, args, 0),
        ExprKind::FieldAccess(base, name) => {
            lemma_typed_later(c, v, v2, *base);
            lemma_own(c, v, v2, *base);
            assert((v.reads)(nt[base.id.0], name@, t));
        },
        ExprKind::MethodCall(base, name, args) => {
            if !crate::typing::asks_length(*base, name@, args@) {
                lemma_parts(c, nt, nt2, inner_ids(e), ids(*base));
                lemma_parts(c, nt, nt2, inner_ids(e), ids_from(args, 0));
                lemma_typed_later(c, v, v2, *base);
                if t != not_inferred() {
                    lemma_typed_later_from(c, v, v2, args, 0);
                }
            }
        },
        ExprKind::Index(base, indices) => {
            lemma_parts(c, nt, nt2, inner_ids(e), ids(*base));
            lemma_parts(c, nt, nt2, inner_ids(e), ids_from(indices, 0));
            lemma_typed_later(c, v, v2, *base);
            lemma_typed_later_from(c, v, v2, indices, 0);
        },
        ExprKind::ArrayLit(elems) => {
            lemma_typed_later_from(c, v, v2, elems, 0);
            if let TyV::Array(elem, size) = t {
                let n = ConstValue::Int(elems@.len() as u64);
                assert(t == TyV::Array(elem, Box::new(TyV::Const(n))));
                assert((c.good)(TyV::Array(elem, size)));
                assert forall|k: int| 0 <= k < elems@.len() implies (v2.agree)(
                    (c.to)(*elem),
                    nt2[(#[trigger] elems@[k]).id.0],
                ) by {
                    let x = elems@[k];
                    lemma_typed_at(v, elems, 0, k);
                    lemma_ids_at(elems, 0, k);
                    lemma_parts(c, nt, nt2, ids_from(elems, 0), ids(x));
                    lemma_own(c, v, v2, x);
                    assert((v.agree)(*elem, nt[x.id.0]));
                }
            }
        },
        ExprKind::ArrayRepeat { value, count } => {
            lemma_parts(c, nt, nt2, inner_ids(e), ids(*value));
            lemma_parts(c, nt, nt2, inner_ids(e), ids(*count));
            lemma_typed_later(c, v, v2, *value);
            lemma_own(c, v, v2, *value);
            if count.kind is PackRef {
                let size = choose|size: TyV| t == #[trigger] (v.array)(nt[value.id.0], size);
                assert((c.to)(t) == (v2.array)((c.to)(nt[value.id.0]), (c.to)(size)));
            } else {
                lemma_typed_later(c, v, v2, *count);
                lemma_own(c, v, v2, *count);
                assert(t == (v.array)(nt[value.id.0], nt[count.id.0]));
            }
        },
        ExprKind::StructLit(path, _, fields) => {
            lemma_typed_later_fields(c, v, v2, fields, 0);
            let s = crate::infer_types::path_name(path);
            if t is Con {
                assert forall|k: int| 0 <= k < fields@.len() implies (v2.fills)(
                    s,
                    (#[trigger] fields@[k]).0@,
                    nt2[fields@[k].1.id.0],
                ) by {
                    let x = fields@[k].1;
                    lemma_field_at(v, fields, 0, k);
                    lemma_parts(c, nt, nt2, field_ids_from(fields, 0), ids(x));
                    lemma_own(c, v, v2, x);
                    assert((v.fills)(s, fields@[k].0@, nt[x.id.0]));
                }
            }
            match t {
                TyV::Con(n) => {
                    assert((c.to)(TyV::Con(n)) == TyV::Con(n));
                },
                TyV::App(n, args) => {
                    assert((c.to)(TyV::App(n, args)) is App);
                },
                _ => {},
            }
        },
        ExprKind::If { cond, then_branch, else_branch } => {
            lemma_parts(c, nt, nt2, inner_ids(e), ids(*cond));
            lemma_parts(c, nt, nt2, inner_ids(e), block_ids(then_branch));
            lemma_typed_later(c, v, v2, *cond);
            lemma_typed_later_block(c, v, v2, then_branch);
            lemma_own(c, v, v2, *cond);
            lemma_block_own(c, v, v2, then_branch);
            assert((v.agree)(bool_ty(), nt[cond.id.0]));
            match else_branch {
                Some(b) => match *b {
                    ElseBranch::If(e2) => {
                        lemma_parts(c, nt, nt2, inner_ids(e), ids(e2));
                        lemma_typed_later(c, v, v2, e2);
                        lemma_own(c, v, v2, e2);
                        assert((v.agree)(t, nt[e2.id.0]));
                    },
                    ElseBranch::Block(b2) => {
                        lemma_parts(c, nt, nt2, inner_ids(e), block_ids(b2));
                        lemma_typed_later_block(c, v, v2, b2);
                        lemma_block_own(c, v, v2, b2);
                        assert((v.agree)(t, block_ty(nt, b2)));
                    },
                },
                None => {
                    assert((v.agree)(t, block_ty(nt, then_branch)));
                },
            }
        },
        ExprKind::While { cond, body } => {
            lemma_parts(c, nt, nt2, inner_ids(e), ids(*cond));
            lemma_parts(c, nt, nt2, inner_ids(e), block_ids(body));
            lemma_typed_later(c, v, v2, *cond);
            lemma_typed_later_block(c, v, v2, body);
            lemma_own(c, v, v2, *cond);
            assert((v.agree)(bool_ty(), nt[cond.id.0]));
        },
        ExprKind::For { start, end, body, .. } => {
            lemma_parts(c, nt, nt2, inner_ids(e), ids(*start));
            lemma_parts(c, nt, nt2, inner_ids(e), ids(*end));
            lemma_parts(c, nt, nt2, inner_ids(e), block_ids(body));
            lemma_typed_later(c, v, v2, *start);
            lemma_typed_later(c, v, v2, *end);
            lemma_typed_later_block(c, v, v2, body);
            lemma_own(c, v, v2, *start);
            lemma_own(c, v, v2, *end);
            assert((v.agree)(nt[start.id.0], nt[end.id.0]));
        },
        ExprKind::ForIn { iter, body, .. } => {
            lemma_parts(c, nt, nt2, inner_ids(e), ids(*iter));
            lemma_parts(c, nt, nt2, inner_ids(e), block_ids(body));
            lemma_typed_later(c, v, v2, *iter);
            lemma_typed_later_block(c, v, v2, body);
        },
        ExprKind::Loop { body } => lemma_typed_later_block(c, v, v2, body),
        ExprKind::Block(b) => {
            lemma_typed_later_block(c, v, v2, b);
            lemma_block_own(c, v, v2, b);
        },
        ExprKind::Lambda { params, body, .. } => {
            lemma_typed_later_block(c, v, v2, body);
            lemma_block_own(c, v, v2, body);
            if let TyV::Fn(tys, ret) = t {
                assert((c.to)(TyV::Fn(tys, ret)) is Fn);
            }
        },
        _ => {},
    }
}

pub proof fn lemma_typed_at(v: Seen, es: Vec<Expr>, i: nat, k: int)
    requires
        well_typed_from(v, es, i),
        i <= k < es@.len(),
    ensures
        well_typed(v, es@[k]),
        v.types.contains_key(es@[k].id.0),
    decreases es@.len() - i,
{
    if i < k {
        lemma_typed_at(v, es, i + 1, k);
    }
}

pub proof fn lemma_ids_at(es: Vec<Expr>, i: nat, k: int)
    requires
        i <= k < es@.len(),
    ensures
        ids(es@[k]).subset_of(ids_from(es, i)),
        ids_from(es, i).contains(es@[k].id.0),
    decreases es@.len() - i,
{
    assert(ids(es@[k]).contains(es@[k].id.0));
    if i < k {
        lemma_ids_at(es, i + 1, k);
    }
}

pub proof fn lemma_typed_later_from(c: Carried, v: Seen, v2: Seen, es: Vec<Expr>, i: nat)
    requires
        carries(c, v, v2),
        carried_on(c, v.types, v2.types, ids_from(es, i)),
        well_typed_from(v, es, i),
    ensures
        well_typed_from(v2, es, i),
    decreases es, es@.len() - i,
{
    if i < es@.len() {
        lemma_parts(c, v.types, v2.types, ids_from(es, i), ids(es@[i as int]));
        lemma_parts(c, v.types, v2.types, ids_from(es, i), ids_from(es, i + 1));
        lemma_typed_later(c, v, v2, es@[i as int]);
        lemma_typed_later_from(c, v, v2, es, i + 1);
    }
}

/// The value of a field is one of those from a place on.
pub proof fn lemma_field_at(v: Seen, fields: Vec<(String, Expr)>, i: nat, k: int)
    requires
        i <= k < fields@.len(),
        well_typed_fields_from(v, fields, i),
    ensures
        well_typed(v, fields@[k].1),
        ids(fields@[k].1).subset_of(field_ids_from(fields, i)),
    decreases k - i,
{
    if i < k {
        lemma_field_at(v, fields, i + 1, k);
    }
}

pub proof fn lemma_typed_later_fields(
    c: Carried,
    v: Seen,
    v2: Seen,
    fields: Vec<(String, Expr)>,
    i: nat,
)
    requires
        carries(c, v, v2),
        carried_on(c, v.types, v2.types, field_ids_from(fields, i)),
        well_typed_fields_from(v, fields, i),
    ensures
        well_typed_fields_from(v2, fields, i),
    decreases fields, fields@.len() - i,
{
    if i < fields@.len() {
        lemma_parts(c, v.types, v2.types, field_ids_from(fields, i), ids(fields@[i as int].1));
        lemma_parts(
            c,
            v.types,
            v2.types,
            field_ids_from(fields, i),
            field_ids_from(fields, i + 1),
        );
        lemma_typed_later(c, v, v2, fields@[i as int].1);
        lemma_typed_later_fields(c, v, v2, fields, i + 1);
    }
}

pub proof fn lemma_typed_later_block(c: Carried, v: Seen, v2: Seen, b: Block)
    requires
        carries(c, v, v2),
        carried_on(c, v.types, v2.types, block_ids(b)),
        well_typed_block(v, b),
    ensures
        well_typed_block(v2, b),
    decreases b, 1nat,
{
    lemma_parts(c, v.types, v2.types, block_ids(b), stmt_ids_from(b.stmts, 0));
    lemma_typed_later_stmts(c, v, v2, b.stmts, 0);
    if let Some(tail) = b.tail {
        lemma_parts(c, v.types, v2.types, block_ids(b), ids(*tail));
        lemma_typed_later(c, v, v2, *tail);
    }
}

pub proof fn lemma_typed_later_stmts(c: Carried, v: Seen, v2: Seen, stmts: Vec<Stmt>, i: nat)
    requires
        carries(c, v, v2),
        carried_on(c, v.types, v2.types, stmt_ids_from(stmts, i)),
        well_typed_stmts_from(v, stmts, i),
    ensures
        well_typed_stmts_from(v2, stmts, i),
    decreases stmts, stmts@.len() - i,
{
    if i < stmts@.len() {
        lemma_parts(c, v.types, v2.types, stmt_ids_from(stmts, i), stmt_ids(stmts@[i as int]));
        lemma_parts(
            c,
            v.types,
            v2.types,
            stmt_ids_from(stmts, i),
            stmt_ids_from(stmts, i + 1),
        );
        lemma_typed_later_stmt(c, v, v2, stmts@[i as int]);
        lemma_typed_later_stmts(c, v, v2, stmts, i + 1);
    }
}

pub proof fn lemma_typed_later_stmt(c: Carried, v: Seen, v2: Seen, x: Stmt)
    requires
        carries(c, v, v2),
        carried_on(c, v.types, v2.types, stmt_ids(x)),
        well_typed_stmt(v, x),
    ensures
        well_typed_stmt(v2, x),
    decreases x, 0nat,
{
    match x.kind {
        StmtKind::Let { value, .. } => lemma_typed_later(c, v, v2, value),
        StmtKind::Assign { target, value } => {
            lemma_parts(c, v.types, v2.types, stmt_ids(x), ids(target));
            lemma_parts(c, v.types, v2.types, stmt_ids(x), ids(value));
            lemma_typed_later(c, v, v2, target);
            lemma_typed_later(c, v, v2, value);
            lemma_own(c, v, v2, target);
            lemma_own(c, v, v2, value);
            assert((v.agree)(v.types[target.id.0], v.types[value.id.0]));
        },
        StmtKind::Expr(e) => lemma_typed_later(c, v, v2, e),
        StmtKind::Break(value) => {
            if let Some(y) = value {
                lemma_typed_later(c, v, v2, y);
            }
        },
    }
}

} // verus!
