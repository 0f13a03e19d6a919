//! The types that inference finds for the nodes of a function fit together.

use vstd::prelude::*;

use crate::ast::{Block, ElseBranch, Expr, ExprKind, Field, GenericArg, GenericParam, Param, Span, Stmt, StmtKind};
use crate::const_eval::ConstValue;
use crate::errors::TypeErrorV;
use crate::infer_calls::{
    args_unified, generics_pinned, method_call_type, not_inferred, struct_name_of, unit_ty,
};
use crate::infer_expr::{
    assign_checked, assigned_base, declared_field_type, generic_args_from, block_type, bool_ty, bound_scheme, bound_value_type, call_type,
    condition_checked, elements_unified, expr_type, exprs_types, field_access_type,
    fields_checked_from, for_in_type, for_type, fresh_list, if_type, index_expr_type, indexed_type,
    indices_types, kind_type, lambda_params, lambda_type, let_checked, loop_body, method_type,
    number_type, plain_loop, repeat_type, scheme_call_type, spans_of, stmt_checked, stmts_from,
    stood_for, struct_checked, struct_type, struct_with, vars_pinned, while_type, PackArgs,
};
use crate::infer_impls::unified_at;
use crate::infer_keeps::{
    goes, joined, lemma_algebra_call_ready, lemma_args_unified_ready, lemma_field_ready,
    lemma_generalized_ready, lemma_generic_arg_ready, lemma_index_ready,
    lemma_instantiated_ready, lemma_joined_later, lemma_method_call_ready, lemma_on_more,
    lemma_opened_ready, lemma_pack_type_ready, lemma_pinned_ready, lemma_steps_more,
    lemma_type_ready, lemma_unified_step, on, ready, steps,
};
use crate::infer_schemes::instantiated;
use crate::infer_state::{
    demand, demanding, minted, mono, next_var, EnvV, InferV, MappingV, PendingFieldV, SchemeV,
};
use crate::infer_types::{generic_arg_type, generics_opened, path_name, type_of};
use crate::registry::field_from;
use crate::subst::{applied, SubstV};
use crate::ty::TyV;
use crate::typing::{
    asks_length, block_ids, block_ty, elements_agree, field_ids_from, fills_from, ids, ids_from, inner_ids,
    orderly, orderly_block, orderly_fields_from, orderly_from, orderly_stmt, orderly_stmts_from,
    stmt_ids, stmt_ids_from, well_typed, well_typed_block, well_typed_fields_from,
    well_typed_from, well_typed_stmt, well_typed_stmts_from, Seen,
};
use crate::field_reads::{
    filled, leads, leads_at, lemma_field_told, lemma_filled_later, lemma_fills, lemma_reads_later,
    reads, told_as, told_at, told_field, waits,
};
use crate::typing_laws::{
    carried_on, carries, kept_off, kept_on, lemma_field_at, lemma_ids_at, lemma_typed_later,
    lemma_typed_later_block, lemma_typed_later_fields, lemma_typed_later_from,
    lemma_typed_later_stmt, lemma_typed_later_stmts, unmoved,
};

verus! {

// ---- carrying what was found along ----

/// Whether a state follows from another, with types for nodes of those numbers alone.
pub open spec fn done(a: InferV, b: InferV, some: Set<u32>) -> bool {
    on(a, b) && kept_off(a.node_types, b.node_types, some)
}

/// The types of nodes, as a state has them.
pub open spec fn seen(st: InferV) -> Seen {
    Seen {
        types: st.node_types,
        agree: joining(st.subst),
        array: |elem: TyV, size: TyV| TyV::Array(Box::new(elem), Box::new(size)),
        reads: |b: TyV, name: Seq<char>, t: TyV| reads(st, b, name, t),
        fills: |s: Seq<char>, name: Seq<char>, t: TyV| filled(st, s, name, t),
    }
}

/// Types agree that were unified.
pub open spec fn joining(s: SubstV) -> spec_fn(TyV, TyV) -> bool {
    |a: TyV, b: TyV| joined(s, a, b)
}

/// A state in which a node has a type.
pub open spec fn noted(st: InferV, id: u32, t: TyV) -> InferV {
    InferV { node_types: st.node_types.insert(id, t), ..st }
}

proof fn lemma_done_more(a: InferV, b: InferV, c: InferV, x: Set<u32>, y: Set<u32>)
    requires
        done(a, b, x),
        done(b, c, y),
    ensures
        done(a, c, x.union(y)),
{
    lemma_on_more(a, b, c);
    assert forall|id: u32|
        #![trigger a.node_types.contains_key(id)]
        #![trigger c.node_types.contains_key(id)]
        !x.union(y).contains(id) && a.node_types.contains_key(id) implies
        c.node_types.contains_key(id) && c.node_types[id] == a.node_types[id] by {
        assert(b.node_types.contains_key(id));
    }
}

proof fn lemma_done_wider(a: InferV, b: InferV, x: Set<u32>, y: Set<u32>)
    requires
        done(a, b, x),
        x.subset_of(y),
    ensures
        done(a, b, y),
{
}

proof fn lemma_steps_done(a: InferV, b: InferV, c: InferV, x: Set<u32>)
    requires
        done(a, b, x),
        goes(b, c),
    ensures
        done(a, c, x),
{
    lemma_on_more(a, b, c);
}

proof fn lemma_then_done(a: InferV, b: InferV, c: InferV, x: Set<u32>)
    requires
        steps(a, b),
        done(b, c, x),
    ensures
        done(a, c, x),
{
    lemma_on_more(a, b, c);
}

proof fn lemma_noted(st: InferV, id: u32, t: TyV)
    requires
        ready(st),
    ensures
        done(st, noted(st, id, t), set![id]),
{
}

/// What fits together goes on doing so while other nodes get types.
proof fn lemma_carry(a: InferV, b: InferV, others: Set<u32>, e: Expr)
    requires
        ready(a),
        done(a, b, others),
        others.disjoint(ids(e)),
        well_typed(seen(a), e),
    ensures
        well_typed(seen(b), e),
        a.node_types.contains_key(e.id.0),
        b.node_types.contains_key(e.id.0),
        b.node_types[e.id.0] == a.node_types[e.id.0],
{
    lemma_kept_apart(a, b, others, ids(e));
    lemma_typed_later(unmoved(), seen(a), seen(b), e);
    assert(seen(a).types.contains_key(e.id.0));
    assert(ids(e).contains(e.id.0));
}

proof fn lemma_kept_apart(a: InferV, b: InferV, others: Set<u32>, own: Set<u32>)
    requires
        done(a, b, others),
        others.disjoint(own),
    ensures
        kept_on(a.node_types, b.node_types, own),
        carries(unmoved(), seen(a), seen(b)),
        carried_on(unmoved(), a.node_types, b.node_types, own),
{
    assert forall|id: u32| #[trigger]
        own.contains(id) && a.node_types.contains_key(id) implies b.node_types.contains_key(id)
        && b.node_types[id] == a.node_types[id] by {
        assert(!others.contains(id));
    }
    lemma_unmoved(a, b);
}

/// What was unified stays so.
proof fn lemma_unmoved(a: InferV, b: InferV)
    requires
        on(a, b),
    ensures
        carries(unmoved(), seen(a), seen(b)),
{
    let (v, v2) = (seen(a), seen(b));
    assert forall|x: TyV, y: TyV| #[trigger] (v.agree)(x, y) implies (v2.agree)(x, y) by {
        assert(joined(a.subst, x, y));
        lemma_joined_later(a.subst, b.subst, x, y);
    }
    assert forall|x: TyV, n: Seq<char>, t: TyV| #[trigger] (v.reads)(x, n, t) implies (v2.reads)(
        x,
        n,
        t,
    ) by {
        assert(reads(a, x, n, t));
        lemma_reads_later(a, b, x, n, t);
    }
    assert forall|s: Seq<char>, n: Seq<char>, t: TyV| #[trigger] (v.fills)(s, n, t) implies (
    v2.fills)(s, n, t) by {
        assert(filled(a, s, n, t));
        lemma_filled_later(a, b, s, n, t);
    }
}

proof fn lemma_carry_from(a: InferV, b: InferV, others: Set<u32>, es: Vec<Expr>, i: nat)
    requires
        ready(a),
        done(a, b, others),
        others.disjoint(ids_from(es, i)),
        well_typed_from(seen(a), es, i),
    ensures
        well_typed_from(seen(b), es, i),
{
    lemma_kept_apart(a, b, others, ids_from(es, i));
    lemma_typed_later_from(unmoved(), seen(a), seen(b), es, i);
}

proof fn lemma_carry_fields(
    a: InferV,
    b: InferV,
    others: Set<u32>,
    fields: Vec<(String, Expr)>,
    i: nat,
)
    requires
        ready(a),
        done(a, b, others),
        others.disjoint(field_ids_from(fields, i)),
        well_typed_fields_from(seen(a), fields, i),
    ensures
        well_typed_fields_from(seen(b), fields, i),
{
    lemma_kept_apart(a, b, others, field_ids_from(fields, i));
    lemma_typed_later_fields(unmoved(), seen(a), seen(b), fields, i);
}

/// Whether a type is the one that was found for a block.
pub open spec fn block_found(st: InferV, b: Block, t: TyV) -> bool {
    match b.tail {
        Some(tail) => st.node_types.contains_key(tail.id.0) && st.node_types[tail.id.0] == t,
        None => t == unit_ty(),
    }
}

pub proof fn lemma_carry_block(a: InferV, b: InferV, others: Set<u32>, x: Block, t: TyV)
    requires
        ready(a),
        done(a, b, others),
        others.disjoint(block_ids(x)),
        well_typed_block(seen(a), x),
        block_found(a, x, t),
    ensures
        well_typed_block(seen(b), x),
        block_found(b, x, t),
        block_ty(seen(b).types, x) == t,
{
    lemma_kept_apart(a, b, others, block_ids(x));
    lemma_typed_later_block(unmoved(), seen(a), seen(b), x);
    if let Some(tail) = x.tail {
        assert(ids(*tail).contains(tail.id.0));
        assert(block_ids(x).contains(tail.id.0));
    }
}

proof fn lemma_carry_stmts(a: InferV, b: InferV, others: Set<u32>, stmts: Vec<Stmt>, i: nat)
    requires
        ready(a),
        done(a, b, others),
        others.disjoint(stmt_ids_from(stmts, i)),
        well_typed_stmts_from(seen(a), stmts, i),
    ensures
        well_typed_stmts_from(seen(b), stmts, i),
{
    lemma_kept_apart(a, b, others, stmt_ids_from(stmts, i));
    lemma_typed_later_stmts(unmoved(), seen(a), seen(b), stmts, i);
}

proof fn lemma_carry_stmt(a: InferV, b: InferV, others: Set<u32>, x: Stmt)
    requires
        ready(a),
        done(a, b, others),
        others.disjoint(stmt_ids(x)),
        well_typed_stmt(seen(a), x),
    ensures
        well_typed_stmt(seen(b), x),
{
    lemma_kept_apart(a, b, others, stmt_ids(x));
    lemma_typed_later_stmt(unmoved(), seen(a), seen(b), x);
}

/// Types that agree go on doing so.
proof fn lemma_agree_later(a: InferV, b: InferV, x: TyV, y: TyV)
    requires
        on(a, b),
        joined(a.subst, x, y),
    ensures
        joined(b.subst, x, y),
        (seen(b).agree)(x, y),
{
    lemma_joined_later(a.subst, b.subst, x, y);
}

// ---- expressions ----

/// What is to be shown of an expression of which only the type of the whole is not noted yet.
pub open spec fn fits(st: InferV, r: (InferV, Result<TyV, TypeErrorV>), e: Expr) -> bool {
    &&& done(st, r.0, inner_ids(e))
    &&& well_typed(seen(noted(r.0, e.id.0, r.1->Ok_0)), e)
}

pub proof fn lemma_expr_typed(st: InferV, env: EnvV, e: Expr)
    requires
        ready(st),
        orderly(e),
        expr_type(st, env, e).1 is Ok,
    ensures
        done(st, expr_type(st, env, e).0, ids(e)),
        well_typed(seen(expr_type(st, env, e).0), e),
        expr_type(st, env, e).0.node_types.contains_key(e.id.0),
        expr_type(st, env, e).0.node_types[e.id.0] == expr_type(st, env, e).1->Ok_0,
    decreases e, 3nat,
{
    let (st1, r) = kind_type(st, env, e);
    lemma_kind_typed(st, env, e);
    let t = r->Ok_0;
    lemma_noted(st1, e.id.0, t);
    let st2 = noted(st1, e.id.0, t);
    lemma_done_more(st, st1, st2, inner_ids(e), set![e.id.0]);
    lemma_done_wider(st, st2, inner_ids(e).union(set![e.id.0]), ids(e));
    assert(expr_type(st, env, e).0 == st2);
}

/// An expression without parts.
proof fn lemma_leaf(st: InferV, st1: InferV, t: TyV, e: Expr)
    requires
        steps(st, st1),
    ensures
        done(st, st1, inner_ids(e)),
        ready(noted(st1, e.id.0, t)),
        seen(noted(st1, e.id.0, t)).types.contains_key(e.id.0),
        seen(noted(st1, e.id.0, t)).types[e.id.0] == t,
{
    lemma_noted(st1, e.id.0, t);
}

/// A number without a suffix.
proof fn lemma_number_ready(
    st: InferV,
    d: crate::infer_state::NumberDefault,
    shape: Seq<char>,
    span: Span,
)
    requires
        ready(st),
    ensures
        steps(st, number_type(st, d, shape, span).0),
{
    let v = next_var(st);
    let st1 = minted(st);
    let st2 = InferV { defaults: st1.defaults.push((st.next_var, d)), ..st1 };
    assert(steps(st, st2));
    let st3 = demanding(st2, demand("Num"@, v, span));
    lemma_steps_more(st, st2, st3);
    lemma_steps_more(st, st3, demanding(st3, demand(shape, v, span)));
}

/// The last step of inferring an expression notes its type.
proof fn lemma_last(a: InferV, b: InferV, others: Set<u32>, e: Expr, t: TyV)
    requires
        done(a, b, others),
    ensures
        done(a, noted(b, e.id.0, t), others.insert(e.id.0)),
        ready(noted(b, e.id.0, t)),
        seen(noted(b, e.id.0, t)).types.contains_key(e.id.0),
        seen(noted(b, e.id.0, t)).types[e.id.0] == t,
{
    lemma_noted(b, e.id.0, t);
    let fin = noted(b, e.id.0, t);
    lemma_done_more(a, b, fin, others, set![e.id.0]);
    lemma_done_wider(a, fin, others.union(set![e.id.0]), others.insert(e.id.0));
}

/// A state follows from itself.
proof fn lemma_nothing_done(st: InferV)
    requires
        ready(st),
    ensures
        steps(st, st),
        done(st, st, Set::empty()),
{
}

/// An expression with one part.
proof fn lemma_one_part(st: InferV, st1: InferV, st2: InferV, t: TyV, e: Expr, part: Expr)
    requires
        ready(st),
        done(st, st1, ids(part)),
        well_typed(seen(st1), part),
        goes(st1, st2),
        inner_ids(e) == ids(part),
        !inner_ids(e).contains(e.id.0),
    ensures
        done(st, st2, inner_ids(e)),
        well_typed(seen(noted(st2, e.id.0, t)), part),
        st1.node_types.contains_key(part.id.0),
        noted(st2, e.id.0, t).node_types[part.id.0] == st1.node_types[part.id.0],
        seen(noted(st2, e.id.0, t)).types.contains_key(e.id.0),
        seen(noted(st2, e.id.0, t)).types[e.id.0] == t,
{
    lemma_steps_done(st, st1, st2, ids(part));
    lemma_nothing_done(st1);
    lemma_steps_done(st1, st1, st2, Set::empty());
    lemma_last(st1, st2, Set::empty(), e, t);
    lemma_carry(st1, noted(st2, e.id.0, t), Set::<u32>::empty().insert(e.id.0), part);
}

/// An expression with a list of parts.
proof fn lemma_list_part(st: InferV, st1: InferV, st2: InferV, t: TyV, e: Expr, es: Vec<Expr>)
    requires
        ready(st),
        done(st, st1, ids_from(es, 0)),
        well_typed_from(seen(st1), es, 0),
        steps(st1, st2),
        inner_ids(e) == ids_from(es, 0),
        !inner_ids(e).contains(e.id.0),
    ensures
        done(st, st2, inner_ids(e)),
        well_typed_from(seen(noted(st2, e.id.0, t)), es, 0),
        seen(noted(st2, e.id.0, t)).types.contains_key(e.id.0),
        seen(noted(st2, e.id.0, t)).types[e.id.0] == t,
{
    lemma_steps_done(st, st1, st2, ids_from(es, 0));
    lemma_nothing_done(st1);
    lemma_steps_done(st1, st1, st2, Set::empty());
    lemma_last(st1, st2, Set::empty(), e, t);
    lemma_carry_from(st1, noted(st2, e.id.0, t), Set::<u32>::empty().insert(e.id.0), es, 0);
}

/// An expression with a part and a list of parts.
proof fn lemma_part_and_list(
    st: InferV,
    st1: InferV,
    st2: InferV,
    st3: InferV,
    t: TyV,
    e: Expr,
    part: Expr,
    es: Vec<Expr>,
)
    requires
        ready(st),
        done(st, st1, ids(part)),
        well_typed(seen(st1), part),
        done(st1, st2, ids_from(es, 0)),
        well_typed_from(seen(st2), es, 0),
        steps(st2, st3),
        inner_ids(e) == ids(part).union(ids_from(es, 0)),
        ids(part).disjoint(ids_from(es, 0)),
        !inner_ids(e).contains(e.id.0),
    ensures
        done(st, st3, inner_ids(e)),
        well_typed(seen(noted(st3, e.id.0, t)), part),
        well_typed_from(seen(noted(st3, e.id.0, t)), es, 0),
        seen(noted(st3, e.id.0, t)).types.contains_key(e.id.0),
        seen(noted(st3, e.id.0, t)).types[e.id.0] == t,
{
    let rest = ids_from(es, 0);
    let id = e.id.0;
    let fin = noted(st3, id, t);
    lemma_done_more(st, st1, st2, ids(part), rest);
    lemma_steps_done(st, st2, st3, ids(part).union(rest));
    lemma_steps_done(st1, st2, st3, rest);
    lemma_last(st1, st3, rest, e, t);
    lemma_carry(st1, fin, rest.insert(id), part);
    lemma_nothing_done(st2);
    lemma_steps_done(st2, st2, st3, Set::empty());
    lemma_last(st2, st3, Set::empty(), e, t);
    lemma_carry_from(st2, fin, Set::<u32>::empty().insert(id), es, 0);
}

pub proof fn lemma_kind_typed(st: InferV, env: EnvV, e: Expr)
    requires
        ready(st),
        orderly(e),
        kind_type(st, env, e).1 is Ok,
    ensures
        fits(st, kind_type(st, env, e), e),
    decreases e, 2nat,
{
    let (st9, r9) = kind_type(st, env, e);
    let t9 = r9->Ok_0;
    lemma_nothing_done(st);
    match e.kind {
        ExprKind::NumberLit { text, suffix } => {
            if suffix is None {
                if crate::infer_expr::looks_float(text@) {
                    lemma_number_ready(
                        st,
                        crate::infer_state::NumberDefault::Float,
                        "Float"@,
                        e.span,
                    );
                } else {
                    lemma_number_ready(
                        st,
                        crate::infer_state::NumberDefault::Int,
                        "Int"@,
                        e.span,
                    );
                }
            }
            lemma_leaf(st, st9, t9, e);
        },
        ExprKind::ImaginaryLit { .. } => {
            lemma_number_ready(
                st,
                crate::infer_state::NumberDefault::Complex,
                "Complex"@,
                e.span,
            );
            lemma_leaf(st, st9, t9, e);
        },
        ExprKind::BoolLit(_) => lemma_leaf(st, st9, t9, e),
        ExprKind::Path(p) => {
            assert(env.contains_key(path_name(p)));
            lemma_instantiated_ready(st, env[path_name(p)]);
            lemma_leaf(st, st9, t9, e);
        },
        ExprKind::Call(path, _, args, _) => {
            if crate::infer_expr::raw_call(path.segments@) {
                lemma_exprs_typed(st, env, args, 0, Seq::empty());
                let st1 = exprs_types(st, env, args, 0, Seq::empty()).0;
                lemma_list_part(st, st1, st9, t9, e, args);
            } else {
                lemma_call_typed(st, env, e);
            }
        },
        ExprKind::Block(b) => {
            lemma_block_typed(st, env, b);
            lemma_nothing_done(st9);
            lemma_last(st9, st9, Set::empty(), e, t9);
            lemma_carry_block(
                st9,
                noted(st9, e.id.0, t9),
                Set::<u32>::empty().insert(e.id.0),
                b,
                t9,
            );
        },
        ExprKind::If { .. } => lemma_if_typed(st, env, e),
        ExprKind::While { .. } => lemma_while_typed(st, env, e),
        ExprKind::For { .. } => lemma_for_typed(st, env, e),
        ExprKind::ForIn { .. } => lemma_for_in_typed(st, env, e),
        ExprKind::Loop { body } => {
            let acc = next_var(st);
            lemma_loop_body_typed(minted(st), env, body, acc);
            lemma_then_done(st, minted(st), st9, block_ids(body));
            let u = loop_body(minted(st), env, body, acc).1->Ok_0;
            lemma_nothing_done(st9);
            lemma_last(st9, st9, Set::empty(), e, t9);
            lemma_carry_block(
                st9,
                noted(st9, e.id.0, t9),
                Set::<u32>::empty().insert(e.id.0),
                body,
                u,
            );
        },
        ExprKind::MethodCall(..) => lemma_method_typed(st, env, e),
        ExprKind::ArrayLit(elems) => lemma_array_typed(st, env, e, elems),
        ExprKind::ArrayRepeat { .. } => lemma_repeat_typed(st, env, e),
        ExprKind::Index(..) => lemma_index_typed(st, env, e),
        ExprKind::FieldAccess(base, name) => {
            lemma_expr_typed(st, env, *base);
            let (st1, r1) = expr_type(st, env, *base);
            lemma_field_access_ready(st1, r1->Ok_0, name@, e.span);
            lemma_one_part(st, st1, st9, t9, e, *base);
            assert(reads(st9, r1->Ok_0, name@, t9));
            let fin = noted(st9, e.id.0, t9);
            assert(on(st9, fin));
            lemma_reads_later(st9, fin, r1->Ok_0, name@, t9);
        },
        ExprKind::StructLit(..) => lemma_struct_typed(st, env, e),
        ExprKind::Lambda { .. } => lemma_lambda_typed(st, env, e),
        ExprKind::PackRef(_) => lemma_leaf(st, st9, t9, e),
    }
}

proof fn lemma_field_access_ready(st: InferV, base: TyV, name: Seq<char>, span: Span)
    requires
        ready(st),
        field_access_type(st, base, name, span).1 is Ok,
    ensures
        goes(st, field_access_type(st, base, name, span).0),
        reads(
            field_access_type(st, base, name, span).0,
            base,
            name,
            field_access_type(st, base, name, span).1->Ok_0,
        ),
{
    let known = applied(st.subst, base);
    let (st1, r) = field_access_type(st, base, name, span);
    let t = r->Ok_0;
    if known is Var {
        let p = PendingFieldV { base: known, field: name, result: st.next_var, span };
        assert(st1.fields == st.fields.push(p));
        assert forall|q: PendingFieldV| #[trigger] st.fields.contains(q) implies st1.fields.contains(
            q,
        ) by {
            let i = choose|i: int| 0 <= i < st.fields.len() && st.fields[i] == q;
            assert(st1.fields[i] == q);
        }
        assert(st1.fields[st.fields.len() as int] == p);
        assert(st1.fields.contains(p));
        assert(leads_at(st.subst, st1.subst, base, known));
        assert(leads(st1.subst, base, known));
        assert(waits(st1, known, name, t));
    } else {
        if !crate::types::placeholder(known) {
            lemma_field_ready(st, known, name, span);
            lemma_field_told(st, known, name, span);
        }
        assert(told_as(st1.registry, known, name, t));
        assert(told_field(st1.registry, known, name, st1.subst, t));
        assert(told_at(st.subst, st1.registry, st1.subst, base, name, t));
        assert(leads(st1.subst, base, base));
    }
}

// ---- lists of expressions ----

pub proof fn lemma_exprs_typed(st: InferV, env: EnvV, es: Vec<Expr>, i: nat, acc: Seq<TyV>)
    requires
        ready(st),
        orderly_from(es, i),
        exprs_types(st, env, es, i, acc).1 is Ok,
    ensures
        done(st, exprs_types(st, env, es, i, acc).0, ids_from(es, i)),
        well_typed_from(seen(exprs_types(st, env, es, i, acc).0), es, i),
    decreases es, es@.len() - i,
{
    if i < es@.len() {
        let x = es@[i as int];
        lemma_expr_typed(st, env, x);
        let (st1, r) = expr_type(st, env, x);
        let acc1 = acc.push(r->Ok_0);
        lemma_exprs_typed(st1, env, es, i + 1, acc1);
        let st2 = exprs_types(st1, env, es, i + 1, acc1).0;
        lemma_done_more(st, st1, st2, ids(x), ids_from(es, i + 1));
        lemma_carry(st1, st2, ids_from(es, i + 1), x);
    } else {
        lemma_nothing_done(st);
    }
}

pub proof fn lemma_indices_typed(st: InferV, env: EnvV, es: Vec<Expr>, i: nat, acc: Seq<TyV>)
    requires
        ready(st),
        orderly_from(es, i),
        indices_types(st, env, es, i, acc).1 is Ok,
    ensures
        done(st, indices_types(st, env, es, i, acc).0, ids_from(es, i)),
        well_typed_from(seen(indices_types(st, env, es, i, acc).0), es, i),
    decreases es, es@.len() - i,
{
    if i < es@.len() {
        let x = es@[i as int];
        lemma_expr_typed(st, env, x);
        let (st1, r) = expr_type(st, env, x);
        let t = r->Ok_0;
        let st2 = demanding(st1, demand("Int"@, t, x.span));
        let acc1 = acc.push(t);
        lemma_indices_typed(st2, env, es, i + 1, acc1);
        let st3 = indices_types(st2, env, es, i + 1, acc1).0;
        lemma_then_done(st1, st2, st3, ids_from(es, i + 1));
        lemma_done_more(st, st1, st3, ids(x), ids_from(es, i + 1));
        lemma_carry(st1, st3, ids_from(es, i + 1), x);
    } else {
        lemma_nothing_done(st);
    }
}

/// Whether the elements from the `i`th on have types that agree with a type.
pub open spec fn agreeing(st: InferV, es: Vec<Expr>, i: nat, elem: TyV) -> bool {
    forall|k: int|
        i <= k < es@.len() ==> st.node_types.contains_key((#[trigger] es@[k]).id.0) && joined(
            st.subst,
            elem,
            st.node_types[es@[k].id.0],
        )
}

pub proof fn lemma_elements_typed(st: InferV, env: EnvV, es: Vec<Expr>, i: nat, elem: TyV)
    requires
        ready(st),
        orderly_from(es, i),
        elements_unified(st, env, es, i, elem).1 is Ok,
    ensures
        done(st, elements_unified(st, env, es, i, elem).0, ids_from(es, i)),
        well_typed_from(seen(elements_unified(st, env, es, i, elem).0), es, i),
        agreeing(elements_unified(st, env, es, i, elem).0, es, i, elem),
    decreases es, es@.len() - i,
{
    if i < es@.len() {
        let x = es@[i as int];
        let rest = ids_from(es, i + 1);
        lemma_expr_typed(st, env, x);
        let (st1, r) = expr_type(st, env, x);
        let t = r->Ok_0;
        lemma_unified_step(st1, x.span, elem, t);
        let st2 = unified_at(st1, x.span, elem, t).0;
        lemma_elements_typed(st2, env, es, i + 1, elem);
        let st3 = elements_unified(st2, env, es, i + 1, elem).0;
        lemma_then_done(st1, st2, st3, rest);
        lemma_done_more(st, st1, st3, ids(x), rest);
        lemma_carry(st1, st3, rest, x);
        lemma_agree_later(st2, st3, elem, t);
        assert(agreeing(st3, es, i, elem));
    } else {
        lemma_nothing_done(st);
    }
}

proof fn lemma_array_typed(st: InferV, env: EnvV, e: Expr, elems: Vec<Expr>)
    requires
        ready(st),
        orderly(e),
        e.kind == ExprKind::ArrayLit(elems),
        kind_type(st, env, e).1 is Ok,
    ensures
        fits(st, kind_type(st, env, e), e),
    decreases e, 0nat,
{
    let (st2, r9) = kind_type(st, env, e);
    let t = r9->Ok_0;
    let elem = next_var(st);
    let size = TyV::Const(ConstValue::Int(elems@.len() as u64));
    lemma_elements_typed(minted(st), env, elems, 0, elem);
    let st1 = elements_unified(minted(st), env, elems, 0, elem).0;
    lemma_then_done(st, minted(st), st1, ids_from(elems, 0));
    lemma_nothing_done(st1);
    lemma_list_part(st, st1, st1, t, e, elems);
    let fin = noted(st1, e.id.0, t);
    assert forall|k: int| 0 <= k < elems@.len() implies (seen(fin).agree)(
        elem,
        fin.node_types[(#[trigger] elems@[k]).id.0],
    ) by {
        lemma_ids_at(elems, 0, k);
        assert(agreeing(st1, elems, 0, elem));
        assert(st1.node_types.contains_key(elems@[k].id.0));
        assert(fin.node_types[elems@[k].id.0] == st1.node_types[elems@[k].id.0]);
    }
    assert(elements_agree(seen(fin), elems@, elems@.len(), elem));
}

// ---- conditionals and loops ----

proof fn lemma_condition_typed(st: InferV, env: EnvV, cond: Expr)
    requires
        ready(st),
        orderly(cond),
        condition_checked(st, env, cond).1 is Ok,
    ensures
        done(st, condition_checked(st, env, cond).0, ids(cond)),
        well_typed(seen(condition_checked(st, env, cond).0), cond),
        ({
            let st2 = condition_checked(st, env, cond).0;
            &&& st2.node_types.contains_key(cond.id.0)
            &&& joined(st2.subst, bool_ty(), st2.node_types[cond.id.0])
        }),
    decreases cond, 4nat,
{
    lemma_expr_typed(st, env, cond);
    let (st1, r) = expr_type(st, env, cond);
    let t = r->Ok_0;
    lemma_unified_step(st1, cond.span, bool_ty(), t);
    let st2 = unified_at(st1, cond.span, bool_ty(), t).0;
    lemma_steps_done(st, st1, st2, ids(cond));
    lemma_nothing_done(st1);
    lemma_steps_done(st1, st1, st2, Set::empty());
    lemma_carry(st1, st2, Set::empty(), cond);
}

proof fn lemma_if_typed(st: InferV, env: EnvV, e: Expr)
    requires
        ready(st),
        orderly(e),
        e.kind is If,
        if_type(st, env, e).1 is Ok,
    ensures
        fits(st, if_type(st, env, e), e),
    decreases e, 0nat,
{
    if let ExprKind::If { cond, then_branch, else_branch } = e.kind {
        let id = e.id.0;
        let c = ids(*cond);
        let b = block_ids(then_branch);
        lemma_condition_typed(st, env, *cond);
        let st1 = condition_checked(st, env, *cond).0;
        lemma_block_typed(st1, env, then_branch);
        let (st2, r2) = block_type(st1, env, then_branch);
        let t = r2->Ok_0;
        let tc = st1.node_types[cond.id.0];
        match else_branch {
            Some(x) => {
                let o = match *x {
                    ElseBranch::If(e2) => ids(e2),
                    ElseBranch::Block(b2) => block_ids(b2),
                };
                let (st3, r3) = match *x {
                    ElseBranch::If(e2) => {
                        lemma_expr_typed(st2, env, e2);
                        expr_type(st2, env, e2)
                    },
                    ElseBranch::Block(b2) => {
                        lemma_block_typed(st2, env, b2);
                        block_type(st2, env, b2)
                    },
                };
                let u = r3->Ok_0;
                lemma_unified_step(st3, e.span, t, u);
                let st4 = unified_at(st3, e.span, t, u).0;
                let fin = noted(st4, id, t);
                assert(if_type(st, env, e) == (st4, Ok::<TyV, TypeErrorV>(t)));
                lemma_steps_done(st2, st3, st4, o);
                lemma_done_more(st1, st2, st4, b, o);
                lemma_done_more(st, st1, st4, c, b.union(o));
                lemma_done_wider(st, st4, c.union(b.union(o)), inner_ids(e));
                lemma_last(st1, st4, b.union(o), e, t);
                lemma_carry(st1, fin, b.union(o).insert(id), *cond);
                lemma_agree_later(st1, fin, bool_ty(), tc);
                lemma_last(st2, st4, o, e, t);
                lemma_carry_block(st2, fin, o.insert(id), then_branch, t);
                lemma_nothing_done(st3);
                lemma_steps_done(st3, st3, st4, Set::empty());
                lemma_last(st3, st4, Set::empty(), e, t);
                match *x {
                    ElseBranch::If(e2) => {
                        lemma_carry(st3, fin, Set::<u32>::empty().insert(id), e2);
                    },
                    ElseBranch::Block(b2) => {
                        lemma_carry_block(st3, fin, Set::<u32>::empty().insert(id), b2, u);
                    },
                }
            },
            None => {
                lemma_unified_step(st2, e.span, unit_ty(), t);
                let st4 = unified_at(st2, e.span, unit_ty(), t).0;
                let fin = noted(st4, id, unit_ty());
                assert(if_type(st, env, e) == (
                    st4,
                    Ok::<TyV, TypeErrorV>(unit_ty()),
                ));
                lemma_steps_done(st1, st2, st4, b);
                lemma_done_more(st, st1, st4, c, b);
                lemma_done_wider(st, st4, c.union(b), inner_ids(e));
                lemma_last(st1, st4, b, e, unit_ty());
                lemma_carry(st1, fin, b.insert(id), *cond);
                lemma_agree_later(st1, fin, bool_ty(), tc);
                lemma_nothing_done(st2);
                lemma_steps_done(st2, st2, st4, Set::empty());
                lemma_last(st2, st4, Set::empty(), e, unit_ty());
                lemma_carry_block(st2, fin, Set::<u32>::empty().insert(id), then_branch, t);
            },
        }
    }
}

/// The body of a loop.
proof fn lemma_loop_body_typed(st: InferV, env: EnvV, body: Block, acc: TyV)
    requires
        ready(st),
        orderly_block(body),
        loop_body(st, env, body, acc).1 is Ok,
    ensures
        done(st, loop_body(st, env, body, acc).0, block_ids(body)),
        well_typed_block(seen(loop_body(st, env, body, acc).0), body),
        block_found(
            loop_body(st, env, body, acc).0,
            body,
            loop_body(st, env, body, acc).1->Ok_0,
        ),
    decreases body, 2nat,
{
    let st0 = InferV { loops: st.loops.push(acc), ..st };
    lemma_block_typed(st0, env, body);
    let st1 = block_type(st0, env, body).0;
    let st2 = loop_body(st, env, body, acc).0;
    assert(steps(st, st0));
    lemma_then_done(st, st0, st1, block_ids(body));
    assert(steps(st1, st2));
    lemma_steps_done(st, st1, st2, block_ids(body));
    assert(done(st1, st2, Set::empty()));
    lemma_carry_block(st1, st2, Set::empty(), body, block_type(st0, env, body).1->Ok_0);
}

/// A loop without a value, in an expression whose other parts have been inferred.
proof fn lemma_plain_loop_typed(st: InferV, env: EnvV, body: Block)
    requires
        ready(st),
        orderly_block(body),
        plain_loop(st, env, body).1 is Ok,
    ensures
        done(st, plain_loop(st, env, body).0, block_ids(body)),
        plain_loop(st, env, body).1->Ok_0 == unit_ty(),
        well_typed_block(seen(plain_loop(st, env, body).0), body),
        block_found(
            plain_loop(st, env, body).0,
            body,
            loop_body(st, env, body, unit_ty()).1->Ok_0,
        ),
    decreases body, 3nat,
{
    lemma_loop_body_typed(st, env, body, unit_ty());
}

proof fn lemma_while_typed(st: InferV, env: EnvV, e: Expr)
    requires
        ready(st),
        orderly(e),
        e.kind is While,
        while_type(st, env, e).1 is Ok,
    ensures
        fits(st, while_type(st, env, e), e),
    decreases e, 0nat,
{
    if let ExprKind::While { cond, body } = e.kind {
        let id = e.id.0;
        let c = ids(*cond);
        let b = block_ids(body);
        lemma_condition_typed(st, env, *cond);
        let st1 = condition_checked(st, env, *cond).0;
        lemma_plain_loop_typed(st1, env, body);
        let st2 = plain_loop(st1, env, body).0;
        let u = loop_body(st1, env, body, unit_ty()).1->Ok_0;
        let t = unit_ty();
        let fin = noted(st2, id, t);
        assert(while_type(st, env, e) == (st2, Ok::<TyV, TypeErrorV>(t)));
        lemma_done_more(st, st1, st2, c, b);
        lemma_last(st1, st2, b, e, t);
        lemma_carry(st1, fin, b.insert(id), *cond);
        lemma_agree_later(st1, fin, bool_ty(), st1.node_types[cond.id.0]);
        lemma_nothing_done(st2);
        lemma_last(st2, st2, Set::empty(), e, t);
        lemma_carry_block(st2, fin, Set::<u32>::empty().insert(id), body, u);
    }
}

proof fn lemma_for_typed(st: InferV, env: EnvV, e: Expr)
    requires
        ready(st),
        orderly(e),
        e.kind is For,
        for_type(st, env, e).1 is Ok,
    ensures
        fits(st, for_type(st, env, e), e),
    decreases e, 0nat,
{
    if let ExprKind::For { var, start, end, body } = e.kind {
        let id = e.id.0;
        let x = ids(*start);
        let y = ids(*end);
        let b = block_ids(body);
        lemma_expr_typed(st, env, *start);
        let (st1, r1) = expr_type(st, env, *start);
        let t1 = r1->Ok_0;
        lemma_expr_typed(st1, env, *end);
        let (st2, r2) = expr_type(st1, env, *end);
        let t2 = r2->Ok_0;
        lemma_unified_step(st2, end.span, t1, t2);
        let st3 = unified_at(st2, end.span, t1, t2).0;
        let st4 = demanding(st3, demand("Int"@, t1, start.span));
        lemma_steps_more(st2, st3, st4);
        let inner = env.insert(var@, mono(t1));
        lemma_plain_loop_typed(st4, inner, body);
        let st5 = plain_loop(st4, inner, body).0;
        let u = loop_body(st4, inner, body, unit_ty()).1->Ok_0;
        let t = unit_ty();
        let fin = noted(st5, id, t);
        assert(for_type(st, env, e) == (st5, Ok::<TyV, TypeErrorV>(t)));
        lemma_then_done(st2, st4, st5, b);
        lemma_done_more(st1, st2, st5, y, b);
        lemma_done_more(st, st1, st5, x, y.union(b));
        lemma_done_wider(st, st5, x.union(y.union(b)), inner_ids(e));
        lemma_last(st1, st5, y.union(b), e, t);
        lemma_carry(st1, fin, y.union(b).insert(id), *start);
        lemma_last(st2, st5, b, e, t);
        lemma_carry(st2, fin, b.insert(id), *end);
        lemma_then_done(st3, st4, st5, b);
        lemma_last(st3, st5, b, e, t);
        lemma_agree_later(st3, fin, t1, t2);
        lemma_nothing_done(st5);
        lemma_last(st5, st5, Set::empty(), e, t);
        lemma_carry_block(st5, fin, Set::<u32>::empty().insert(id), body, u);
    }
}

proof fn lemma_for_in_typed(st: InferV, env: EnvV, e: Expr)
    requires
        ready(st),
        orderly(e),
        e.kind is ForIn,
        for_in_type(st, env, e).1 is Ok,
    ensures
        fits(st, for_in_type(st, env, e), e),
    decreases e, 0nat,
{
    if let ExprKind::ForIn { var, iter, body } = e.kind {
        let id = e.id.0;
        let x = ids(*iter);
        let b = block_ids(body);
        lemma_expr_typed(st, env, *iter);
        let (st1, r1) = expr_type(st, env, *iter);
        let t1 = r1->Ok_0;
        let elem = next_var(st1);
        let size = next_var(minted(st1));
        let array = TyV::Array(Box::new(elem), Box::new(size));
        let st2 = minted(minted(st1));
        lemma_steps_more(st1, minted(st1), st2);
        lemma_unified_step(st2, iter.span, array, t1);
        let st3 = unified_at(st2, iter.span, array, t1).0;
        lemma_steps_more(st1, st2, st3);
        let inner = env.insert(var@, mono(elem));
        lemma_plain_loop_typed(st3, inner, body);
        let st4 = plain_loop(st3, inner, body).0;
        let u = loop_body(st3, inner, body, unit_ty()).1->Ok_0;
        let t = unit_ty();
        let fin = noted(st4, id, t);
        assert(for_in_type(st, env, e) == (st4, Ok::<TyV, TypeErrorV>(t)));
        lemma_then_done(st1, st3, st4, b);
        lemma_done_more(st, st1, st4, x, b);
        lemma_last(st1, st4, b, e, t);
        lemma_carry(st1, fin, b.insert(id), *iter);
        lemma_last(st3, st4, b, e, t);
        lemma_agree_later(st3, fin, array, t1);
        lemma_nothing_done(st4);
        lemma_last(st4, st4, Set::empty(), e, t);
        lemma_carry_block(st4, fin, Set::<u32>::empty().insert(id), body, u);
    }
}

/// What a `for` goes over was unified with the type of an array.
pub proof fn lemma_for_in_joined(st: InferV, env: EnvV, e: Expr)
    requires
        ready(st),
        orderly(e),
        e.kind is ForIn,
        expr_type(st, env, e).1 is Ok,
    ensures
        ({
            let st1 = expr_type(st, env, e).0;
            exists|elem: TyV, size: TyV| #[trigger]
                joined(
                    st1.subst,
                    TyV::Array(Box::new(elem), Box::new(size)),
                    st1.node_types[e.kind->ForIn_iter.id.0],
                )
        }),
{
    if let ExprKind::ForIn { var, iter, body } = e.kind {
        assert(kind_type(st, env, e) == for_in_type(st, env, e));
        let b = block_ids(body);
        lemma_expr_typed(st, env, *iter);
        let (st1, r1) = expr_type(st, env, *iter);
        let elem = next_var(st1);
        let size = next_var(minted(st1));
        let array = TyV::Array(Box::new(elem), Box::new(size));
        let st2 = minted(minted(st1));
        assert(steps(st1, st2));
        lemma_unified_step(st2, iter.span, array, r1->Ok_0);
        let st3 = unified_at(st2, iter.span, array, r1->Ok_0).0;
        lemma_steps_more(st1, st2, st3);
        let inner = env.insert(var@, mono(elem));
        lemma_plain_loop_typed(st3, inner, body);
        let st4 = plain_loop(st3, inner, body).0;
        let fin = noted(st4, e.id.0, unit_ty());
        assert(expr_type(st, env, e).0 == fin);
        lemma_then_done(st1, st3, st4, b);
        lemma_last(st1, st4, b, e, unit_ty());
        lemma_carry(st1, fin, b.insert(e.id.0), *iter);
        lemma_last(st3, st4, b, e, unit_ty());
        lemma_agree_later(st3, fin, array, r1->Ok_0);
    }
}

// ---- other compound expressions ----

proof fn lemma_repeat_typed(st: InferV, env: EnvV, e: Expr)
    requires
        ready(st),
        orderly(e),
        e.kind is ArrayRepeat,
        repeat_type(st, env, e).1 is Ok,
    ensures
        fits(st, repeat_type(st, env, e), e),
    decreases e, 0nat,
{
    if let ExprKind::ArrayRepeat { value, count } = e.kind {
        let id = e.id.0;
        lemma_expr_typed(st, env, *value);
        let (st1, r1) = expr_type(st, env, *value);
        let (st2, r2) = repeat_type(st, env, e);
        let x = r1->Ok_0;
        let t = r2->Ok_0;
        let fin = noted(st2, id, t);
        if count.kind is PackRef {
            assert(t is Array);
            let size = *t->Array_1;
            assert(steps(st1, st2));
            lemma_steps_done(st, st1, st2, ids(*value));
            lemma_done_wider(st, st2, ids(*value), inner_ids(e));
            lemma_nothing_done(st1);
            lemma_steps_done(st1, st1, st2, Set::empty());
            lemma_last(st1, st2, Set::empty(), e, t);
            lemma_carry(st1, fin, Set::<u32>::empty().insert(id), *value);
            assert(t == (seen(fin).array)(x, size));
        } else {
            lemma_expr_typed(st1, env, *count);
            let y = expr_type(st1, env, *count).1->Ok_0;
            assert(st2 == expr_type(st1, env, *count).0);
            assert(t == TyV::Array(Box::new(x), Box::new(y)));
            lemma_done_more(st, st1, st2, ids(*value), ids(*count));
            lemma_last(st1, st2, ids(*count), e, t);
            lemma_carry(st1, fin, ids(*count).insert(id), *value);
            lemma_nothing_done(st2);
            lemma_last(st2, st2, Set::empty(), e, t);
            lemma_carry(st2, fin, Set::<u32>::empty().insert(id), *count);
            assert(t == (seen(fin).array)(x, y));
        }
    }
}

proof fn lemma_indexed_ready(
    st: InferV,
    known: TyV,
    tys: Seq<TyV>,
    spans: Seq<Span>,
    base_span: Span,
    span: Span,
)
    requires
        ready(st),
        indexed_type(st, known, tys, spans, base_span, span).1 is Ok,
    ensures
        steps(st, indexed_type(st, known, tys, spans, base_span, span).0),
{
    if !(known is Var) && !crate::types::placeholder(known) {
        lemma_index_ready(st, known, tys, spans, base_span, span);
    }
}

proof fn lemma_index_typed(st: InferV, env: EnvV, e: Expr)
    requires
        ready(st),
        orderly(e),
        e.kind is Index,
        index_expr_type(st, env, e).1 is Ok,
    ensures
        fits(st, index_expr_type(st, env, e), e),
    decreases e, 0nat,
{
    if let ExprKind::Index(base, indices) = e.kind {
        lemma_expr_typed(st, env, *base);
        let (st1, r1) = expr_type(st, env, *base);
        let known = applied(st1.subst, r1->Ok_0);
        lemma_indices_typed(st1, env, indices, 0, Seq::empty());
        let (st2, r2) = indices_types(st1, env, indices, 0, Seq::empty());
        let tys = r2->Ok_0;
        let spans = spans_of(indices@);
        lemma_indexed_ready(st2, known, tys, spans, base.span, e.span);
        let (st3, r3) = indexed_type(st2, known, tys, spans, base.span, e.span);
        assert(index_expr_type(st, env, e) == (st3, r3));
        lemma_part_and_list(st, st1, st2, st3, r3->Ok_0, e, *base, indices);
    }
}

proof fn lemma_method_typed(st: InferV, env: EnvV, e: Expr)
    requires
        ready(st),
        orderly(e),
        e.kind is MethodCall,
        method_type(st, env, e).1 is Ok,
    ensures
        fits(st, method_type(st, env, e), e),
    decreases e, 0nat,
{
    if let ExprKind::MethodCall(base, name, args) = e.kind {
        let (st9, r9) = method_type(st, env, e);
        let t9 = r9->Ok_0;
        let id = e.id.0;
        lemma_nothing_done(st);
        if crate::infer_types::asked_pack_len(st, st.active, *base, name@, args@) is Some {
            assert(st9 == st);
            lemma_done_wider(st, st, Set::empty(), inner_ids(e));
            lemma_last(st, st, Set::empty(), e, t9);
            assert(asks_length(*base, name@, args@));
        } else {
            lemma_expr_typed(st, env, *base);
            let (st1, r1) = expr_type(st, env, *base);
            let known = applied(st1.subst, r1->Ok_0);
            if crate::types::placeholder(known) {
                assert(method_type(st, env, e) == (
                    st1,
                    Ok::<TyV, TypeErrorV>(not_inferred()),
                ));
                lemma_done_wider(st, st1, ids(*base), inner_ids(e));
                lemma_nothing_done(st1);
                lemma_last(st1, st1, Set::empty(), e, t9);
                lemma_carry(st1, noted(st1, id, t9), Set::<u32>::empty().insert(id), *base);
            } else {
                let (st2, r2) = exprs_types(st1, env, args, 0, Seq::empty());
                assert(crate::infer_expr::method_in_progress(st1, known, name@) is None);
                assert(r2 is Ok);
                lemma_exprs_typed(st1, env, args, 0, Seq::empty());
                let tys = r2->Ok_0;
                if known is Var {
                    assert(steps(st2, st9));
                } else {
                    assert(method_type(st, env, e) == method_call_type(
                        st2,
                        known,
                        name@,
                        tys,
                        spans_of(args@),
                        base.span,
                        e.span,
                    ));
                    lemma_method_call_ready(
                        st2,
                        known,
                        name@,
                        tys,
                        spans_of(args@),
                        base.span,
                        e.span,
                    );
                }
                lemma_part_and_list(st, st1, st2, st9, t9, e, *base, args);
            }
        }
    }
}

// ---- calls ----

proof fn lemma_vars_pinned_ready(
    st: InferV,
    vars: Seq<u32>,
    args: Seq<GenericArg>,
    i: nat,
    m: Map<u32, TyV>,
    span: Span,
)
    requires
        ready(st),
        vars_pinned(st, vars, args, i, m, span).1 is Ok,
    ensures
        steps(st, vars_pinned(st, vars, args, i, m, span).0),
    decreases vars.len() - i,
{
    if !(i >= vars.len() || i >= args.len()) {
        lemma_generic_arg_ready(st, args[i as int]);
        let (st1, t) = generic_arg_type(st, args[i as int]);
        let own = m[vars[i as int]];
        lemma_unified_step(st1, span, own, t);
        let st2 = unified_at(st1, span, own, t).0;
        lemma_steps_more(st, st1, st2);
        lemma_vars_pinned_ready(st2, vars, args, i + 1, m, span);
        lemma_steps_more(st, st2, vars_pinned(st2, vars, args, i + 1, m, span).0);
    } else {
        lemma_nothing_done(st);
    }
}

proof fn lemma_scheme_call_ready(
    st: InferV,
    scheme: SchemeV,
    name: Seq<char>,
    tys: Seq<TyV>,
    spans: Seq<Span>,
    explicit: Seq<GenericArg>,
    span: Span,
)
    requires
        ready(st),
        scheme_call_type(st, scheme, name, tys, spans, explicit, span).1 is Ok,
    ensures
        steps(st, scheme_call_type(st, scheme, name, tys, spans, explicit, span).0),
{
    lemma_instantiated_ready(st, scheme);
    let (st1, t, m) = instantiated(st, scheme);
    lemma_vars_pinned_ready(st1, scheme.vars, explicit, 0, m, span);
    let st2 = vars_pinned(st1, scheme.vars, explicit, 0, m, span).0;
    lemma_steps_more(st, st1, st2);
    if let TyV::Fn(params, ret) = t {
        lemma_args_unified_ready(st2, params, 0, tys, spans, 0);
        lemma_steps_more(st, st2, args_unified(st2, params, 0, tys, spans, 0).0);
    }
}

proof fn lemma_call_typed(st: InferV, env: EnvV, e: Expr)
    requires
        ready(st),
        orderly(e),
        e.kind is Call,
        call_type(st, env, e).1 is Ok,
    ensures
        fits(st, call_type(st, env, e), e),
    decreases e, 0nat,
{
    if let ExprKind::Call(path, explicit, args, _) = e.kind {
        let segments = crate::table::views(path.segments@);
        let name = path_name(path);
        let spans = spans_of(args@);
        lemma_exprs_typed(st, env, args, 0, Seq::empty());
        let (st1, r1) = exprs_types(st, env, args, 0, Seq::empty());
        let tys = r1->Ok_0;
        let (st9, r9) = call_type(st, env, e);
        lemma_nothing_done(st1);
        if segments.len() == 2 && st.registry.declares_algebra(segments[0]) {
            lemma_algebra_call_ready(
                st1,
                e.span,
                segments[0],
                segments[1],
                tys,
                spans,
                explicit@,
            );
        } else {
            let candidates = crate::registry::declaring_from(st1.registry, 0, name, tys.len());
            if candidates.len() == 1 {
                lemma_algebra_call_ready(
                    st1,
                    e.span,
                    candidates[0],
                    name,
                    tys,
                    spans,
                    explicit@,
                );
            } else if env.contains_key(name) {
                lemma_scheme_call_ready(st1, env[name], name, tys, spans, explicit@, e.span);
            }
        }
        lemma_list_part(st, st1, st9, r9->Ok_0, e, args);
    }
}

// ---- struct literals ----

proof fn lemma_fields_typed(
    st: InferV,
    env: EnvV,
    fields: Vec<(String, Expr)>,
    i: nat,
    struct_name: Seq<char>,
    declared: Seq<Field>,
    m: MappingV,
    pack: Option<PackArgs>,
    given: Seq<Seq<char>>,
)
    requires
        ready(st),
        orderly_fields_from(fields, i),
        fields_checked_from(st, env, fields, i, struct_name, declared, m, pack, given).1 is Ok,
    ensures
        ({
            let st1 = fields_checked_from(
                st,
                env,
                fields,
                i,
                struct_name,
                declared,
                m,
                pack,
                given,
            ).0;
            &&& done(st, st1, field_ids_from(fields, i))
            &&& well_typed_fields_from(seen(st1), fields, i)
            &&& plain_struct(st, struct_name, declared, m, pack) ==> fills_from(
                seen(st1),
                struct_name,
                fields@,
                i,
            )
        }),
    decreases fields, fields@.len() - i,
{
    if i < fields@.len() {
        let name = fields@[i as int].0@;
        let value = fields@[i as int].1;
        let rest = field_ids_from(fields, i + 1);
        let k = field_from(declared, 0, name)->0;
        lemma_expr_typed(st, env, value);
        let (st1, r1) = expr_type(st, env, value);
        let t = r1->Ok_0;
        let (st2, own) = declared_field_type(st1, declared[k], m, pack);
        lemma_type_ready(st1, declared[k].ty, m);
        if let Some(p) = pack {
            lemma_pack_type_ready(st1, declared[k].ty, m, p.name, p.tys);
        }
        lemma_unified_step(st2, value.span, own, t);
        let st3 = unified_at(st2, value.span, own, t).0;
        lemma_steps_more(st1, st2, st3);
        let given1 = given.push(name);
        lemma_fields_typed(st3, env, fields, i + 1, struct_name, declared, m, pack, given1);
        let st4 = fields_checked_from(
            st3,
            env,
            fields,
            i + 1,
            struct_name,
            declared,
            m,
            pack,
            given1,
        ).0;
        lemma_then_done(st1, st3, st4, rest);
        lemma_done_more(st, st1, st4, ids(value), rest);
        lemma_carry(st1, st4, rest, value);
        if plain_struct(st, struct_name, declared, m, pack) {
            lemma_fills(st1, st3, struct_name, name, k, t);
            lemma_filled_later(st3, st4, struct_name, name, t);
            assert(st4.node_types[value.id.0] == t);
            assert forall|j: int| i <= j < fields@.len() implies (seen(st4).fills)(
                struct_name,
                (#[trigger] fields@[j]).0@,
                st4.node_types[fields@[j].1.id.0],
            ) by {
                if j > i {
                    assert((seen(st4).fills)(
                        struct_name,
                        fields@[j].0@,
                        st4.node_types[fields@[j].1.id.0],
                    ));
                }
            }
        }
    } else {
        lemma_nothing_done(st);
    }
}

/// Whether the fields are those that a struct without generics declares.
spec fn plain_struct(
    st: InferV,
    struct_name: Seq<char>,
    declared: Seq<Field>,
    m: MappingV,
    pack: Option<PackArgs>,
) -> bool {
    &&& pack is None
    &&& m == Map::<Seq<char>, TyV>::empty()
    &&& st.registry.struct_of(struct_name) matches Some(s) && s.fields@ == declared
}

proof fn lemma_generic_args_ready(st: InferV, args: Seq<GenericArg>, i: nat, acc: Seq<TyV>)
    requires
        ready(st),
    ensures
        steps(st, generic_args_from(st, args, i, acc).0),
    decreases args.len() - i,
{
    if i < args.len() {
        lemma_generic_arg_ready(st, args[i as int]);
        let (st1, t) = generic_arg_type(st, args[i as int]);
        lemma_generic_args_ready(st1, args, i + 1, acc.push(t));
        lemma_steps_more(st, st1, generic_args_from(st1, args, i + 1, acc.push(t)).0);
    } else {
        lemma_nothing_done(st);
    }
}

/// A struct literal of which only the fields are not inferred yet.
proof fn lemma_struct_checked(
    st: InferV,
    st2: InferV,
    env: EnvV,
    e: Expr,
    declared: Seq<Field>,
    m: MappingV,
    pack: Option<PackArgs>,
    t: TyV,
)
    requires
        orderly(e),
        e.kind is StructLit,
        ready(st),
        steps(st, st2),
        struct_name_of(t) == Some(path_name(e.kind->StructLit_0)),
        t is Con ==> plain_struct(st, path_name(e.kind->StructLit_0), declared, m, pack),
        struct_checked(
            st2,
            env,
            e,
            path_name(e.kind->StructLit_0),
            declared,
            m,
            pack,
            t,
        ).1 is Ok,
    ensures
        fits(
            st,
            struct_checked(
                st2,
                env,
                e,
                path_name(e.kind->StructLit_0),
                declared,
                m,
                pack,
                t,
            ),
            e,
        ),
    decreases e, 0nat,
{
    if let ExprKind::StructLit(path, explicit, fields) = e.kind {
        let id = e.id.0;
        let name = path_name(path);
        let given = Seq::<Seq<char>>::empty();
        lemma_fields_typed(st2, env, fields, 0, name, declared, m, pack, given);
        let st3 = fields_checked_from(st2, env, fields, 0, name, declared, m, pack, given).0;
        assert(struct_checked(st2, env, e, name, declared, m, pack, t) == (
            st3,
            Ok::<TyV, TypeErrorV>(t),
        ));
        lemma_then_done(st, st2, st3, field_ids_from(fields, 0));
        lemma_nothing_done(st3);
        lemma_last(st3, st3, Set::empty(), e, t);
        lemma_carry_fields(
            st3,
            noted(st3, id, t),
            Set::<u32>::empty().insert(id),
            fields,
            0,
        );
        if t is Con {
            let fin = noted(st3, id, t);
            assert forall|j: int| 0 <= j < fields@.len() implies (seen(fin).fills)(
                name,
                (#[trigger] fields@[j]).0@,
                fin.node_types[fields@[j].1.id.0],
            ) by {
                let x = fields@[j].1;
                lemma_field_at(seen(st3), fields, 0, j);
                assert(ids(x).contains(x.id.0));
                assert(x.id.0 != id);
                assert((seen(st3).fills)(name, fields@[j].0@, st3.node_types[x.id.0]));
                lemma_filled_later(st3, fin, name, fields@[j].0@, st3.node_types[x.id.0]);
            }
        }
    }
}

proof fn lemma_stood_for_len(g: Seq<GenericParam>, n: nat, m: MappingV)
    requires
        n <= g.len(),
    ensures
        stood_for(g, n, m).len() == n,
    decreases n,
{
    if n > 0 {
        lemma_stood_for_len(g, (n - 1) as nat, m);
    }
}

proof fn lemma_struct_typed(st: InferV, env: EnvV, e: Expr)
    requires
        ready(st),
        orderly(e),
        e.kind is StructLit,
        struct_type(st, env, e).1 is Ok,
    ensures
        fits(st, struct_type(st, env, e), e),
    decreases e, 1nat,
{
    if let ExprKind::StructLit(path, explicit, fields) = e.kind {
        let name = path_name(path);
        let x = st.registry.struct_of(name)->0;
        let g = x.generics@;
        if g.len() > 0 && g.last().spec_variadic() {
            let own = g.subrange(0, g.len() - 1);
            lemma_opened_ready(st, own, e.span);
            let (st1, m) = generics_opened(st, own, e.span);
            lemma_pinned_ready(st1, own, explicit@, 0, m, e.span);
            let st2 = generics_pinned(st1, own, explicit@, 0, m, e.span).0;
            lemma_steps_more(st, st1, st2);
            lemma_generic_args_ready(st2, explicit@, own.len(), Seq::empty());
            let (st3, tys) = generic_args_from(st2, explicit@, own.len(), Seq::empty());
            lemma_steps_more(st, st2, st3);
            let pack = Some(PackArgs { name: g.last().spec_name(), tys });
            let t = TyV::App(name, stood_for(own, own.len(), m) + tys);
            assert(struct_type(st, env, e) == struct_checked(
                st3,
                env,
                e,
                name,
                x.fields@,
                m,
                pack,
                t,
            ));
            lemma_struct_checked(st, st3, env, e, x.fields@, m, pack, t);
        } else {
            lemma_opened_ready(st, g, e.span);
            let (st1, m) = generics_opened(st, g, e.span);
            lemma_pinned_ready(st1, g, explicit@, 0, m, e.span);
            let st2 = generics_pinned(st1, g, explicit@, 0, m, e.span).0;
            lemma_steps_more(st, st1, st2);
            let t = struct_with(name, stood_for(g, g.len(), m));
            assert(struct_type(st, env, e) == struct_checked(
                st2,
                env,
                e,
                name,
                x.fields@,
                m,
                None,
                t,
            ));
            if t is Con {
                lemma_stood_for_len(g, g.len(), m);
                assert(g.len() == 0);
                assert(m == Map::<Seq<char>, TyV>::empty());
            }
            lemma_struct_checked(st, st2, env, e, x.fields@, m, None, t);
        }
    }
}

// ---- lambdas ----

proof fn lemma_lambda_params_ready(
    st: InferV,
    params: Seq<Param>,
    i: nat,
    env: EnvV,
    acc: Seq<TyV>,
)
    requires
        ready(st),
        i <= params.len(),
        acc.len() == i,
    ensures
        steps(st, lambda_params(st, params, i, env, acc).0),
        lambda_params(st, params, i, env, acc).2.len() == params.len(),
    decreases params.len() - i,
{
    if i < params.len() {
        let (st1, t) = match params[i as int].ty {
            Some(t) => {
                lemma_type_ready(st, t, st.active);
                type_of(st, t, st.active)
            },
            None => {
                (minted(st), next_var(st))
            },
        };
        let env1 = env.insert(params[i as int].name@, mono(t));
        lemma_lambda_params_ready(st1, params, i + 1, env1, acc.push(t));
        lemma_steps_more(st, st1, lambda_params(st1, params, i + 1, env1, acc.push(t)).0);
    } else {
        lemma_nothing_done(st);
    }
}

proof fn lemma_lambda_typed(st: InferV, env: EnvV, e: Expr)
    requires
        ready(st),
        orderly(e),
        e.kind is Lambda,
        lambda_type(st, env, e).1 is Ok,
    ensures
        fits(st, lambda_type(st, env, e), e),
    decreases e, 0nat,
{
    if let ExprKind::Lambda { params, ret, body } = e.kind {
        let id = e.id.0;
        let b = block_ids(body);
        lemma_lambda_params_ready(st, params@, 0, env, Seq::empty());
        let (st1, inner, tys) = lambda_params(st, params@, 0, env, Seq::empty());
        let sta = InferV { loops: Seq::empty(), ..st1 };
        assert(ready(sta));
        assert(steps(st1, sta));
        lemma_block_typed(sta, inner, body);
        let (st2, r2) = block_type(sta, inner, body);
        let u = r2->Ok_0;
        let st3 = InferV { loops: st1.loops, ..st2 };
        assert(ready(st3));
        assert(steps(st2, st3));
        lemma_steps_more(st, st1, sta);
        lemma_then_done(st, sta, st2, b);
        lemma_steps_done(st, st2, st3, b);
        let st5 = match ret {
            None => {
                lemma_nothing_done(st3);
                st3
            },
            Some(declared) => {
                lemma_type_ready(st3, declared, st3.active);
                let (st4, own) = type_of(st3, declared, st3.active);
                lemma_unified_step(st4, declared.span, own, u);
                let last = unified_at(st4, declared.span, own, u).0;
                lemma_steps_more(st3, st4, last);
                last
            },
        };
        let t = TyV::Fn(tys, Box::new(u));
        assert(lambda_type(st, env, e) == (st5, Ok::<TyV, TypeErrorV>(t)));
        lemma_steps_done(st, st3, st5, b);
        lemma_nothing_done(st2);
        lemma_steps_done(st2, st2, st3, Set::empty());
        lemma_steps_done(st2, st3, st5, Set::empty());
        lemma_last(st2, st5, Set::empty(), e, t);
        lemma_carry_block(st2, noted(st5, id, t), Set::<u32>::empty().insert(id), body, u);
    }
}

// ---- blocks and statements ----

pub proof fn lemma_block_typed(st: InferV, env: EnvV, b: Block)
    requires
        ready(st),
        orderly_block(b),
        block_type(st, env, b).1 is Ok,
    ensures
        done(st, block_type(st, env, b).0, block_ids(b)),
        well_typed_block(seen(block_type(st, env, b).0), b),
        block_found(block_type(st, env, b).0, b, block_type(st, env, b).1->Ok_0),
    decreases b, 1nat,
{
    let own = stmt_ids_from(b.stmts, 0);
    lemma_stmts_typed(st, env, b.stmts, 0);
    let (st1, r1) = stmts_from(st, env, b.stmts, 0);
    if let Some(tail) = b.tail {
        lemma_expr_typed(st1, r1->Ok_0, *tail);
        let st2 = expr_type(st1, r1->Ok_0, *tail).0;
        lemma_done_more(st, st1, st2, own, ids(*tail));
        lemma_carry_stmts(st1, st2, ids(*tail), b.stmts, 0);
    } else {
        lemma_done_wider(st, st1, own, block_ids(b));
    }
}

proof fn lemma_stmts_typed(st: InferV, env: EnvV, stmts: Vec<Stmt>, i: nat)
    requires
        ready(st),
        orderly_stmts_from(stmts, i),
        stmts_from(st, env, stmts, i).1 is Ok,
    ensures
        done(st, stmts_from(st, env, stmts, i).0, stmt_ids_from(stmts, i)),
        well_typed_stmts_from(seen(stmts_from(st, env, stmts, i).0), stmts, i),
    decreases stmts, stmts@.len() - i,
{
    if i < stmts@.len() {
        let x = stmts@[i as int];
        let rest = stmt_ids_from(stmts, i + 1);
        lemma_stmt_typed(st, env, x);
        let (st1, r1) = stmt_checked(st, env, x);
        lemma_stmts_typed(st1, r1->Ok_0, stmts, i + 1);
        let st2 = stmts_from(st1, r1->Ok_0, stmts, i + 1).0;
        lemma_done_more(st, st1, st2, stmt_ids(x), rest);
        lemma_carry_stmt(st1, st2, rest, x);
    } else {
        lemma_nothing_done(st);
    }
}

proof fn lemma_stmt_typed(st: InferV, env: EnvV, s: Stmt)
    requires
        ready(st),
        orderly_stmt(s),
        stmt_checked(st, env, s).1 is Ok,
    ensures
        done(st, stmt_checked(st, env, s).0, stmt_ids(s)),
        well_typed_stmt(seen(stmt_checked(st, env, s).0), s),
    decreases s, 1nat,
{
    match s.kind {
        StmtKind::Let { .. } => lemma_let_typed(st, env, s),
        StmtKind::Assign { .. } => lemma_assign_typed(st, env, s),
        StmtKind::Expr(e) => lemma_expr_typed(st, env, e),
        StmtKind::Break(value) => {
            let acc = st.loops.last();
            match value {
                Some(v) => {
                    lemma_expr_typed(st, env, v);
                    let (st1, r1) = expr_type(st, env, v);
                    lemma_unified_step(st1, v.span, acc, r1->Ok_0);
                    let st2 = unified_at(st1, v.span, acc, r1->Ok_0).0;
                    lemma_steps_done(st, st1, st2, ids(v));
                    lemma_nothing_done(st1);
                    lemma_steps_done(st1, st1, st2, Set::empty());
                    lemma_carry(st1, st2, Set::empty(), v);
                },
                None => {
                    lemma_unified_step(st, s.span, acc, unit_ty());
                },
            }
        },
    }
}

proof fn lemma_fresh_list_ready(st: InferV, n: nat)
    requires
        ready(st),
    ensures
        steps(st, fresh_list(st, n).0),
    decreases n,
{
    if n > 0 {
        lemma_fresh_list_ready(st, (n - 1) as nat);
        lemma_steps_more(st, fresh_list(st, (n - 1) as nat).0, fresh_list(st, n).0);
    } else {
        lemma_nothing_done(st);
    }
}

proof fn lemma_bound_value_typed(st: InferV, env: EnvV, name: Seq<char>, value: Expr)
    requires
        ready(st),
        orderly(value),
        bound_value_type(st, env, name, value).1 is Ok,
    ensures
        done(st, bound_value_type(st, env, name, value).0, ids(value)),
        well_typed(seen(bound_value_type(st, env, name, value).0), value),
    decreases value, 4nat,
{
    match value.kind {
        ExprKind::Lambda { params, .. } => {
            lemma_fresh_list_ready(st, params@.len());
            let (st1, vars) = fresh_list(st, params@.len());
            let own = TyV::Fn(vars, Box::new(next_var(st1)));
            lemma_steps_more(st, st1, minted(st1));
            let inner = env.insert(name, mono(own));
            lemma_expr_typed(minted(st1), inner, value);
            let (st2, r2) = expr_type(minted(st1), inner, value);
            let t = r2->Ok_0;
            lemma_unified_step(st2, value.span, own, t);
            let st3 = unified_at(st2, value.span, own, t).0;
            lemma_then_done(st, minted(st1), st2, ids(value));
            lemma_steps_done(st, st2, st3, ids(value));
            lemma_nothing_done(st2);
            lemma_steps_done(st2, st2, st3, Set::empty());
            lemma_carry(st2, st3, Set::empty(), value);
        },
        _ => lemma_expr_typed(st, env, value),
    }
}

proof fn lemma_let_typed(st: InferV, env: EnvV, s: Stmt)
    requires
        ready(st),
        orderly_stmt(s),
        s.kind is Let,
        let_checked(st, env, s).1 is Ok,
    ensures
        done(st, let_checked(st, env, s).0, stmt_ids(s)),
        well_typed_stmt(seen(let_checked(st, env, s).0), s),
    decreases s, 0nat,
{
    if let StmtKind::Let { mutable, name, ty, value } = s.kind {
        lemma_bound_value_typed(st, env, name@, value);
        let (st1, r1) = bound_value_type(st, env, name@, value);
        let t = r1->Ok_0;
        let st2 = match ty {
            Some(annotated) => {
                lemma_type_ready(st1, annotated, st1.active);
                let (sta, own) = type_of(st1, annotated, st1.active);
                lemma_unified_step(sta, annotated.span, own, t);
                let last = unified_at(sta, annotated.span, own, t).0;
                lemma_steps_more(st1, sta, last);
                last
            },
            None => {
                lemma_nothing_done(st1);
                st1
            },
        };
        lemma_nothing_done(st2);
        if !mutable && crate::infer_expr::syntactic_value(value) {
            lemma_generalized_ready(st2, env, t);
        }
        let (st3, r3) = bound_scheme(st2, env, mutable, value, t);
        let scheme = r3->Ok_0;
        lemma_steps_more(st1, st2, st3);
        let st4 = let_checked(st, env, s).0;
        assert(steps(st3, st4));
        lemma_steps_more(st1, st3, st4);
        lemma_steps_done(st, st1, st4, ids(value));
        lemma_nothing_done(st1);
        lemma_steps_done(st1, st1, st4, Set::empty());
        lemma_carry(st1, st4, Set::empty(), value);
    }
}

proof fn lemma_assign_typed(st: InferV, env: EnvV, s: Stmt)
    requires
        ready(st),
        orderly_stmt(s),
        s.kind is Assign,
        assign_checked(st, env, s).1 is Ok,
    ensures
        done(st, assign_checked(st, env, s).0, stmt_ids(s)),
        well_typed_stmt(seen(assign_checked(st, env, s).0), s),
    decreases s, 0nat,
{
    if let StmtKind::Assign { target, value } = s.kind {
        lemma_expr_typed(st, env, target);
        let (st1, r1) = expr_type(st, env, target);
        let t = r1->Ok_0;
        assert(assigned_base(st1, target).0 == st1);
        lemma_expr_typed(st1, env, value);
        let (st3, r3) = expr_type(st1, env, value);
        let u = r3->Ok_0;
        lemma_unified_step(st3, value.span, t, u);
        let st4 = unified_at(st3, value.span, t, u).0;
        lemma_steps_done(st1, st3, st4, ids(value));
        lemma_done_more(st, st1, st4, ids(target), ids(value));
        lemma_carry(st1, st4, ids(value), target);
        lemma_nothing_done(st3);
        lemma_steps_done(st3, st3, st4, Set::empty());
        lemma_carry(st3, st4, Set::empty(), value);
    }
}

} // verus!
