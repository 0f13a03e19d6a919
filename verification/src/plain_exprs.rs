//! The types that inference finds for expressions and blocks without packs and computed
//! constants are free of them.

use vstd::prelude::*;

use crate::ast::{Block, ElseBranch, Expr, ExprKind, Field, GenericArg, Param, Span, Stmt, StmtKind};
use crate::const_eval::ConstValue;
use crate::errors::TypeErrorV;
use crate::infer_calls::{generics_pinned, method_call_type, not_inferred, unit_ty};
use crate::infer_expr::{
    assign_checked, assigned_base, block_type, bool_ty, bound_scheme, bound_value_type, call_type,
    condition_checked, elements_unified, expr_type, exprs_types, field_access_type,
    fields_checked_from, for_in_type, for_type, fresh_list, if_type, index_expr_type, indexed_type,
    indices_types, kind_type, lambda_params, lambda_type, let_checked, loop_body, method_type,
    number_type, plain_loop, repeat_type, scheme_call_type, spans_of, stmt_checked, stmts_from,
    stood_for, struct_checked, struct_type, struct_with, vars_pinned, while_type,
};
use crate::infer_impls::unified_at;
use crate::infer_schemes::instantiated;
use crate::infer_state::{
    demand, demanding, minted, mono, next_var, EnvV, InferV, MappingV, SchemeV,
};
use crate::infer_types::{generic_arg_type, generics_opened, path_name, type_of};
use crate::plain_keeps::{
    lemma_algebra_call_plain, lemma_args_unified_plain, lemma_demand_one, lemma_field_place,
    lemma_field_plain, lemma_found_is_simple, lemma_generalized_plain, lemma_generic_arg_plain,
    lemma_index_plain, lemma_instantiated_plain, lemma_method_call_plain, lemma_minted,
    lemma_opened_plain, lemma_pinned_plain, lemma_shown_plain, lemma_simple_args,
    lemma_type_plain, lemma_unified_plain, plain_env, plain_mapping, plain_scheme, plain_state,
    plain_types,
};
use crate::registry::field_from;
use crate::simple::{
    simple_args, simple_block, simple_expr, simple_exprs_from, simple_fields, simple_inits_from,
    simple_option, simple_params, simple_stmt, simple_stmts_from,
};
use crate::subst::applied;
use crate::ty::TyV;
use crate::unify_laws::{lemma_plain_all, lemma_plain_at, plain};

verus! {

/// One more name in scope.
proof fn lemma_env_more(env: EnvV, name: Seq<char>, s: SchemeV)
    requires
        plain_env(env),
        plain_scheme(s),
    ensures
        plain_env(env.insert(name, s)),
{
}

proof fn lemma_mono_plain(t: TyV)
    requires
        plain(t),
    ensures
        plain_scheme(mono(t)),
{
}

// ---- expressions ----

pub proof fn lemma_expr_plain(st: InferV, env: EnvV, e: Expr)
    requires
        plain_state(st),
        plain_env(env),
        simple_expr(e),
        expr_type(st, env, e).1 is Ok,
    ensures
        plain_state(expr_type(st, env, e).0),
        plain(expr_type(st, env, e).1->Ok_0),
    decreases e, 3nat,
{
    let (st1, r) = kind_type(st, env, e);
    lemma_kind_plain(st, env, e);
    let t = r->Ok_0;
    let nt = st1.node_types.insert(e.id.0, t);
    assert forall|i: u32| #[trigger] nt.contains_key(i) implies plain(nt[i]) by {
        if i != e.id.0 {
            assert(st1.node_types.contains_key(i));
        }
    }
    assert(expr_type(st, env, e).0 == InferV { node_types: nt, ..st1 });
}

/// A number without a suffix.
proof fn lemma_number_plain(
    st: InferV,
    d: crate::infer_state::NumberDefault,
    shape: Seq<char>,
    span: Span,
)
    requires
        plain_state(st),
    ensures
        plain_state(number_type(st, d, shape, span).0),
        plain(number_type(st, d, shape, span).1),
{
    let v = next_var(st);
    lemma_minted(st);
    let st1 = minted(st);
    let st2 = InferV { defaults: st1.defaults.push((st.next_var, d)), ..st1 };
    lemma_demand_one(st2, "Num"@, v, span);
    let st3 = demanding(st2, demand("Num"@, v, span));
    lemma_demand_one(st3, shape, v, span);
}

pub proof fn lemma_kind_plain(st: InferV, env: EnvV, e: Expr)
    requires
        plain_state(st),
        plain_env(env),
        simple_expr(e),
        kind_type(st, env, e).1 is Ok,
    ensures
        plain_state(kind_type(st, env, e).0),
        plain(kind_type(st, env, e).1->Ok_0),
    decreases e, 2nat,
{
    let (st9, r9) = kind_type(st, env, e);
    let t9 = r9->Ok_0;
    match e.kind {
        ExprKind::NumberLit { text, suffix } => {
            if suffix is None {
                if crate::infer_expr::looks_float(text@) {
                    lemma_number_plain(
                        st,
                        crate::infer_state::NumberDefault::Float,
                        "Float"@,
                        e.span,
                    );
                } else {
                    lemma_number_plain(
                        st,
                        crate::infer_state::NumberDefault::Int,
                        "Int"@,
                        e.span,
                    );
                }
            }
        },
        ExprKind::ImaginaryLit { .. } => {
            lemma_number_plain(
                st,
                crate::infer_state::NumberDefault::Complex,
                "Complex"@,
                e.span,
            );
        },
        ExprKind::BoolLit(_) => {},
        ExprKind::Path(p) => {
            assert(env.contains_key(path_name(p)));
            lemma_instantiated_plain(st, env[path_name(p)]);
        },
        ExprKind::Call(path, _, args, _) => {
            if crate::infer_expr::raw_call(path.segments@) {
                lemma_exprs_plain(st, env, args, 0, Seq::empty());
                let st1 = exprs_types(st, env, args, 0, Seq::empty()).0;
                lemma_minted(st1);
            } else {
                lemma_call_plain(st, env, e);
            }
        },
        ExprKind::Block(b) => lemma_block_plain(st, env, b),
        ExprKind::If { .. } => lemma_if_plain(st, env, e),
        ExprKind::While { .. } => lemma_while_plain(st, env, e),
        ExprKind::For { .. } => lemma_for_plain(st, env, e),
        ExprKind::ForIn { .. } => lemma_for_in_plain(st, env, e),
        ExprKind::Loop { body } => {
            let acc = next_var(st);
            lemma_minted(st);
            lemma_loop_body_plain(minted(st), env, body, acc);
            lemma_shown_plain(st9, acc);
        },
        ExprKind::MethodCall(..) => lemma_method_plain(st, env, e),
        ExprKind::ArrayLit(elems) => lemma_array_plain(st, env, e, elems),
        ExprKind::ArrayRepeat { .. } => lemma_repeat_plain(st, env, e),
        ExprKind::Index(..) => lemma_index_expr_plain(st, env, e),
        ExprKind::FieldAccess(base, name) => {
            lemma_expr_plain(st, env, *base);
            let (st1, r1) = expr_type(st, env, *base);
            lemma_field_access_plain(st1, r1->Ok_0, name@, e.span);
        },
        ExprKind::StructLit(..) => lemma_struct_plain(st, env, e),
        ExprKind::Lambda { .. } => lemma_lambda_plain(st, env, e),
        ExprKind::PackRef(_) => {},
    }
}

proof fn lemma_field_access_plain(st: InferV, base: TyV, name: Seq<char>, span: Span)
    requires
        plain_state(st),
        plain(base),
        field_access_type(st, base, name, span).1 is Ok,
    ensures
        plain_state(field_access_type(st, base, name, span).0),
        plain(field_access_type(st, base, name, span).1->Ok_0),
{
    let known = applied(st.subst, base);
    lemma_shown_plain(st, base);
    if known is Var {
        let st1 = minted(st);
        let p = crate::infer_state::PendingFieldV {
            base: known,
            field: name,
            result: st.next_var,
            span,
        };
        let ps = st1.fields.push(p);
        assert forall|i: int| 0 <= i < ps.len() implies plain((#[trigger] ps[i]).base) by {
            if i < st1.fields.len() {
                assert(ps[i] == st1.fields[i]);
            }
        }
    } else if !crate::types::placeholder(known) {
        lemma_field_plain(st, known, name, span);
    }
}

// ---- lists of expressions ----

pub proof fn lemma_exprs_plain(st: InferV, env: EnvV, es: Vec<Expr>, i: nat, acc: Seq<TyV>)
    requires
        plain_state(st),
        plain_env(env),
        simple_exprs_from(es, i),
        plain_types(acc),
        exprs_types(st, env, es, i, acc).1 is Ok,
    ensures
        plain_state(exprs_types(st, env, es, i, acc).0),
        plain_types(exprs_types(st, env, es, i, acc).1->Ok_0),
    decreases es, es@.len() - i,
{
    if i < es@.len() {
        let x = es@[i as int];
        lemma_expr_plain(st, env, x);
        let (st1, r) = expr_type(st, env, x);
        let acc1 = acc.push(r->Ok_0);
        lemma_exprs_plain(st1, env, es, i + 1, acc1);
    }
}

pub proof fn lemma_indices_plain(st: InferV, env: EnvV, es: Vec<Expr>, i: nat, acc: Seq<TyV>)
    requires
        plain_state(st),
        plain_env(env),
        simple_exprs_from(es, i),
        plain_types(acc),
        indices_types(st, env, es, i, acc).1 is Ok,
    ensures
        plain_state(indices_types(st, env, es, i, acc).0),
        plain_types(indices_types(st, env, es, i, acc).1->Ok_0),
    decreases es, es@.len() - i,
{
    if i < es@.len() {
        let x = es@[i as int];
        lemma_expr_plain(st, env, x);
        let (st1, r) = expr_type(st, env, x);
        let t = r->Ok_0;
        lemma_demand_one(st1, "Int"@, t, x.span);
        let st2 = demanding(st1, demand("Int"@, t, x.span));
        let acc1 = acc.push(t);
        lemma_indices_plain(st2, env, es, i + 1, acc1);
    }
}

pub proof fn lemma_elements_plain(st: InferV, env: EnvV, es: Vec<Expr>, i: nat, elem: TyV)
    requires
        plain_state(st),
        plain_env(env),
        simple_exprs_from(es, i),
        plain(elem),
        elements_unified(st, env, es, i, elem).1 is Ok,
    ensures
        plain_state(elements_unified(st, env, es, i, elem).0),
    decreases es, es@.len() - i,
{
    if i < es@.len() {
        let x = es@[i as int];
        lemma_expr_plain(st, env, x);
        let (st1, r) = expr_type(st, env, x);
        let t = r->Ok_0;
        lemma_unified_plain(st1, x.span, elem, t);
        let st2 = unified_at(st1, x.span, elem, t).0;
        lemma_elements_plain(st2, env, es, i + 1, elem);
    }
}

proof fn lemma_array_plain(st: InferV, env: EnvV, e: Expr, elems: Vec<Expr>)
    requires
        plain_state(st),
        plain_env(env),
        simple_expr(e),
        e.kind == ExprKind::ArrayLit(elems),
        kind_type(st, env, e).1 is Ok,
    ensures
        plain_state(kind_type(st, env, e).0),
        plain(kind_type(st, env, e).1->Ok_0),
    decreases e, 0nat,
{
    let (st2, r9) = kind_type(st, env, e);
    let t = r9->Ok_0;
    let elem = next_var(st);
    let size = TyV::Const(ConstValue::Int(elems@.len() as u64));
    lemma_minted(st);
    lemma_elements_plain(minted(st), env, elems, 0, elem);
    let st1 = elements_unified(minted(st), env, elems, 0, elem).0;
    assert(plain(size));
    assert(plain(t));
}

// ---- conditionals and loops ----

proof fn lemma_condition_plain(st: InferV, env: EnvV, cond: Expr)
    requires
        plain_state(st),
        plain_env(env),
        simple_expr(cond),
        condition_checked(st, env, cond).1 is Ok,
    ensures
        plain_state(condition_checked(st, env, cond).0),
    decreases cond, 4nat,
{
    lemma_expr_plain(st, env, cond);
    let (st1, r) = expr_type(st, env, cond);
    let t = r->Ok_0;
    lemma_unified_plain(st1, cond.span, bool_ty(), t);
}

proof fn lemma_if_plain(st: InferV, env: EnvV, e: Expr)
    requires
        plain_state(st),
        plain_env(env),
        simple_expr(e),
        e.kind is If,
        if_type(st, env, e).1 is Ok,
    ensures
        plain_state(if_type(st, env, e).0),
        plain(if_type(st, env, e).1->Ok_0),
    decreases e, 0nat,
{
    if let ExprKind::If { cond, then_branch, else_branch } = e.kind {
        lemma_condition_plain(st, env, *cond);
        let st1 = condition_checked(st, env, *cond).0;
        lemma_block_plain(st1, env, then_branch);
        let (st2, r2) = block_type(st1, env, then_branch);
        let t = r2->Ok_0;
        match else_branch {
            Some(x) => {
                let (st3, r3) = match *x {
                    ElseBranch::If(e2) => {
                        lemma_expr_plain(st2, env, e2);
                        expr_type(st2, env, e2)
                    },
                    ElseBranch::Block(b2) => {
                        lemma_block_plain(st2, env, b2);
                        block_type(st2, env, b2)
                    },
                };
                let u = r3->Ok_0;
                lemma_unified_plain(st3, e.span, t, u);
                let st4 = unified_at(st3, e.span, t, u).0;
                assert(if_type(st, env, e) == (st4, Ok::<TyV, TypeErrorV>(t)));
            },
            None => {
                lemma_unified_plain(st2, e.span, unit_ty(), t);
                let st4 = unified_at(st2, e.span, unit_ty(), t).0;
                assert(if_type(st, env, e) == (
                    st4,
                    Ok::<TyV, TypeErrorV>(unit_ty()),
                ));
            },
        }
    }
}

/// The body of a loop.
proof fn lemma_loop_body_plain(st: InferV, env: EnvV, body: Block, acc: TyV)
    requires
        plain_state(st),
        plain_env(env),
        simple_block(body),
        plain(acc),
        loop_body(st, env, body, acc).1 is Ok,
    ensures
        plain_state(loop_body(st, env, body, acc).0),
        plain(loop_body(st, env, body, acc).1->Ok_0),
    decreases body, 2nat,
{
    let st0 = InferV { loops: st.loops.push(acc), ..st };
    assert(plain_state(st0)) by {
        assert forall|i: int| 0 <= i < st0.loops.len() implies plain(#[trigger] st0.loops[i]) by {
            if i < st.loops.len() {
                assert(st0.loops[i] == st.loops[i]);
            }
        }
    }
    lemma_block_plain(st0, env, body);
    let st1 = block_type(st0, env, body).0;
    let st2 = loop_body(st, env, body, acc).0;
    assert(plain_types(st2.loops)) by {
        assert forall|i: int| 0 <= i < st2.loops.len() implies plain(#[trigger] st2.loops[i]) by {
            assert(st2.loops[i] == st1.loops[i]);
        }
    }
}

/// A loop without a value, in an expression whose other parts have been inferred.
proof fn lemma_valueless_loop_plain(st: InferV, env: EnvV, body: Block)
    requires
        plain_state(st),
        plain_env(env),
        simple_block(body),
        plain_loop(st, env, body).1 is Ok,
    ensures
        plain_state(plain_loop(st, env, body).0),
        plain_loop(st, env, body).1->Ok_0 == unit_ty(),
    decreases body, 3nat,
{
    lemma_loop_body_plain(st, env, body, unit_ty());
}

proof fn lemma_while_plain(st: InferV, env: EnvV, e: Expr)
    requires
        plain_state(st),
        plain_env(env),
        simple_expr(e),
        e.kind is While,
        while_type(st, env, e).1 is Ok,
    ensures
        plain_state(while_type(st, env, e).0),
        plain(while_type(st, env, e).1->Ok_0),
    decreases e, 0nat,
{
    if let ExprKind::While { cond, body } = e.kind {
        lemma_condition_plain(st, env, *cond);
        let st1 = condition_checked(st, env, *cond).0;
        lemma_valueless_loop_plain(st1, env, body);
        let st2 = plain_loop(st1, env, body).0;
        let t = unit_ty();
        assert(while_type(st, env, e) == (st2, Ok::<TyV, TypeErrorV>(t)));
    }
}

proof fn lemma_for_plain(st: InferV, env: EnvV, e: Expr)
    requires
        plain_state(st),
        plain_env(env),
        simple_expr(e),
        e.kind is For,
        for_type(st, env, e).1 is Ok,
    ensures
        plain_state(for_type(st, env, e).0),
        plain(for_type(st, env, e).1->Ok_0),
    decreases e, 0nat,
{
    if let ExprKind::For { var, start, end, body } = e.kind {
        lemma_expr_plain(st, env, *start);
        let (st1, r1) = expr_type(st, env, *start);
        let t1 = r1->Ok_0;
        lemma_expr_plain(st1, env, *end);
        let (st2, r2) = expr_type(st1, env, *end);
        let t2 = r2->Ok_0;
        lemma_unified_plain(st2, end.span, t1, t2);
        let st3 = unified_at(st2, end.span, t1, t2).0;
        lemma_demand_one(st3, "Int"@, t1, start.span);
        let st4 = demanding(st3, demand("Int"@, t1, start.span));
        lemma_mono_plain(t1);
        lemma_env_more(env, var@, mono(t1));
        let inner = env.insert(var@, mono(t1));
        lemma_valueless_loop_plain(st4, inner, body);
        let st5 = plain_loop(st4, inner, body).0;
        let t = unit_ty();
        assert(for_type(st, env, e) == (st5, Ok::<TyV, TypeErrorV>(t)));
    }
}

proof fn lemma_for_in_plain(st: InferV, env: EnvV, e: Expr)
    requires
        plain_state(st),
        plain_env(env),
        simple_expr(e),
        e.kind is ForIn,
        for_in_type(st, env, e).1 is Ok,
    ensures
        plain_state(for_in_type(st, env, e).0),
        plain(for_in_type(st, env, e).1->Ok_0),
    decreases e, 0nat,
{
    if let ExprKind::ForIn { var, iter, body } = e.kind {
        lemma_expr_plain(st, env, *iter);
        let (st1, r1) = expr_type(st, env, *iter);
        let t1 = r1->Ok_0;
        let elem = next_var(st1);
        let size = next_var(minted(st1));
        let array = TyV::Array(Box::new(elem), Box::new(size));
        lemma_minted(st1);
        lemma_minted(minted(st1));
        let st2 = minted(minted(st1));
        assert(plain(array));
        lemma_unified_plain(st2, iter.span, array, t1);
        let st3 = unified_at(st2, iter.span, array, t1).0;
        lemma_mono_plain(elem);
        lemma_env_more(env, var@, mono(elem));
        let inner = env.insert(var@, mono(elem));
        lemma_valueless_loop_plain(st3, inner, body);
        let st4 = plain_loop(st3, inner, body).0;
        let t = unit_ty();
        assert(for_in_type(st, env, e) == (st4, Ok::<TyV, TypeErrorV>(t)));
    }
}

// ---- other compound expressions ----

proof fn lemma_repeat_plain(st: InferV, env: EnvV, e: Expr)
    requires
        plain_state(st),
        plain_env(env),
        simple_expr(e),
        e.kind is ArrayRepeat,
        repeat_type(st, env, e).1 is Ok,
    ensures
        plain_state(repeat_type(st, env, e).0),
        plain(repeat_type(st, env, e).1->Ok_0),
    decreases e, 0nat,
{
    if let ExprKind::ArrayRepeat { value, count } = e.kind {
        assert(simple_expr(*count));
        assert(!(count.kind is PackRef));
        lemma_expr_plain(st, env, *value);
        let (st1, r1) = expr_type(st, env, *value);
        lemma_expr_plain(st1, env, *count);
        let (st2, r2) = expr_type(st1, env, *count);
        let (x, y) = (r1->Ok_0, r2->Ok_0);
        let t = TyV::Array(Box::new(x), Box::new(y));
        assert(plain(t));
        assert(repeat_type(st, env, e) == (st2, Ok::<TyV, TypeErrorV>(t)));
    }
}

proof fn lemma_indexed_plain(
    st: InferV,
    known: TyV,
    tys: Seq<TyV>,
    spans: Seq<Span>,
    base_span: Span,
    span: Span,
)
    requires
        plain_state(st),
        plain(known),
        plain_types(tys),
        indexed_type(st, known, tys, spans, base_span, span).1 is Ok,
    ensures
        plain_state(indexed_type(st, known, tys, spans, base_span, span).0),
        plain(indexed_type(st, known, tys, spans, base_span, span).1->Ok_0),
{
    if known is Var {
        let st1 = minted(st);
        let p = crate::infer_state::PendingIndexV {
            base: known,
            base_span,
            index_tys: tys,
            index_spans: spans,
            result: st.next_var,
            span,
        };
        let ps = st1.indices.push(p);
        assert forall|i: int| 0 <= i < ps.len() implies plain((#[trigger] ps[i]).base)
            && plain_types(ps[i].index_tys) by {
            if i < st1.indices.len() {
                assert(ps[i] == st1.indices[i]);
            }
        }
    } else if !crate::types::placeholder(known) {
        lemma_index_plain(st, known, tys, spans, base_span, span);
    }
}

proof fn lemma_index_expr_plain(st: InferV, env: EnvV, e: Expr)
    requires
        plain_state(st),
        plain_env(env),
        simple_expr(e),
        e.kind is Index,
        index_expr_type(st, env, e).1 is Ok,
    ensures
        plain_state(index_expr_type(st, env, e).0),
        plain(index_expr_type(st, env, e).1->Ok_0),
    decreases e, 0nat,
{
    if let ExprKind::Index(base, indices) = e.kind {
        lemma_expr_plain(st, env, *base);
        let (st1, r1) = expr_type(st, env, *base);
        let known = applied(st1.subst, r1->Ok_0);
        lemma_shown_plain(st1, r1->Ok_0);
        lemma_indices_plain(st1, env, indices, 0, Seq::empty());
        let (st2, r2) = indices_types(st1, env, indices, 0, Seq::empty());
        let tys = r2->Ok_0;
        let spans = spans_of(indices@);
        lemma_indexed_plain(st2, known, tys, spans, base.span, e.span);
        let (st3, r3) = indexed_type(st2, known, tys, spans, base.span, e.span);
        assert(index_expr_type(st, env, e) == (st3, r3));
    }
}

proof fn lemma_method_plain(st: InferV, env: EnvV, e: Expr)
    requires
        plain_state(st),
        plain_env(env),
        simple_expr(e),
        e.kind is MethodCall,
        method_type(st, env, e).1 is Ok,
    ensures
        plain_state(method_type(st, env, e).0),
        plain(method_type(st, env, e).1->Ok_0),
    decreases e, 0nat,
{
    if let ExprKind::MethodCall(base, name, args) = e.kind {
        assert(crate::infer_types::asked_pack_len(st, st.active, *base, name@, args@) is None) by {
            if let ExprKind::Path(p) = base.kind {
                if p.segments@.len() == 1 && st.active.contains_key(p.segments@[0]@) {
                    lemma_shown_plain(st, st.active[p.segments@[0]@]);
                }
            }
        }
        lemma_expr_plain(st, env, *base);
        let (st1, r1) = expr_type(st, env, *base);
        let known = applied(st1.subst, r1->Ok_0);
        lemma_shown_plain(st1, r1->Ok_0);
        let (st9, r9) = method_type(st, env, e);
        let t9 = r9->Ok_0;
        if crate::types::placeholder(known) {
            assert(method_type(st, env, e) == (
                st1,
                Ok::<TyV, TypeErrorV>(not_inferred()),
            ));
        } else {
            let (st2, r2) = exprs_types(st1, env, args, 0, Seq::empty());
            assert(crate::infer_expr::method_in_progress(st1, known, name@) is None);
            assert(r2 is Ok);
            lemma_exprs_plain(st1, env, args, 0, Seq::empty());
            let tys = r2->Ok_0;
            if known is Var {
                let st3 = minted(st2);
                let p = crate::infer_state::PendingCallV {
                    base: known,
                    method: name@,
                    arg_tys: tys,
                    arg_spans: spans_of(args@),
                    base_span: base.span,
                    result: st2.next_var,
                    call_span: e.span,
                };
                let ps = st3.calls.push(p);
                assert forall|i: int| 0 <= i < ps.len() implies plain((#[trigger] ps[i]).base)
                    && plain_types(ps[i].arg_tys) by {
                    if i < st3.calls.len() {
                        assert(ps[i] == st3.calls[i]);
                    }
                }
                assert(st9 == InferV { calls: ps, ..st3 });
            } else {
                assert(method_type(st, env, e) == method_call_type(
                    st2,
                    known,
                    name@,
                    tys,
                    spans_of(args@),
                    base.span,
                    e.span,
                ));
                lemma_method_call_plain(
                    st2,
                    known,
                    name@,
                    tys,
                    spans_of(args@),
                    base.span,
                    e.span,
                );
            }
        }
    }
}

// ---- calls ----

proof fn lemma_vars_pinned_plain(
    st: InferV,
    vars: Seq<u32>,
    args: Seq<GenericArg>,
    i: nat,
    m: Map<u32, TyV>,
    span: Span,
)
    requires
        plain_state(st),
        simple_args(args),
        forall|k: int| 0 <= k < vars.len() ==> m.contains_key(#[trigger] vars[k]),
        forall|v: u32| #[trigger] m.contains_key(v) ==> plain(m[v]),
        vars_pinned(st, vars, args, i, m, span).1 is Ok,
    ensures
        plain_state(vars_pinned(st, vars, args, i, m, span).0),
    decreases vars.len() - i,
{
    if !(i >= vars.len() || i >= args.len()) {
        lemma_generic_arg_plain(st, args, i);
        let (st1, t) = generic_arg_type(st, args[i as int]);
        let own = m[vars[i as int]];
        assert(m.contains_key(vars[i as int]));
        lemma_unified_plain(st1, span, own, t);
        let st2 = unified_at(st1, span, own, t).0;
        lemma_vars_pinned_plain(st2, vars, args, i + 1, m, span);
    }
}

proof fn lemma_scheme_call_plain(
    st: InferV,
    scheme: SchemeV,
    name: Seq<char>,
    tys: Seq<TyV>,
    spans: Seq<Span>,
    explicit: Seq<GenericArg>,
    span: Span,
)
    requires
        plain_state(st),
        plain_scheme(scheme),
        plain_types(tys),
        simple_args(explicit),
        scheme_call_type(st, scheme, name, tys, spans, explicit, span).1 is Ok,
    ensures
        plain_state(scheme_call_type(st, scheme, name, tys, spans, explicit, span).0),
        plain(scheme_call_type(st, scheme, name, tys, spans, explicit, span).1->Ok_0),
{
    lemma_instantiated_plain(st, scheme);
    let (st1, t, m) = instantiated(st, scheme);
    lemma_vars_pinned_plain(st1, scheme.vars, explicit, 0, m, span);
    let st2 = vars_pinned(st1, scheme.vars, explicit, 0, m, span).0;
    if let TyV::Fn(params, ret) = t {
        assert forall|i: int| 0 <= i < params.len() implies plain(#[trigger] params[i]) by {
            lemma_plain_at(params, params.len(), i);
        }
        lemma_args_unified_plain(st2, params, 0, tys, spans, 0);
    }
}

proof fn lemma_call_plain(st: InferV, env: EnvV, e: Expr)
    requires
        plain_state(st),
        plain_env(env),
        simple_expr(e),
        e.kind is Call,
        call_type(st, env, e).1 is Ok,
    ensures
        plain_state(call_type(st, env, e).0),
        plain(call_type(st, env, e).1->Ok_0),
    decreases e, 0nat,
{
    if let ExprKind::Call(path, explicit, args, _) = e.kind {
        let segments = crate::table::views(path.segments@);
        let name = path_name(path);
        let spans = spans_of(args@);
        lemma_simple_args(explicit, 0);
        lemma_exprs_plain(st, env, args, 0, Seq::empty());
        let (st1, r1) = exprs_types(st, env, args, 0, Seq::empty());
        let tys = r1->Ok_0;
        let (st9, r9) = call_type(st, env, e);
        if segments.len() == 2 && st.registry.declares_algebra(segments[0]) {
            lemma_algebra_call_plain(
                st1,
                e.span,
                segments[0],
                segments[1],
                tys,
                spans,
                explicit@,
            );
        } else {
            let candidates = crate::registry::declaring_from(st1.registry, 0, name, tys.len());
            if candidates.len() == 1 {
                lemma_algebra_call_plain(
                    st1,
                    e.span,
                    candidates[0],
                    name,
                    tys,
                    spans,
                    explicit@,
                );
            } else if env.contains_key(name) {
                lemma_scheme_call_plain(st1, env[name], name, tys, spans, explicit@, e.span);
            }
        }
    }
}

// ---- struct literals ----

proof fn lemma_fields_plain(
    st: InferV,
    env: EnvV,
    fields: Vec<(String, Expr)>,
    i: nat,
    struct_name: Seq<char>,
    declared: Seq<Field>,
    m: MappingV,
    given: Seq<Seq<char>>,
)
    requires
        plain_state(st),
        plain_env(env),
        simple_inits_from(fields, i),
        simple_fields(declared),
        plain_mapping(m),
        fields_checked_from(st, env, fields, i, struct_name, declared, m, None, given).1 is Ok,
    ensures
        plain_state(
            fields_checked_from(st, env, fields, i, struct_name, declared, m, None, given).0,
        ),
    decreases fields, fields@.len() - i,
{
    if i < fields@.len() {
        let name = fields@[i as int].0@;
        let value = fields@[i as int].1;
        lemma_field_place(declared, 0, name);
        let k = field_from(declared, 0, name)->0;
        lemma_expr_plain(st, env, value);
        let (st1, r1) = expr_type(st, env, value);
        let t = r1->Ok_0;
        assert(simple_fields(declared));
        lemma_type_plain(st1, declared[k].ty, m);
        let (st2, own) = type_of(st1, declared[k].ty, m);
        lemma_unified_plain(st2, value.span, own, t);
        let st3 = unified_at(st2, value.span, own, t).0;
        let given1 = given.push(name);
        lemma_fields_plain(st3, env, fields, i + 1, struct_name, declared, m, given1);
    }
}

proof fn lemma_stood_for_plain(
    generics: Seq<crate::ast::GenericParam>,
    n: nat,
    m: MappingV,
)
    requires
        plain_mapping(m),
        forall|k: int|
            0 <= k < generics.len() ==> m.contains_key((#[trigger] generics[k]).spec_name()),
    ensures
        plain_types(stood_for(generics, n, m)),
    decreases n,
{
    if !(n == 0 || n > generics.len()) {
        lemma_stood_for_plain(generics, (n - 1) as nat, m);
        assert(m.contains_key(generics[n - 1].spec_name()));
    }
}

proof fn lemma_struct_plain(st: InferV, env: EnvV, e: Expr)
    requires
        plain_state(st),
        plain_env(env),
        simple_expr(e),
        e.kind is StructLit,
        struct_type(st, env, e).1 is Ok,
    ensures
        plain_state(struct_type(st, env, e).0),
        plain(struct_type(st, env, e).1->Ok_0),
    decreases e, 1nat,
{
    if let ExprKind::StructLit(path, explicit, fields) = e.kind {
        let name = path_name(path);
        lemma_found_is_simple(st.registry, name, name);
        let x = st.registry.struct_of(name)->0;
        let g = x.generics@;
        if g.len() > 0 {
            assert(!g[g.len() - 1].spec_variadic());
        }
        lemma_simple_args(explicit, 0);
        lemma_opened_plain(st, g, e.span);
        let (st1, m) = generics_opened(st, g, e.span);
        lemma_pinned_plain(st1, g, explicit@, 0, m, e.span);
        let st2 = generics_pinned(st1, g, explicit@, 0, m, e.span).0;
        let args = stood_for(g, g.len(), m);
        let t = struct_with(name, args);
        lemma_stood_for_plain(g, g.len(), m);
        lemma_plain_all(args, args.len());
        let given = Seq::<Seq<char>>::empty();
        assert(struct_type(st, env, e) == struct_checked(
            st2,
            env,
            e,
            name,
            x.fields@,
            m,
            None,
            t,
        ));
        lemma_fields_plain(st2, env, fields, 0, name, x.fields@, m, given);
        let st3 = fields_checked_from(st2, env, fields, 0, name, x.fields@, m, None, given).0;
        assert(struct_type(st, env, e) == (st3, Ok::<TyV, TypeErrorV>(t)));
    }
}

// ---- lambdas ----

proof fn lemma_lambda_params_plain(
    st: InferV,
    params: Seq<Param>,
    i: nat,
    env: EnvV,
    acc: Seq<TyV>,
)
    requires
        plain_state(st),
        plain_env(env),
        simple_params(params),
        plain_types(acc),
        i <= params.len(),
        acc.len() == i,
    ensures
        plain_state(lambda_params(st, params, i, env, acc).0),
        plain_env(lambda_params(st, params, i, env, acc).1),
        plain_types(lambda_params(st, params, i, env, acc).2),
        lambda_params(st, params, i, env, acc).2.len() == params.len(),
    decreases params.len() - i,
{
    if i < params.len() {
        assert(simple_option(params[i as int].ty));
        let (st1, t) = match params[i as int].ty {
            Some(t) => {
                lemma_type_plain(st, t, st.active);
                type_of(st, t, st.active)
            },
            None => {
                lemma_minted(st);
                (minted(st), next_var(st))
            },
        };
        lemma_mono_plain(t);
        lemma_env_more(env, params[i as int].name@, mono(t));
        let env1 = env.insert(params[i as int].name@, mono(t));
        lemma_lambda_params_plain(st1, params, i + 1, env1, acc.push(t));
    }
}

proof fn lemma_lambda_plain(st: InferV, env: EnvV, e: Expr)
    requires
        plain_state(st),
        plain_env(env),
        simple_expr(e),
        e.kind is Lambda,
        lambda_type(st, env, e).1 is Ok,
    ensures
        plain_state(lambda_type(st, env, e).0),
        plain(lambda_type(st, env, e).1->Ok_0),
    decreases e, 0nat,
{
    if let ExprKind::Lambda { params, ret, body } = e.kind {
        lemma_lambda_params_plain(st, params@, 0, env, Seq::empty());
        let (st1, inner, tys) = lambda_params(st, params@, 0, env, Seq::empty());
        let sta = InferV { loops: Seq::empty(), ..st1 };
        assert(plain_state(sta));
        lemma_block_plain(sta, inner, body);
        let (st2, r2) = block_type(sta, inner, body);
        let u = r2->Ok_0;
        let st3 = InferV { loops: st1.loops, ..st2 };
        assert(plain_state(st3));
        let st5 = match ret {
            None => st3,
            Some(declared) => {
                lemma_type_plain(st3, declared, st3.active);
                let (st4, own) = type_of(st3, declared, st3.active);
                lemma_unified_plain(st4, declared.span, own, u);
                unified_at(st4, declared.span, own, u).0
            },
        };
        let t = TyV::Fn(tys, Box::new(u));
        lemma_plain_all(tys, tys.len());
        assert(plain(t));
        assert(lambda_type(st, env, e) == (st5, Ok::<TyV, TypeErrorV>(t)));
    }
}

// ---- blocks and statements ----

pub proof fn lemma_block_plain(st: InferV, env: EnvV, b: Block)
    requires
        plain_state(st),
        plain_env(env),
        simple_block(b),
        block_type(st, env, b).1 is Ok,
    ensures
        plain_state(block_type(st, env, b).0),
        plain(block_type(st, env, b).1->Ok_0),
    decreases b, 1nat,
{
    lemma_stmts_plain(st, env, b.stmts, 0);
    let (st1, r1) = stmts_from(st, env, b.stmts, 0);
    if let Some(tail) = b.tail {
        lemma_expr_plain(st1, r1->Ok_0, *tail);
    }
}

proof fn lemma_stmts_plain(st: InferV, env: EnvV, stmts: Vec<Stmt>, i: nat)
    requires
        plain_state(st),
        plain_env(env),
        simple_stmts_from(stmts, i),
        stmts_from(st, env, stmts, i).1 is Ok,
    ensures
        plain_state(stmts_from(st, env, stmts, i).0),
        plain_env(stmts_from(st, env, stmts, i).1->Ok_0),
    decreases stmts, stmts@.len() - i,
{
    if i < stmts@.len() {
        let x = stmts@[i as int];
        lemma_stmt_plain(st, env, x);
        let (st1, r1) = stmt_checked(st, env, x);
        lemma_stmts_plain(st1, r1->Ok_0, stmts, i + 1);
    }
}

proof fn lemma_stmt_plain(st: InferV, env: EnvV, s: Stmt)
    requires
        plain_state(st),
        plain_env(env),
        simple_stmt(s),
        stmt_checked(st, env, s).1 is Ok,
    ensures
        plain_state(stmt_checked(st, env, s).0),
        plain_env(stmt_checked(st, env, s).1->Ok_0),
    decreases s, 1nat,
{
    match s.kind {
        StmtKind::Let { .. } => lemma_let_plain(st, env, s),
        StmtKind::Assign { .. } => lemma_assign_plain(st, env, s),
        StmtKind::Expr(e) => lemma_expr_plain(st, env, e),
        StmtKind::Break(value) => {
            let acc = st.loops.last();
            assert(plain(st.loops[st.loops.len() - 1]));
            match value {
                Some(v) => {
                    lemma_expr_plain(st, env, v);
                    let (st1, r1) = expr_type(st, env, v);
                    lemma_unified_plain(st1, v.span, acc, r1->Ok_0);
                },
                None => {
                    lemma_unified_plain(st, s.span, acc, unit_ty());
                },
            }
        },
    }
}

proof fn lemma_fresh_list_plain(st: InferV, n: nat)
    requires
        plain_state(st),
    ensures
        plain_state(fresh_list(st, n).0),
        plain_types(fresh_list(st, n).1),
    decreases n,
{
    if n > 0 {
        lemma_fresh_list_plain(st, (n - 1) as nat);
        lemma_minted(fresh_list(st, (n - 1) as nat).0);
    }
}

proof fn lemma_bound_value_plain(st: InferV, env: EnvV, name: Seq<char>, value: Expr)
    requires
        plain_state(st),
        plain_env(env),
        simple_expr(value),
        bound_value_type(st, env, name, value).1 is Ok,
    ensures
        plain_state(bound_value_type(st, env, name, value).0),
        plain(bound_value_type(st, env, name, value).1->Ok_0),
    decreases value, 4nat,
{
    match value.kind {
        ExprKind::Lambda { params, .. } => {
            lemma_fresh_list_plain(st, params@.len());
            let (st1, vars) = fresh_list(st, params@.len());
            let own = TyV::Fn(vars, Box::new(next_var(st1)));
            lemma_minted(st1);
            lemma_plain_all(vars, vars.len());
            assert(plain(next_var(st1)));
            assert(plain(own));
            lemma_mono_plain(own);
            lemma_env_more(env, name, mono(own));
            let inner = env.insert(name, mono(own));
            lemma_expr_plain(minted(st1), inner, value);
            let (st2, r2) = expr_type(minted(st1), inner, value);
            let t = r2->Ok_0;
            lemma_unified_plain(st2, value.span, own, t);
        },
        _ => lemma_expr_plain(st, env, value),
    }
}

proof fn lemma_let_plain(st: InferV, env: EnvV, s: Stmt)
    requires
        plain_state(st),
        plain_env(env),
        simple_stmt(s),
        s.kind is Let,
        let_checked(st, env, s).1 is Ok,
    ensures
        plain_state(let_checked(st, env, s).0),
        plain_env(let_checked(st, env, s).1->Ok_0),
    decreases s, 0nat,
{
    if let StmtKind::Let { mutable, name, ty, value } = s.kind {
        lemma_bound_value_plain(st, env, name@, value);
        let (st1, r1) = bound_value_type(st, env, name@, value);
        let t = r1->Ok_0;
        let st2 = match ty {
            Some(annotated) => {
                lemma_type_plain(st1, annotated, st1.active);
                let (sta, own) = type_of(st1, annotated, st1.active);
                lemma_unified_plain(sta, annotated.span, own, t);
                unified_at(sta, annotated.span, own, t).0
            },
            None => st1,
        };
        lemma_mono_plain(t);
        if !mutable && crate::infer_expr::syntactic_value(value) {
            lemma_generalized_plain(st2, env, t);
        }
        let (st3, r3) = bound_scheme(st2, env, mutable, value, t);
        let scheme = r3->Ok_0;
        lemma_env_more(env, name@, scheme);
    }
}

proof fn lemma_assign_plain(st: InferV, env: EnvV, s: Stmt)
    requires
        plain_state(st),
        plain_env(env),
        simple_stmt(s),
        s.kind is Assign,
        assign_checked(st, env, s).1 is Ok,
    ensures
        plain_state(assign_checked(st, env, s).0),
        plain_env(assign_checked(st, env, s).1->Ok_0),
    decreases s, 0nat,
{
    if let StmtKind::Assign { target, value } = s.kind {
        lemma_expr_plain(st, env, target);
        let (st1, r1) = expr_type(st, env, target);
        let t = r1->Ok_0;
        assert(assigned_base(st1, target).0 == st1);
        lemma_expr_plain(st1, env, value);
        let (st3, r3) = expr_type(st1, env, value);
        let u = r3->Ok_0;
        lemma_unified_plain(st3, value.span, t, u);
    }
}

} // verus!
