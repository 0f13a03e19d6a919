//! A function that inference accepts is well typed.

use vstd::prelude::*;

use crate::ast::{Block, Expr, FnDecl, GenericParam, Param, Span, Stmt, Type, TypeKind};
use crate::const_eval::ConstValue;
use crate::errors::TypeErrorV;
use crate::apply_laws::{flat, lemma_applied_again};
use crate::field_reads::{
    field_named, filled, leads, leads_at, lemma_field_told, lemma_told_later, reads, taken, told_as,
    told_at, told_field, told_root, waits,
};
use crate::finish_laws::lemma_default_given;
use crate::infer_calls::{declared_result, not_inferred, param_types_from, unit_ty};
use crate::infer_expr::{block_type, expr_type, stmt_checked};
use crate::infer_fns::{
    algebra_generics_from, all_checked, all_params_bound, body_span, fn_body, fn_shape, fn_type,
    impl_body, impl_fn_type, impl_params_from, own_name, tail_span, targets_from,
};
use crate::infer_impls::unified_at;
use crate::infer_keeps::{
    goes, joined, joined_at, lemma_dispatched_ready, lemma_field_ready, lemma_impl_found_ready,
    lemma_index_ready, lemma_joined_later, lemma_method_call_ready, lemma_on_more,
    lemma_opened_ready,
    lemma_param_types_ready, lemma_steps_more, lemma_type_ready, lemma_unified_step, ready, steps,
};
use crate::infer_pending::{
    call_taken_up, calls_checked, calls_from, checkable_types, constraint_checked,
    constraints_checked, constraints_from, default_given, defaults_applied, defaults_from,
    demands_checked, divs_checked, field_taken_up, fields_checked, fields_from, index_taken_up,
    indices_checked, indices_from, indices_given_up, type_names_checked,
};
use crate::infer_schemes::{consts_seeded, generics_quantified};
use crate::infer_state::{
    initial, minted, mono, next_var, ConstraintV, EnvV, InferV, MappingV, NumberDefault,
    PendingCallV, PendingFieldV, PendingIndexV,
};
use crate::infer_typed::{
    block_found, done, lemma_block_typed, lemma_carry_block, lemma_expr_typed,
    lemma_for_in_joined, seen,
};
use crate::infer_types::{
    fresh_for, generics_opened, misnamed, path_name, type_args_from, type_of,
};
use crate::registry::Registry;
use crate::subst::{applied, applied_all, applied_all_from, grows, triangular, SubstV};
use crate::ty::TyV;
use crate::types::{array_with, placeholder};
use crate::typing::{
    block_ids, block_ty, orderly, orderly_block, orderly_stmt, resolved, well_typed_block, Seen,
};
use crate::typing_laws::{carried_on, carries, lemma_typed_later_block, Carried};
use crate::unify_laws::{alike, fair, fair_all, lemma_alike_self, lemma_unify_sound, slots_from};

verus! {

// ---- defaults ----

proof fn lemma_default_ready(st: InferV, v: u32, d: NumberDefault)
    requires
        ready(st),
    ensures
        steps(st, default_given(st, v, d)),
{
    lemma_default_given(st, v, d);
}

proof fn lemma_defaults_ready(
    st: InferV,
    defaults: Seq<(u32, NumberDefault)>,
    i: nat,
    complex: bool,
)
    requires
        ready(st),
    ensures
        steps(st, defaults_from(st, defaults, i, complex)),
    decreases defaults.len() - i,
{
    if i < defaults.len() {
        let (v, d) = defaults[i as int];
        let st1 = if (d == NumberDefault::Complex) == complex {
            default_given(st, v, d)
        } else {
            st
        };
        lemma_default_ready(st, v, d);
        lemma_defaults_ready(st1, defaults, i + 1, complex);
        lemma_steps_more(st, st1, defaults_from(st1, defaults, i + 1, complex));
    }
}

proof fn lemma_all_defaults_ready(st: InferV)
    requires
        ready(st),
    ensures
        steps(st, defaults_applied(st)),
{
    let st0 = InferV { defaults: Seq::empty(), ..st };
    lemma_defaults_ready(st0, st.defaults, 0, true);
    let st1 = defaults_from(st0, st.defaults, 0, true);
    lemma_defaults_ready(st1, st.defaults, 0, false);
    lemma_steps_more(st0, st1, defaults_applied(st));
}

// ---- what was put off ----

proof fn lemma_constraint_ready(st: InferV, c: ConstraintV)
    requires
        ready(st),
        constraint_checked(st, c).1 is Ok,
    ensures
        steps(st, constraint_checked(st, c).0),
{
    let known = applied_all(st.subst, c.tys);
    lemma_dispatched_ready(st, c.algebra, known, c.span);
    lemma_impl_found_ready(st, c.algebra, checkable_types(st, known, c.tys, known.len()));
}

proof fn lemma_constraints_ready(st: InferV, cs: Seq<ConstraintV>, i: nat)
    requires
        ready(st),
        constraints_from(st, cs, i).1 is Ok,
    ensures
        steps(st, constraints_from(st, cs, i).0),
    decreases cs.len() - i,
{
    if i < cs.len() {
        lemma_constraint_ready(st, cs[i as int]);
        let st1 = constraint_checked(st, cs[i as int]).0;
        lemma_constraints_ready(st1, cs, i + 1);
        lemma_steps_more(st, st1, constraints_from(st1, cs, i + 1).0);
    }
}

proof fn lemma_field_taken_ready(st: InferV, p: PendingFieldV)
    requires
        ready(st),
        field_taken_up(st, p).1 is Ok,
    ensures
        steps(st, field_taken_up(st, p).0),
        taken(field_taken_up(st, p).0, p),
{
    let base = applied(st.subst, p.base);
    lemma_field_ready(st, base, p.field, p.span);
    let (st1, r) = if base is Var || crate::types::placeholder(base) {
        (st, Ok(not_inferred()))
    } else {
        crate::infer_calls::field_type(st, base, p.field, p.span)
    };
    lemma_unified_step(st1, p.span, TyV::Var(p.result), r->Ok_0);
    let st2 = unified_at(st1, p.span, TyV::Var(p.result), r->Ok_0).0;
    lemma_steps_more(st, st1, st2);
    if !(base is Var || crate::types::placeholder(base)) {
        lemma_field_told(st, base, p.field, p.span);
    }
    assert(told_as(st2.registry, base, p.field, r->Ok_0));
    assert(told_field(st2.registry, base, p.field, st2.subst, TyV::Var(p.result)));
    assert(told_at(
        st.subst,
        st2.registry,
        st2.subst,
        p.base,
        p.field,
        TyV::Var(p.result),
    ));
}

proof fn lemma_fields_ready(st: InferV, ps: Seq<PendingFieldV>, i: nat)
    requires
        ready(st),
        fields_from(st, ps, i).1 is Ok,
    ensures
        steps(st, fields_from(st, ps, i).0),
        forall|j: int| i <= j < ps.len() ==> taken(fields_from(st, ps, i).0, #[trigger] ps[j]),
    decreases ps.len() - i,
{
    if i < ps.len() {
        lemma_field_taken_ready(st, ps[i as int]);
        let st1 = field_taken_up(st, ps[i as int]).0;
        lemma_fields_ready(st1, ps, i + 1);
        let st2 = fields_from(st1, ps, i + 1).0;
        lemma_steps_more(st, st1, st2);
        let p = ps[i as int];
        lemma_told_later(
            st1.registry,
            st1.subst,
            st2.subst,
            p.base,
            p.field,
            TyV::Var(p.result),
        );
    }
}

proof fn lemma_call_taken_ready(st: InferV, p: PendingCallV)
    requires
        ready(st),
        call_taken_up(st, p).1 is Ok,
    ensures
        steps(st, call_taken_up(st, p).0),
{
    let base = applied(st.subst, p.base);
    if base is Var || crate::types::placeholder(base) {
        lemma_unified_step(st, p.call_span, TyV::Var(p.result), not_inferred());
    } else {
        let (st1, r) = crate::infer_calls::method_call_type(
            st,
            base,
            p.method,
            p.arg_tys,
            p.arg_spans,
            p.base_span,
            p.call_span,
        );
        lemma_method_call_ready(
            st,
            base,
            p.method,
            p.arg_tys,
            p.arg_spans,
            p.base_span,
            p.call_span,
        );
        lemma_unified_step(st1, p.call_span, TyV::Var(p.result), r->Ok_0);
        lemma_steps_more(st, st1, unified_at(st1, p.call_span, TyV::Var(p.result), r->Ok_0).0);
    }
}

proof fn lemma_calls_ready(st: InferV, ps: Seq<PendingCallV>, i: nat)
    requires
        ready(st),
        calls_from(st, ps, i).1 is Ok,
    ensures
        steps(st, calls_from(st, ps, i).0),
    decreases ps.len() - i,
{
    if i < ps.len() {
        lemma_call_taken_ready(st, ps[i as int]);
        let st1 = call_taken_up(st, ps[i as int]).0;
        lemma_calls_ready(st1, ps, i + 1);
        lemma_steps_more(st, st1, calls_from(st1, ps, i + 1).0);
    }
}

proof fn lemma_index_taken_ready(st: InferV, p: PendingIndexV)
    requires
        ready(st),
        index_taken_up(st, p).1 is Ok,
    ensures
        steps(st, index_taken_up(st, p).0),
{
    let base = applied(st.subst, p.base);
    if base is Var {
    } else if crate::types::placeholder(base) {
        lemma_unified_step(st, p.span, TyV::Var(p.result), not_inferred());
    } else {
        let (st1, r) = crate::infer_calls::index_type(
            st,
            base,
            p.index_tys,
            p.index_spans,
            p.base_span,
            p.span,
        );
        lemma_index_ready(st, base, p.index_tys, p.index_spans, p.base_span, p.span);
        lemma_unified_step(st1, p.span, TyV::Var(p.result), r->Ok_0);
        lemma_steps_more(st, st1, unified_at(st1, p.span, TyV::Var(p.result), r->Ok_0).0);
    }
}

proof fn lemma_indices_ready(st: InferV, ps: Seq<PendingIndexV>, i: nat)
    requires
        ready(st),
        indices_from(st, ps, i).1 is Ok,
    ensures
        steps(st, indices_from(st, ps, i).0),
    decreases ps.len() - i,
{
    if i < ps.len() {
        lemma_index_taken_ready(st, ps[i as int]);
        let st1 = index_taken_up(st, ps[i as int]).0;
        lemma_indices_ready(st1, ps, i + 1);
        lemma_steps_more(st, st1, indices_from(st1, ps, i + 1).0);
    }
}

proof fn lemma_given_up_ready(st: InferV, ps: Seq<PendingIndexV>, i: nat)
    requires
        ready(st),
        indices_given_up(st, ps, i).1 is Ok,
    ensures
        steps(st, indices_given_up(st, ps, i).0),
    decreases ps.len() - i,
{
    if i < ps.len() {
        let p = ps[i as int];
        lemma_unified_step(st, p.span, TyV::Var(p.result), not_inferred());
        let st1 = unified_at(st, p.span, TyV::Var(p.result), not_inferred()).0;
        lemma_given_up_ready(st1, ps, i + 1);
        lemma_steps_more(st, st1, indices_given_up(st1, ps, i + 1).0);
    }
}

proof fn lemma_demands_ready(st: InferV)
    requires
        ready(st),
        demands_checked(st).1 is Ok,
    ensures
        steps(st, demands_checked(st).0),
    decreases st.constraints.len() + st.indices.len(),
{
    let sta = InferV { constraints: Seq::empty(), ..st };
    assert(ready(sta));
    assert(steps(st, sta));
    lemma_constraints_ready(sta, st.constraints, 0);
    let st1 = constraints_checked(st).0;
    lemma_steps_more(st, sta, st1);
    let stb = InferV { indices: Seq::empty(), ..st1 };
    assert(ready(stb));
    assert(steps(st1, stb));
    lemma_indices_ready(stb, st1.indices, 0);
    let st2 = indices_checked(st1).0;
    lemma_steps_more(st1, stb, st2);
    lemma_steps_more(st, st1, st2);
    let left = st2.constraints.len() + st2.indices.len();
    if left == 0 {
    } else if left >= st.constraints.len() + st.indices.len() {
        let stc = InferV { indices: Seq::empty(), ..st2 };
        assert(ready(stc));
        assert(steps(st2, stc));
        lemma_given_up_ready(stc, st2.indices, 0);
        lemma_steps_more(st2, stc, demands_checked(st).0);
        lemma_steps_more(st, st2, demands_checked(st).0);
    } else {
        lemma_demands_ready(st2);
        lemma_steps_more(st, st2, demands_checked(st2).0);
    }
}

proof fn lemma_all_checked_ready(st: InferV)
    requires
        ready(st),
        all_checked(st).1 is Ok,
    ensures
        goes(st, all_checked(st).0),
        all_checked(st).0.fields.len() == 0,
{
    lemma_all_defaults_ready(st);
    let st0 = defaults_applied(st);
    lemma_demands_ready(st0);
    let st1 = demands_checked(st0).0;
    lemma_steps_more(st, st0, st1);
    let st2 = type_names_checked(st1).0;
    assert(ready(st2));
    assert(steps(st1, st2));
    lemma_steps_more(st, st1, st2);
    let st3 = divs_checked(st2).0;
    assert(ready(st3));
    assert(steps(st2, st3));
    lemma_steps_more(st, st2, st3);
    let sta = InferV { fields: Seq::empty(), ..st3 };
    assert(ready(sta));
    lemma_fields_ready(sta, st3.fields, 0);
    let st4 = fields_checked(st3).0;
    assert(goes(st3, st4)) by {
        assert forall|p: PendingFieldV| #[trigger] st3.fields.contains(p) implies taken(st4, p) by {
            let j = choose|j: int| 0 <= j < st3.fields.len() && st3.fields[j] == p;
            assert(taken(st4, st3.fields[j]));
        }
    }
    lemma_on_more(st, st3, st4);
    let stb = InferV { calls: Seq::empty(), ..st4 };
    assert(ready(stb));
    assert(steps(st4, stb));
    lemma_calls_ready(stb, st4.calls, 0);
    let st5 = calls_checked(st4).0;
    lemma_steps_more(st4, stb, st5);
    lemma_on_more(st, st4, st5);
}

// ---- functions ----

/// Whether a function has a body, whose nodes have numbers of their own.
pub open spec fn numbered_fn(f: FnDecl) -> bool {
    f.body matches Some(b) && orderly_block(b)
}

/// The name that a declared type is, if it is nothing but a name.
pub open spec fn named(t: Option<Type>) -> Option<Seq<char>> {
    match t {
        Some(t) => match t.kind {
            TypeKind::Path(p, args) => if args@.len() == 0 {
                Some(path_name(p))
            } else {
                None
            },
            _ => None,
        },
        None => None,
    }
}

/// A name that is no generic stands for the type of that name.
proof fn lemma_named(st: InferV, t: Type, m: MappingV)
    requires
        named(Some(t)) is Some,
        !m.contains_key(named(Some(t))->0),
    ensures
        type_of(st, t, m).1 == TyV::Con(named(Some(t))->0),
{
    if let TypeKind::Path(p, args) = t.kind {
        let name = path_name(p);
        let st1 = if misnamed(st, name) {
            InferV { type_names: st.type_names.push((name, t.span)), ..st }
        } else {
            st
        };
        assert(type_args_from(st1, args, 0, m, Seq::empty()).1 == Seq::<TyV>::empty());
    }
}

proof fn lemma_fn_body_typed(
    st: InferV,
    f: FnDecl,
    outer: EnvV,
    params: Seq<TyV>,
    ret: TyV,
    m: MappingV,
)
    requires
        ready(st),
        numbered_fn(f),
        fn_body(st, f, f.body->0, outer, params, ret, m).1 is Ok,
    ensures
        ({
            let (st1, r) = fn_body(st, f, f.body->0, outer, params, ret, m);
            &&& ready(st1)
            &&& well_typed_block(seen(st1), f.body->0)
            &&& block_found(st1, f.body->0, r->Ok_0)
            &&& named(f.ret) is Some && !m.contains_key(named(f.ret)->0) ==> joined(
                st1.subst,
                TyV::Con(named(f.ret)->0),
                r->Ok_0,
            )
        }),
{
    let body = f.body->0;
    let st0 = InferV { active: m, ..st };
    assert(ready(st0));
    let env = consts_seeded(
        all_params_bound(outer, f.params@, params),
        f.generics@,
        f.generics@.len(),
        m,
    );
    lemma_block_typed(st0, env, body);
    let (st1, r1) = block_type(st0, env, body);
    let t = r1->Ok_0;
    let st2 = match f.ret {
        Some(declared) => {
            lemma_type_ready(st1, declared, m);
            let (sta, own) = type_of(st1, declared, m);
            lemma_unified_step(sta, declared.span, own, t);
            let last = unified_at(sta, declared.span, own, t).0;
            lemma_steps_more(st1, sta, last);
            last
        },
        None => st1,
    };
    assert(steps(st1, st2));
    let st3 = match body_span(body) {
        Some(span) => {
            lemma_unified_step(st2, span, ret, t);
            unified_at(st2, span, ret, t).0
        },
        None => st2,
    };
    assert(steps(st2, st3));
    lemma_steps_more(st1, st2, st3);
    assert(done(st1, st3, Set::empty()));
    lemma_carry_block(st1, st3, Set::empty(), body, t);
    if let Some(declared) = f.ret {
        if let Some(name) = named(f.ret) {
            if !m.contains_key(name) {
                lemma_named(st1, declared, m);
                lemma_joined_later(st2.subst, st3.subst, TyV::Con(name), t);
            }
        }
    }
}

/// Checking what was put off keeps what was found.
proof fn lemma_checked_typed(st: InferV, b: Block, t: TyV)
    requires
        ready(st),
        well_typed_block(seen(st), b),
        block_found(st, b, t),
        all_checked(st).1 is Ok,
    ensures
        ready(all_checked(st).0),
        grows(all_checked(st).0.subst, st.subst),
        well_typed_block(seen(all_checked(st).0), b),
        block_found(all_checked(st).0, b, t),
        all_checked(st).0.fields.len() == 0,
{
    lemma_all_checked_ready(st);
    let st1 = all_checked(st).0;
    assert(done(st, st1, Set::empty()));
    lemma_carry_block(st, st1, Set::empty(), b, t);
}

// ---- types that are alike ----

/// Types agree that are the same, but for constants beside type names.
pub open spec fn likeness(s: SubstV) -> spec_fn(TyV, TyV) -> bool {
    |a: TyV, b: TyV| alike(s.widths, a, b)
}

/// The types of nodes as they are handed out. The size of an array may be a pack of sizes.
pub open spec fn told(st: InferV) -> Seen {
    Seen {
        types: st.node_types,
        agree: likeness(st.subst),
        array: |elem: TyV, size: TyV| array_with(elem, size),
        reads: |b: TyV, name: Seq<char>, t: TyV| field_read(st, b, name, t),
        fills: |s: Seq<char>, name: Seq<char>, t: TyV| field_filled(st, s, name, t),
    }
}

/// Whether what is put into a field agrees with the type that is written there, where that is a
/// name.
pub open spec fn field_filled(st: InferV, s: Seq<char>, name: Seq<char>, t: TyV) -> bool {
    forall|n: Seq<char>| #[trigger]
        field_named(st.registry, s, name, n) ==> alike(st.subst.widths, TyV::Con(n), t)
}

/// Whether a type is that of a field of a value of another: where the value is of a struct that
/// writes a name for the type of the field, it agrees with that type. Where the type of the
/// value was not known when the read was taken up, it is not known.
pub open spec fn field_read(st: InferV, b: TyV, name: Seq<char>, t: TyV) -> bool {
    b is Con && !placeholder(b) ==> forall|n: Seq<char>| #[trigger]
        field_named(st.registry, b->Con_0, name, n) ==> alike(st.subst.widths, t, TyV::Con(n)) || alike(
            st.subst.widths,
            t,
            not_inferred(),
        )
}

/// A read that was taken up has the type of its field in the end.
proof fn lemma_read_settled(st: InferV, b: TyV, name: Seq<char>, t: TyV, n: Seq<char>)
    requires
        ready(st),
        straight(st),
        st.fields.len() == 0,
        reads(st, b, name, t),
        fair(st.subst.bindings, b),
        fair(st.subst.bindings, t),
        applied(st.subst, b) is Con,
        !placeholder(applied(st.subst, b)),
        field_named(st.registry, applied(st.subst, b)->Con_0, name, n),
    ensures
        alike(st.subst.widths, applied(st.subst, t), TyV::Con(n)) || alike(
            st.subst.widths,
            applied(st.subst, t),
            not_inferred(),
        ),
{
    let s = st.subst;
    let root = choose|root: TyV| #[trigger]
        leads(s, b, root) && (waits(st, root, name, t) || told_root(
            st.registry,
            s,
            root,
            name,
            t,
        ));
    if root != b {
        let at = choose|at: SubstV| #[trigger] leads_at(at, s, b, root);
        lemma_applied_again(at.bindings, s.bindings, 0, b);
        assert(applied(s, b) == applied(s, root));
        assert(flat(s.bindings, root));
    }
    let at = choose|at: SubstV| #[trigger] told_at(at, st.registry, s, root, name, t);
    let base = applied(at, root);
    let u = choose|u: TyV| #[trigger]
        told_as(st.registry, base, name, u) && (u == t || joined(s, t, u));
    lemma_applied_again(at.bindings, s.bindings, 0, root);
    assert(applied(s, root) == applied(s, base));
    assert(u is Con);
    assert(fair(s.bindings, u));
    assert(applied(s, u) == u);
    if u == t {
        lemma_alike_self(s.widths, u);
    } else {
        lemma_joined_alike(s, t, u);
    }
}

/// Whether what was bound, and what was found for nodes, is such that types that were unified
/// are alike: no pack comes to hold a pack, no operand of a computed constant comes to be a
/// type name, and what stands for a constant comes to be one.
pub open spec fn straight(st: InferV) -> bool {
    &&& fair_all(st.subst.bindings)
    &&& slots_from(st.subst, 0)
    &&& forall|id: u32| #[trigger]
        st.node_types.contains_key(id) ==> fair(st.subst.bindings, st.node_types[id])
}

/// Each type by what is known of it in the end.
spec fn settling(s: SubstV) -> Carried {
    Carried { to: |t: TyV| applied(s, t), good: |t: TyV| fair(s.bindings, t) }
}

/// Types that were unified are alike in the end.
proof fn lemma_joined_alike(s: SubstV, a: TyV, b: TyV)
    requires
        triangular(s.bindings),
        joined(s, a, b),
        fair_all(s.bindings),
        slots_from(s, 0),
        fair(s.bindings, a),
        fair(s.bindings, b),
    ensures
        alike(s.widths, applied(s, a), applied(s, b)),
{
    let at = choose|at: SubstV| joined_at(at, s, a, b);
    lemma_unify_sound(at, a, b, s);
}

proof fn lemma_settling(st: InferV, v2: Seen)
    requires
        ready(st),
        straight(st),
        st.fields.len() == 0,
        v2.agree == likeness(st.subst),
        v2.array == told(st).array,
        forall|b: TyV, n: Seq<char>, t: TyV|
            (#[trigger] (v2.reads)(b, n, t)) == field_read(st, b, n, t),
        forall|x: Seq<char>, n: Seq<char>, t: TyV|
            (#[trigger] (v2.fills)(x, n, t)) == field_filled(st, x, n, t),
    ensures
        carries(settling(st.subst), seen(st), v2),
{
    let s = st.subst;
    let c = settling(s);
    let v = seen(st);
    assert forall|a: TyV, b: TyV| #[trigger]
        (v.agree)(a, b) && (c.good)(a) && (c.good)(b) implies (v2.agree)((c.to)(a), (c.to)(b)) by {
        assert(joined(s, a, b));
        lemma_joined_alike(s, a, b);
    }
    assert forall|b: TyV, name: Seq<char>, t: TyV| #[trigger]
        (v.reads)(b, name, t) && (c.good)(b) && (c.good)(t) implies (v2.reads)(
        (c.to)(b),
        name,
        (c.to)(t),
    ) by {
        assert(reads(st, b, name, t));
        let b2 = applied(s, b);
        let t2 = applied(s, t);
        if b2 is Con && !placeholder(b2) {
            assert forall|n: Seq<char>| #[trigger]
                field_named(st.registry, b2->Con_0, name, n) implies alike(
                s.widths,
                t2,
                TyV::Con(n),
            ) || alike(s.widths, t2, not_inferred()) by {
                lemma_read_settled(st, b, name, t, n);
            }
        }
        assert(field_read(st, b2, name, t2));
    }
    assert forall|x: Seq<char>, name: Seq<char>, t: TyV| #[trigger]
        (v.fills)(x, name, t) && (c.good)(t) implies (v2.fills)(x, name, (c.to)(t)) by {
        assert(filled(st, x, name, t));
        assert forall|n: Seq<char>| #[trigger] field_named(st.registry, x, name, n) implies alike(
            s.widths,
            TyV::Con(n),
            applied(s, t),
        ) by {
            assert(fair(s.bindings, TyV::Con(n)));
            lemma_joined_alike(s, TyV::Con(n), t);
        }
        assert(field_filled(st, x, name, applied(s, t)));
    }
    assert forall|elem: Box<TyV>, size: Box<TyV>| #[trigger]
        (c.good)(TyV::Array(elem, size)) implies (c.good)(*elem) by {
        assert(fair(s.bindings, TyV::Array(elem, size)));
        assert(fair(s.bindings, *elem));
    }
    assert forall|n: Seq<char>| #[trigger] (c.good)(TyV::Con(n)) by {
        assert(fair(s.bindings, TyV::Con(n)));
    }
    assert forall|x: TyV, y: TyV| (c.to)(#[trigger] (v.array)(x, y)) == (v2.array)(
        (c.to)(x),
        (c.to)(y),
    ) by {
        assert((told(st).array)((c.to)(x), (c.to)(y)) == array_with((c.to)(x), (c.to)(y)));
    }
    assert forall|elem: Box<TyV>, n: ConstValue| #[trigger]
        (c.to)(TyV::Array(elem, Box::new(TyV::Const(n)))) == TyV::Array(
            Box::new((c.to)(*elem)),
            Box::new(TyV::Const(n)),
        ) by {
        assert(applied(s, TyV::Const(n)) == TyV::Const(n));
    }
    assert forall|tys: Seq<TyV>, ret: Box<TyV>|
        #[trigger] (c.to)(TyV::Fn(tys, ret)) matches TyV::Fn(tys2, ret2) && tys2.len()
            == tys.len() && *ret2 == (c.to)(*ret) by {
        assert(applied(s, TyV::Fn(tys, ret)) == TyV::Fn(
            applied_all_from(s.bindings, 0, tys),
            Box::new(applied(s, *ret)),
        ));
        assert(applied_all_from(s.bindings, 0, tys).len() == tys.len());
    }
}

/// Settling the types of nodes makes types alike that were unified.
proof fn lemma_settled_typed(st: InferV, st1: InferV, b: Block)
    requires
        ready(st),
        straight(st),
        st.fields.len() == 0,
        well_typed_block(seen(st), b),
        st1.subst == st.subst,
        st1.registry == st.registry,
        st1.node_types == resolved(st.node_types, st.subst),
    ensures
        well_typed_block(told(st1), b),
{
    lemma_settling(st, told(st1));
    assert(carried_on(settling(st.subst), st.node_types, st1.node_types, block_ids(b)));
    lemma_typed_later_block(settling(st.subst), seen(st), told(st1), b);
}

proof fn lemma_generic_names(st: InferV, generics: Seq<GenericParam>, n: nat, name: Seq<char>)
    requires
        forall|k: int| 0 <= k < generics.len() ==> (#[trigger] generics[k]).spec_name() != name,
    ensures
        !fresh_for(st, generics, n).1.contains_key(name),
    decreases n,
{
    if !(n == 0 || n > generics.len()) {
        lemma_generic_names(st, generics, (n - 1) as nat, name);
        assert(generics[n - 1].spec_name() != name);
    }
}

proof fn lemma_named_param(
    st: InferV,
    params: Seq<Param>,
    i: nat,
    m: MappingV,
    acc: Seq<TyV>,
    k: nat,
)
    requires
        i <= params.len(),
        acc.len() == i,
        k < params.len(),
        k < i && named(params[k as int].ty) is Some && !m.contains_key(
            named(params[k as int].ty)->0,
        ) ==> acc[k as int] == TyV::Con(named(params[k as int].ty)->0),
    ensures
        param_types_from(st, params, i, m, acc).1.len() == params.len(),
        named(params[k as int].ty) is Some && !m.contains_key(named(params[k as int].ty)->0)
            ==> param_types_from(st, params, i, m, acc).1[k as int] == TyV::Con(
            named(params[k as int].ty)->0,
        ),
    decreases params.len() - i,
{
    if i < params.len() {
        let (st1, own) = match params[i as int].ty {
            Some(t) => type_of(st, t, m),
            None => (minted(st), next_var(st)),
        };
        if let Some(t) = params[i as int].ty {
            if named(Some(t)) is Some && !m.contains_key(named(Some(t))->0) {
                lemma_named(st, t, m);
            }
        }
        lemma_named_param(st1, params, i + 1, m, acc.push(own), k);
    }
}

/// Inference that knows nothing yet can start.
pub proof fn lemma_initial_ready(r: Registry)
    ensures
        ready(initial(r)),
{
}

proof fn lemma_shape_ready(st: InferV, f: FnDecl)
    requires
        ready(st),
        f.body is Some,
    ensures
        ready(fn_shape(st, f).0),
{
    let (sta, own) = match body_span(f.body->0) {
        Some(span) => {
            lemma_opened_ready(st, f.generics@, span);
            generics_opened(st, f.generics@, span)
        },
        None => (st, Map::empty()),
    };
    lemma_param_types_ready(sta, f.params@, 0, own, Seq::empty());
}

/// The state in which a function has been inferred, before what is known of its types is put
/// in.
pub open spec fn inferred(st: InferV, f: FnDecl) -> InferV {
    let (st1, params, ret, m) = fn_shape(st, f);
    all_checked(fn_body(st1, f, f.body->0, own_name(f, params, ret), params, ret, m).0).0
}

/// In a function that inference accepts, the types that were found for the nodes of the body
/// were unified wherever they are to agree, and all else fits together.
pub proof fn lemma_accepted_is_unified(st: InferV, f: FnDecl)
    requires
        ready(st),
        numbered_fn(f),
        fn_type(st, f).1 is Ok,
    ensures
        well_typed_block(seen(inferred(st, f)), f.body->0),
        fn_type(st, f).0.node_types == resolved(
            inferred(st, f).node_types,
            inferred(st, f).subst,
        ),
        fn_type(st, f).0.subst == inferred(st, f).subst,
        fn_type(st, f).0.registry == inferred(st, f).registry,
        inferred(st, f).fields.len() == 0,
        ready(inferred(st, f)),
{
    lemma_shape_ready(st, f);
    let (st1, params, ret, m) = fn_shape(st, f);
    let outer = own_name(f, params, ret);
    lemma_fn_body_typed(st1, f, outer, params, ret, m);
    let (st2, r2) = fn_body(st1, f, f.body->0, outer, params, ret, m);
    lemma_checked_typed(st2, f.body->0, r2->Ok_0);
}

/// A function that inference accepts is well typed: the types that it found for the nodes of
/// the body fit together. What was found is straight.
pub proof fn lemma_accepted_is_well_typed(st: InferV, f: FnDecl)
    requires
        ready(st),
        numbered_fn(f),
        fn_type(st, f).1 is Ok,
        straight(inferred(st, f)),
    ensures
        well_typed_block(told(fn_type(st, f).0), f.body->0),
{
    lemma_accepted_is_unified(st, f);
    lemma_settled_typed(inferred(st, f), fn_type(st, f).0, f.body->0);
}

/// The type that inference gives a function's result is that of the body.
pub proof fn lemma_result_is_body(st: InferV, f: FnDecl)
    requires
        ready(st),
        numbered_fn(f),
        fn_type(st, f).1 is Ok,
    ensures
        fn_type(st, f).1 == Ok::<TyV, TypeErrorV>(
            block_ty(fn_type(st, f).0.node_types, f.body->0),
        ),
{
    lemma_accepted_is_unified(st, f);
    let (st1, params, ret, m) = fn_shape(st, f);
    let outer = own_name(f, params, ret);
    lemma_shape_ready(st, f);
    lemma_fn_body_typed(st1, f, outer, params, ret, m);
    let (st2, r2) = fn_body(st1, f, f.body->0, outer, params, ret, m);
    lemma_checked_typed(st2, f.body->0, r2->Ok_0);
}

/// Whether a function has a generic of the name.
pub open spec fn has_generic(f: FnDecl, name: Seq<char>) -> bool {
    exists|k: int| 0 <= k < f.generics@.len() && (#[trigger] f.generics@[k]).spec_name() == name
}

/// What a function declares of itself by name holds of it: a parameter of a named type has
/// that type, and a result of a named type was unified with it.
pub proof fn lemma_declared_types_are_kept(st: InferV, f: FnDecl, k: nat)
    requires
        ready(st),
        numbered_fn(f),
        fn_type(st, f).1 is Ok,
        k < f.params@.len(),
    ensures
        named(f.ret) is Some && !has_generic(f, named(f.ret)->0) ==> exists|t: TyV|
            fn_type(st, f).1->Ok_0 == applied(inferred(st, f).subst, t) && #[trigger] joined(
                inferred(st, f).subst,
                TyV::Con(named(f.ret)->0),
                t,
            ),
        named(f.ret) is Some && !has_generic(f, named(f.ret)->0) && straight(inferred(st, f))
            && f.body->0.tail is Some ==> alike(
            inferred(st, f).subst.widths,
            TyV::Con(named(f.ret)->0),
            fn_type(st, f).1->Ok_0,
        ),
        fn_type(st, f).0.param_types.len() == f.params@.len(),
        named(f.params@[k as int].ty) is Some && !has_generic(
            f,
            named(f.params@[k as int].ty)->0,
        ) ==> fn_type(st, f).0.param_types[k as int] == TyV::Con(
            named(f.params@[k as int].ty)->0,
        ),
{
    lemma_shape_ready(st, f);
    let (st1, params, ret, m) = fn_shape(st, f);
    let outer = own_name(f, params, ret);
    lemma_fn_body_typed(st1, f, outer, params, ret, m);
    let (st2, r2) = fn_body(st1, f, f.body->0, outer, params, ret, m);
    let t = r2->Ok_0;
    lemma_checked_typed(st2, f.body->0, t);
    let st3 = inferred(st, f);
    let (sta, own) = match body_span(f.body->0) {
        Some(span) => generics_opened(st, f.generics@, span),
        None => (st, Map::empty()),
    };
    lemma_named_param(sta, f.params@, 0, own, Seq::empty(), k);
    assert forall|name: Seq<char>| !has_generic(f, name) implies !#[trigger] m.contains_key(
        name,
    ) by {
        lemma_generic_names(st, f.generics@, f.generics@.len(), name);
    }
    if let Some(name) = named(f.ret) {
        if !has_generic(f, name) {
            assert(!m.contains_key(name));
            lemma_joined_later(st2.subst, st3.subst, TyV::Con(name), t);
            assert(fn_type(st, f).1->Ok_0 == applied(st3.subst, t));
            if straight(st3) && f.body->0.tail is Some {
                assert(st3.node_types.contains_key(f.body->0.tail->0.id.0));
                lemma_joined_alike(st3.subst, TyV::Con(name), t);
            }
        }
    }
    if let Some(name) = named(f.params@[k as int].ty) {
        if !has_generic(f, name) {
            assert(!m.contains_key(name));
        }
    }
}

/// What a `break` hands out agrees with the type of the innermost loop: its value does, or
/// the empty value where it has none. The two were unified; where what is known of them and
/// what is bound is fair, they are alike.
pub proof fn lemma_break_fits_loop(st: InferV, env: EnvV, s: Stmt)
    requires
        ready(st),
        orderly_stmt(s),
        s.kind is Break,
        stmt_checked(st, env, s).1 is Ok,
    ensures
        ({
            let st1 = stmt_checked(st, env, s).0;
            let own = st.loops.last();
            let given = match s.kind->Break_0 {
                Some(v) => st1.node_types[v.id.0],
                None => unit_ty(),
            };
            &&& st.loops.len() > 0
            &&& joined(st1.subst, own, given)
            &&& straight(st1) && fair(st1.subst.bindings, own) ==> alike(
                st1.subst.widths,
                applied(st1.subst, own),
                applied(st1.subst, given),
            )
        }),
{
    let acc = st.loops.last();
    let st2 = stmt_checked(st, env, s).0;
    match s.kind->Break_0 {
        Some(v) => {
            lemma_expr_typed(st, env, v);
            let (st1, r1) = expr_type(st, env, v);
            lemma_unified_step(st1, v.span, acc, r1->Ok_0);
            if straight(st2) && fair(st2.subst.bindings, acc) {
                assert(st2.node_types.contains_key(v.id.0));
                lemma_joined_alike(st2.subst, acc, r1->Ok_0);
            }
        },
        None => {
            lemma_unified_step(st, s.span, acc, unit_ty());
            if straight(st2) && fair(st2.subst.bindings, acc) {
                lemma_joined_alike(st2.subst, acc, unit_ty());
            }
        },
    }
}

/// What a `for` goes over was unified with the type of an array.
pub proof fn lemma_for_goes_over_array(st: InferV, env: EnvV, e: Expr)
    requires
        ready(st),
        orderly(e),
        e.kind is ForIn,
        expr_type(st, env, e).1 is Ok,
    ensures
        ({
            let st1 = expr_type(st, env, e).0;
            exists|elem: TyV, size: TyV| #[trigger]
                joined(
                    st1.subst,
                    TyV::Array(Box::new(elem), Box::new(size)),
                    st1.node_types[e.kind->ForIn_iter.id.0],
                )
        }),
{
    lemma_for_in_joined(st, env, e);
}

// ---- methods of algebras ----

proof fn lemma_targets_from_ready(
    st: InferV,
    targets: Seq<Type>,
    i: nat,
    m: MappingV,
    acc: Seq<TyV>,
)
    requires
        ready(st),
    ensures
        steps(st, targets_from(st, targets, i, m, acc).0),
    decreases targets.len() - i,
{
    if i < targets.len() {
        lemma_type_ready(st, targets[i as int], m);
        let (st1, t) = type_of(st, targets[i as int], m);
        lemma_targets_from_ready(st1, targets, i + 1, m, acc.push(t));
        lemma_steps_more(st, st1, targets_from(st1, targets, i + 1, m, acc.push(t)).0);
    }
}

proof fn lemma_algebra_generics_ready(
    st: InferV,
    generics: Seq<GenericParam>,
    i: nat,
    tys: Seq<TyV>,
    k: nat,
    m: MappingV,
)
    requires
        ready(st),
    ensures
        steps(st, algebra_generics_from(st, generics, i, tys, k, m).0),
    decreases generics.len() - i,
{
    if i < generics.len() {
        match generics[i as int] {
            GenericParam::Type { name, .. } => {
                if k < tys.len() {
                    lemma_algebra_generics_ready(
                        st,
                        generics,
                        i + 1,
                        tys,
                        k + 1,
                        m.insert(name@, tys[k as int]),
                    );
                } else {
                    lemma_algebra_generics_ready(st, generics, i + 1, tys, k, m);
                }
            },
            GenericParam::Const { name, .. } => {
                let m1 = m.insert(name@, next_var(st));
                assert(steps(st, minted(st)));
                lemma_algebra_generics_ready(minted(st), generics, i + 1, tys, k, m1);
                lemma_steps_more(
                    st,
                    minted(st),
                    algebra_generics_from(minted(st), generics, i + 1, tys, k, m1).0,
                );
            },
        }
    }
}

proof fn lemma_impl_params_ready(
    st: InferV,
    params: Seq<Param>,
    sig: Seq<Param>,
    i: nat,
    m: MappingV,
    im: MappingV,
    env: EnvV,
    acc: Seq<TyV>,
)
    requires
        ready(st),
        impl_params_from(st, params, sig, i, m, im, env, acc).2 is Ok,
    ensures
        steps(st, impl_params_from(st, params, sig, i, m, im, env, acc).0),
    decreases params.len() - i,
{
    if !(i >= params.len() || i >= sig.len()) {
        let (st1, expected) = match sig[i as int].ty {
            Some(t) => {
                lemma_type_ready(st, t, m);
                type_of(st, t, m)
            },
            None => {
                (minted(st), next_var(st))
            },
        };
        let (st3, own) = match params[i as int].ty {
            None => (st1, expected),
            Some(t) => {
                lemma_type_ready(st1, t, im);
                let (st2, annotated) = type_of(st1, t, im);
                lemma_unified_step(st2, t.span, expected, annotated);
                let last = unified_at(st2, t.span, expected, annotated).0;
                lemma_steps_more(st1, st2, last);
                (last, annotated)
            },
        };
        lemma_steps_more(st, st1, st3);
        let env1 = env.insert(params[i as int].name@, mono(own));
        lemma_impl_params_ready(st3, params, sig, i + 1, m, im, env1, acc.push(own));
        lemma_steps_more(
            st,
            st3,
            impl_params_from(st3, params, sig, i + 1, m, im, env1, acc.push(own)).0,
        );
    }
}

/// The state in which a method of an impl has been inferred, before what is known of its
/// types is put in.
pub open spec fn inferred_method(
    st: InferV,
    outer: EnvV,
    algebra: Seq<char>,
    impl_generics: Seq<GenericParam>,
    targets: Seq<Type>,
    f: FnDecl,
    fallback: Span,
) -> InferV {
    let sig = st.registry.sig_of(algebra, f.name@)->0;
    let (sta, im) = generics_opened(st, impl_generics, fallback);
    let (stb, tys) = targets_from(InferV { active: im, ..sta }, targets, 0, im, Seq::empty());
    let (st1, m) = algebra_generics_from(
        InferV { target_types: tys, ..stb },
        st.registry.generics_of(algebra),
        0,
        tys,
        0,
        Map::empty(),
    );
    let (st2, env, _) = impl_params_from(
        st1,
        f.params@,
        sig.params@,
        0,
        m,
        im,
        outer,
        Seq::empty(),
    );
    let (st3, expected) = declared_result(st2, sig.ret, m);
    let st4 = match f.ret {
        Some(ret) => {
            let (stc, own) = type_of(st3, ret, im);
            unified_at(stc, ret.span, expected, own).0
        },
        None => st3,
    };
    let inner = consts_seeded(env, impl_generics, impl_generics.len(), im);
    let st5 = impl_body(st4, f, inner, expected, fallback).0;
    all_checked(generics_quantified(st5, im)).0
}

/// A method of an impl that inference accepts is well typed: the types that it found for the
/// nodes of the body were unified wherever they are to agree, all else fits together, and the
/// type that it gives the method's result is that of the body. Where what was found is
/// straight, types that are to agree are alike.
pub proof fn lemma_accepted_method_is_well_typed(
    st: InferV,
    outer: EnvV,
    algebra: Seq<char>,
    impl_generics: Seq<GenericParam>,
    targets: Seq<Type>,
    f: FnDecl,
    fallback: Span,
)
    requires
        ready(st),
        numbered_fn(f),
        impl_fn_type(st, outer, algebra, impl_generics, targets, f, fallback).1 is Ok,
    ensures
        ({
            let (st1, r) = impl_fn_type(
                st,
                outer,
                algebra,
                impl_generics,
                targets,
                f,
                fallback,
            );
            let last = inferred_method(
                st,
                outer,
                algebra,
                impl_generics,
                targets,
                f,
                fallback,
            );
            &&& ready(last)
            &&& well_typed_block(seen(last), f.body->0)
            &&& st1.subst == last.subst
            &&& st1.node_types == resolved(last.node_types, last.subst)
            &&& straight(last) ==> well_typed_block(told(st1), f.body->0)
            &&& r == Ok::<TyV, TypeErrorV>(block_ty(st1.node_types, f.body->0))
        }),
{
    let body = f.body->0;
    let sig = st.registry.sig_of(algebra, f.name@)->0;
    let generics = st.registry.generics_of(algebra);
    lemma_opened_ready(st, impl_generics, fallback);
    let (sta, im) = generics_opened(st, impl_generics, fallback);
    let sta1 = InferV { active: im, ..sta };
    assert(ready(sta1));
    lemma_targets_from_ready(sta1, targets, 0, im, Seq::empty());
    let (stb, tys) = targets_from(sta1, targets, 0, im, Seq::empty());
    let stb1 = InferV { target_types: tys, ..stb };
    assert(ready(stb1));
    lemma_algebra_generics_ready(stb1, generics, 0, tys, 0, Map::empty());
    let (st1, m) = algebra_generics_from(stb1, generics, 0, tys, 0, Map::empty());
    lemma_impl_params_ready(st1, f.params@, sig.params@, 0, m, im, outer, Seq::empty());
    let (st2, env, r2) = impl_params_from(
        st1,
        f.params@,
        sig.params@,
        0,
        m,
        im,
        outer,
        Seq::empty(),
    );
    if let Some(t) = sig.ret {
        lemma_type_ready(st2, t, m);
    }
    let (st3, expected) = declared_result(st2, sig.ret, m);
    assert(ready(st3));
    let st4 = match f.ret {
        Some(ret) => {
            lemma_type_ready(st3, ret, im);
            let (stc, own) = type_of(st3, ret, im);
            lemma_unified_step(stc, ret.span, expected, own);
            unified_at(stc, ret.span, expected, own).0
        },
        None => st3,
    };
    let inner = consts_seeded(env, impl_generics, impl_generics.len(), im);
    lemma_block_typed(st4, inner, body);
    let (stc, rc) = block_type(st4, inner, body);
    let t = rc->Ok_0;
    lemma_unified_step(stc, tail_span(body, fallback), expected, t);
    let st5 = unified_at(stc, tail_span(body, fallback), expected, t).0;
    assert(done(stc, st5, Set::empty()));
    lemma_carry_block(stc, st5, Set::empty(), body, t);
    let ste = generics_quantified(st5, im);
    assert(ready(ste));
    assert(done(st5, ste, Set::empty()));
    lemma_carry_block(st5, ste, Set::empty(), body, t);
    lemma_checked_typed(ste, body, t);
    let last = all_checked(ste).0;
    let fin = impl_fn_type(st, outer, algebra, impl_generics, targets, f, fallback).0;
    assert(last == inferred_method(st, outer, algebra, impl_generics, targets, f, fallback));
    if straight(last) {
        lemma_settled_typed(last, fin, body);
    }
}

} // verus!
