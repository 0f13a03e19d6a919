//! What every step of inference keeps: the bindings stay in order, what is bound stays bound,
//! and what stands for a constant goes on doing so.

use vstd::prelude::*;

use crate::ast::{GenericArg, GenericParam, Param, Span, Type};
use crate::const_eval::ConstValue;
use crate::infer_calls::{
    algebra_call_type, args_unified, call_settled, declared_result, element_from, field_type,
    generics_known, generics_pinned, index_type, indices_unified, method_call_type,
    method_params_from, param_types_from,
};
use crate::infer_impls::{
    dispatched, impl_found, impl_matches, matching_from, targets_match, unified_at, SEARCH_DEPTH,
};
use crate::infer_schemes::{
    demands_renamed, fresh_each, generalized, instantiated, widths_renamed,
};
use crate::infer_state::{
    demand, demanding, minted, next_var, ConstraintV, EnvV, InferV, MappingV, MethodShapeV,
    PendingFieldV, SchemeV,
};
use crate::infer_types::{
    bounds_demanded, fresh_for, generic_arg_type, generics_opened, generics_taken, type_of,
    type_with_pack, width_given,
};
use crate::registry::ImplEntry;
use crate::search_laws::{
    lemma_const_asks, lemma_fresh_asks, lemma_match_asks, lemma_matching_asks,
    lemma_search_learns_nothing, lemma_type_asks, only_asks,
};
use crate::subst::{grows, triangular, SubstV};
use crate::table::views;
use crate::ty::TyV;
use crate::types::substituted_all;
use crate::field_reads::{kept_fields, lemma_told_later, taken};
use crate::unify::{lemma_unified, unified};
use crate::unify_laws::lemma_grows_more;

verus! {

/// Whether the bindings are in order, and no method of a struct is being inferred.
pub open spec fn ready(st: InferV) -> bool {
    &&& triangular(st.subst.bindings)
    &&& st.in_progress == Map::<(Seq<char>, Seq<char>), MethodShapeV>::empty()
}

/// Whether a state follows from another: what was known is known, and what was put off still
/// is or has been taken up.
pub open spec fn on(a: InferV, b: InferV) -> bool {
    &&& ready(b)
    &&& grows(b.subst, a.subst)
    &&& b.registry == a.registry
    &&& kept_fields(a, b)
}

/// Whether a state follows from another without a new type for any node.
pub open spec fn goes(a: InferV, b: InferV) -> bool {
    on(a, b) && b.node_types == a.node_types
}

/// Whether a state follows from another without a new type for any node, and with the same
/// reads of fields put off.
pub open spec fn steps(a: InferV, b: InferV) -> bool {
    goes(a, b) && b.fields == a.fields
}

/// Whether two types were unified on the way to a substitution.
pub open spec fn joined_at(at: SubstV, s: SubstV, a: TyV, b: TyV) -> bool {
    &&& triangular(at.bindings)
    &&& unified(at, a, b).1 is None
    &&& grows(s, unified(at, a, b).0)
}

/// Whether two types were unified at some point on the way to a substitution.
pub open spec fn joined(s: SubstV, a: TyV, b: TyV) -> bool {
    exists|at: SubstV| joined_at(at, s, a, b)
}

/// What was unified stays so.
pub proof fn lemma_joined_later(s: SubstV, t: SubstV, a: TyV, b: TyV)
    requires
        joined(s, a, b),
        grows(t, s),
    ensures
        joined(t, a, b),
{
    let at = choose|at: SubstV| joined_at(at, s, a, b);
    lemma_grows_more(unified(at, a, b).0, s, t);
    assert(joined_at(at, t, a, b));
}

pub proof fn lemma_on_more(a: InferV, b: InferV, c: InferV)
    requires
        on(a, b),
        on(b, c),
    ensures
        on(a, c),
        goes(a, b) && goes(b, c) ==> goes(a, c),
        steps(a, b) && steps(b, c) ==> steps(a, c),
{
    lemma_grows_more(a.subst, b.subst, c.subst);
    assert forall|p: PendingFieldV| #[trigger] a.fields.contains(p) implies c.fields.contains(p)
        || taken(c, p) by {
        if b.fields.contains(p) {
        } else {
            lemma_told_later(
                b.registry,
                b.subst,
                c.subst,
                p.base,
                p.field,
                TyV::Var(p.result),
            );
        }
    }
}

pub proof fn lemma_steps_more(a: InferV, b: InferV, c: InferV)
    requires
        steps(a, b),
        steps(b, c),
    ensures
        steps(a, c),
{
    lemma_on_more(a, b, c);
}

/// A state follows from one that has only been asked.
pub proof fn lemma_asked(a: InferV, b: InferV)
    requires
        ready(a),
        only_asks(a, b),
    ensures
        steps(a, b),
        b.active == a.active,
{
}

/// Unifying two types joins them.
pub proof fn lemma_unified_step(st: InferV, span: Span, a: TyV, b: TyV)
    requires
        ready(st),
    ensures
        steps(st, unified_at(st, span, a, b).0),
        unified_at(st, span, a, b).1 is Ok ==> joined(unified_at(st, span, a, b).0.subst, a, b),
{
    lemma_unified(st.subst, a, b);
    if unified_at(st, span, a, b).1 is Ok {
        assert(joined_at(st.subst, unified_at(st, span, a, b).0.subst, a, b));
    }
}

// ---- type expressions ----

pub proof fn lemma_type_ready(st: InferV, t: Type, m: MappingV)
    requires
        ready(st),
    ensures
        steps(st, type_of(st, t, m).0),
        type_of(st, t, m).0.active == st.active,
{
    lemma_type_asks(st, t, m);
    lemma_asked(st, type_of(st, t, m).0);
}

/// A type with a pack that is known.
pub proof fn lemma_pack_type_ready(
    st: InferV,
    t: Type,
    m: MappingV,
    pack: Seq<char>,
    tys: Seq<TyV>,
)
    requires
        ready(st),
    ensures
        steps(st, type_with_pack(st, t, m, pack, tys).0),
{
    lemma_type_ready(st, t, m);
    if let crate::ast::TypeKind::Array(elem, _) = t.kind {
        lemma_type_ready(st, *elem, m);
    }
}

/// A generic argument.
pub proof fn lemma_generic_arg_ready(st: InferV, g: GenericArg)
    requires
        ready(st),
    ensures
        steps(st, generic_arg_type(st, g).0),
{
    match g {
        GenericArg::Type(t) => lemma_type_ready(st, t, st.active),
        GenericArg::Const(e) => {
            lemma_const_asks(st, e, st.active);
        },
    }
}

proof fn lemma_bounds_ready(st: InferV, bounds: Seq<Seq<char>>, i: nat, ty: TyV, span: Span)
    requires
        ready(st),
    ensures
        steps(st, bounds_demanded(st, bounds, i, ty, span)),
    decreases bounds.len() - i,
{
    if i < bounds.len() {
        let st1 = demanding(st, demand(bounds[i as int], ty, span));
        assert(steps(st, st1));
        lemma_bounds_ready(st1, bounds, i + 1, ty, span);
        lemma_steps_more(st, st1, bounds_demanded(st1, bounds, i + 1, ty, span));
    }
}

proof fn lemma_width_ready(st: InferV, t: TyV, width: TyV)
    requires
        ready(st),
    ensures
        steps(st, width_given(st, t, width)),
{
}

proof fn lemma_taken_ready(
    st: InferV,
    generics: Seq<GenericParam>,
    i: nat,
    m: MappingV,
    span: Span,
)
    requires
        ready(st),
    ensures
        steps(st, generics_taken(st, generics, i, m, span)),
    decreases generics.len() - i,
{
    if i < generics.len() {
        let st1 = match generics[i as int] {
            GenericParam::Type { name, bounds, .. } => {
                lemma_bounds_ready(st, views(bounds@), 0, m[name@], span);
                bounds_demanded(st, views(bounds@), 0, m[name@], span)
            },
            GenericParam::Const { name, ty, .. } => {
                let (st2, width) = type_of(st, ty, m);
                lemma_type_ready(st, ty, m);
                lemma_width_ready(st2, m[name@], width);
                lemma_steps_more(st, st2, width_given(st2, m[name@], width));
                width_given(st2, m[name@], width)
            },
        };
        lemma_taken_ready(st1, generics, i + 1, m, span);
        lemma_steps_more(st, st1, generics_taken(st1, generics, i + 1, m, span));
    }
}

pub proof fn lemma_opened_ready(st: InferV, generics: Seq<GenericParam>, span: Span)
    requires
        ready(st),
    ensures
        steps(st, generics_opened(st, generics, span).0),
{
    let (st1, m) = fresh_for(st, generics, generics.len());
    lemma_fresh_asks(st, generics, generics.len());
    lemma_asked(st, st1);
    lemma_taken_ready(st1, generics, 0, m, span);
    lemma_steps_more(st, st1, generics_taken(st1, generics, 0, m, span));
}

// ---- searching impls ----

/// The targets of an impl, tried on types.
proof fn lemma_targets_ready(
    st: InferV,
    targets: Vec<Type>,
    j: nat,
    query: Seq<TyV>,
    m: MappingV,
    trial: SubstV,
)
    requires
        triangular(trial.bindings),
    ensures
        ({
            let found = targets_match(st, targets, j, query, m, trial).1;
            triangular(found.bindings) && grows(found, trial)
        }),
    decreases targets@.len() - j,
{
    if j < targets@.len() && j < query.len() {
        let (st1, pattern) = type_of(st, targets@[j as int], m);
        let (s1, e) = unified(trial, pattern, query[j as int]);
        lemma_unified(trial, pattern, query[j as int]);
        if e is None {
            lemma_targets_ready(st1, targets, j + 1, query, m, s1);
            lemma_grows_more(trial, s1, targets_match(st1, targets, j + 1, query, m, s1).1);
        }
    }
}

/// Whether each of the substitutions is in order and knows more.
pub open spec fn all_grow(s: SubstV, found: Seq<SubstV>) -> bool {
    forall|k: int|
        0 <= k < found.len() ==> triangular((#[trigger] found[k]).bindings) && grows(found[k], s)
}

proof fn lemma_match_ready(
    d: nat,
    st: InferV,
    entry: ImplEntry,
    algebra: Seq<char>,
    query: Seq<TyV>,
)
    requires
        ready(st),
    ensures
        impl_matches(d, st, entry, algebra, query).1 matches Some(x) ==> triangular(x.bindings)
            && grows(x, st.subst),
{
    if !(entry.algebra@ != algebra || entry.targets@.len() != query.len()) {
        let g = entry.generics@;
        let (st1, m) = fresh_for(st, g, g.len());
        lemma_fresh_asks(st, g, g.len());
        lemma_targets_ready(st1, entry.targets, 0, query, m, st1.subst);
    }
}

proof fn lemma_matching_ready(
    d: nat,
    impls: Seq<ImplEntry>,
    st: InferV,
    i: nat,
    algebra: Seq<char>,
    query: Seq<TyV>,
    acc: Seq<SubstV>,
)
    requires
        ready(st),
        all_grow(st.subst, acc),
    ensures
        all_grow(st.subst, matching_from(d, impls, st, i, algebra, query, acc).1),
    decreases impls.len() - i,
{
    if i < impls.len() {
        lemma_match_ready(d, st, impls[i as int], algebra, query);
        lemma_match_asks(d, st, impls[i as int], algebra, query);
        let (st1, found) = impl_matches(d, st, impls[i as int], algebra, query);
        let acc1 = match found {
            Some(x) => acc.push(x),
            None => acc,
        };
        assert forall|k: int| 0 <= k < acc1.len() implies triangular(
            (#[trigger] acc1[k]).bindings,
        ) && grows(acc1[k], st.subst) by {
            if k < acc.len() {
                assert(acc1[k] == acc[k]);
            }
        }
        lemma_matching_ready(d, impls, st1, i + 1, algebra, query, acc1);
    }
}

/// Looking for an impl.
pub proof fn lemma_impl_found_ready(st: InferV, algebra: Seq<char>, tys: Seq<TyV>)
    requires
        ready(st),
    ensures
        steps(st, impl_found(st, algebra, tys).0),
{
    lemma_search_learns_nothing(st, algebra, tys);
}

/// Committing to an impl.
pub proof fn lemma_dispatched_ready(st: InferV, algebra: Seq<char>, tys: Seq<TyV>, span: Span)
    requires
        ready(st),
    ensures
        steps(st, dispatched(st, algebra, tys, span).0),
{
    let d = SEARCH_DEPTH as nat;
    let impls = st.registry.impls@;
    lemma_matching_ready(d, impls, st, 0, algebra, tys, Seq::empty());
    lemma_matching_asks(d, impls, st, 0, algebra, tys, Seq::empty());
    let (st1, found) = matching_from(d, impls, st, 0, algebra, tys, Seq::empty());
    if found.len() > 0 {
        assert(grows(found[0], st.subst));
    }
}

// ---- fields and methods ----

pub proof fn lemma_field_ready(st: InferV, base: TyV, name: Seq<char>, span: Span)
    requires
        ready(st),
    ensures
        steps(st, field_type(st, base, name, span).0),
{
    match base {
        TyV::Con(struct_name) => {
            if let Some(s) = st.registry.struct_of(struct_name) {
                if let Some(k) = crate::registry::field_from(s.fields@, 0, name) {
                    lemma_type_ready(st, s.fields@[k].ty, Map::empty());
                }
            }
        },
        TyV::App(struct_name, args) => {
            if let Some(s) = st.registry.struct_of(struct_name) {
                if let Some(k) = crate::registry::field_from(s.fields@, 0, name) {
                    let g = s.generics@;
                    let ty = s.fields@[k].ty;
                    if g.len() > 0 && g.last().spec_variadic() {
                        let n = crate::infer_calls::lesser((g.len() - 1) as nat, args.len());
                        lemma_pack_type_ready(
                            st,
                            ty,
                            crate::infer_calls::zipped(g, args, n),
                            g.last().spec_name(),
                            args.subrange(n as int, args.len() as int),
                        );
                    } else {
                        let n = crate::infer_calls::lesser(g.len(), args.len());
                        lemma_type_ready(st, ty, crate::infer_calls::zipped(g, args, n));
                    }
                }
            }
        },
        _ => {},
    }
}

proof fn lemma_method_params_ready(
    st: InferV,
    params: Seq<Param>,
    i: nat,
    m: MappingV,
    target: TyV,
    acc: Seq<TyV>,
)
    requires
        ready(st),
    ensures
        steps(st, method_params_from(st, params, i, m, target, acc).0),
    decreases params.len() - i,
{
    if i < params.len() {
        let (st1, t) = match params[i as int].ty {
            Some(t) => {
                lemma_type_ready(st, t, m);
                type_of(st, t, m)
            },
            None => if i == 0 {
                (st, target)
            } else {
                (minted(st), next_var(st))
            },
        };
        assert(steps(st, st1));
        lemma_method_params_ready(st1, params, i + 1, m, target, acc.push(t));
        lemma_steps_more(
            st,
            st1,
            method_params_from(st1, params, i + 1, m, target, acc.push(t)).0,
        );
    }
}

/// The arguments of a call.
pub proof fn lemma_args_unified_ready(
    st: InferV,
    params: Seq<TyV>,
    off: nat,
    args: Seq<TyV>,
    spans: Seq<Span>,
    k: nat,
)
    requires
        ready(st),
        args_unified(st, params, off, args, spans, k).1 is Ok,
    ensures
        steps(st, args_unified(st, params, off, args, spans, k).0),
    decreases args.len() - k,
{
    if !(k >= args.len() || k >= spans.len() || off + k >= params.len()) {
        let (a, b) = (params[(off + k) as int], args[k as int]);
        lemma_unified_step(st, spans[k as int], a, b);
        let st1 = unified_at(st, spans[k as int], a, b).0;
        lemma_args_unified_ready(st1, params, off, args, spans, k + 1);
        lemma_steps_more(st, st1, args_unified(st1, params, off, args, spans, k + 1).0);
    }
}

pub proof fn lemma_method_call_ready(
    st: InferV,
    base: TyV,
    name: Seq<char>,
    arg_tys: Seq<TyV>,
    arg_spans: Seq<Span>,
    base_span: Span,
    call_span: Span,
)
    requires
        ready(st),
        method_call_type(st, base, name, arg_tys, arg_spans, base_span, call_span).1 is Ok,
    ensures
        steps(st, method_call_type(st, base, name, arg_tys, arg_spans, base_span, call_span).0),
{
    let struct_name = crate::infer_calls::struct_name_of(base)->0;
    let entry = st.registry.method_of(struct_name, name)->0;
    let params = entry.method.params@;
    lemma_opened_ready(st, entry.generics@, call_span);
    let (st1, m) = generics_opened(st, entry.generics@, call_span);
    lemma_type_ready(st1, entry.target, m);
    let (st2, target) = type_of(st1, entry.target, m);
    lemma_steps_more(st, st1, st2);
    lemma_method_params_ready(st2, params, 0, m, target, Seq::empty());
    let (st3, param_tys) = method_params_from(st2, params, 0, m, target, Seq::empty());
    lemma_steps_more(st, st2, st3);
    lemma_unified_step(st3, base_span, param_tys[0], base);
    let st4 = unified_at(st3, base_span, param_tys[0], base).0;
    lemma_steps_more(st, st3, st4);
    lemma_args_unified_ready(st4, param_tys, 1, arg_tys, arg_spans, 0);
    let st5 = args_unified(st4, param_tys, 1, arg_tys, arg_spans, 0).0;
    lemma_steps_more(st, st4, st5);
    if let Some(t) = entry.method.ret {
        lemma_type_ready(st5, t, m);
        lemma_steps_more(st, st5, type_of(st5, t, m).0);
    }
}

// ---- calls of algebra functions ----

pub proof fn lemma_pinned_ready(
    st: InferV,
    generics: Seq<GenericParam>,
    args: Seq<GenericArg>,
    i: nat,
    m: MappingV,
    span: Span,
)
    requires
        ready(st),
        generics_pinned(st, generics, args, i, m, span).1 is Ok,
    ensures
        steps(st, generics_pinned(st, generics, args, i, m, span).0),
    decreases generics.len() - i,
{
    if !(i >= generics.len() || i >= args.len()) {
        lemma_generic_arg_ready(st, args[i as int]);
        let (st1, t) = generic_arg_type(st, args[i as int]);
        let own = m[generics[i as int].spec_name()];
        lemma_unified_step(st1, span, own, t);
        let st2 = unified_at(st1, span, own, t).0;
        lemma_steps_more(st, st1, st2);
        lemma_pinned_ready(st2, generics, args, i + 1, m, span);
        lemma_steps_more(st, st2, generics_pinned(st2, generics, args, i + 1, m, span).0);
    }
}

pub proof fn lemma_param_types_ready(
    st: InferV,
    params: Seq<Param>,
    i: nat,
    m: MappingV,
    acc: Seq<TyV>,
)
    requires
        ready(st),
    ensures
        steps(st, param_types_from(st, params, i, m, acc).0),
    decreases params.len() - i,
{
    if i < params.len() {
        let (st1, t) = match params[i as int].ty {
            Some(t) => {
                lemma_type_ready(st, t, m);
                type_of(st, t, m)
            },
            None => (minted(st), next_var(st)),
        };
        assert(steps(st, st1));
        lemma_param_types_ready(st1, params, i + 1, m, acc.push(t));
        lemma_steps_more(st, st1, param_types_from(st1, params, i + 1, m, acc.push(t)).0);
    }
}

proof fn lemma_settled_call_ready(
    st: InferV,
    algebra: Seq<char>,
    tys: Seq<TyV>,
    gating: Seq<usize>,
    span: Span,
)
    requires
        ready(st),
        call_settled(st, algebra, tys, gating, span).1 is Ok,
    ensures
        steps(st, call_settled(st, algebra, tys, gating, span).0),
{
    lemma_dispatched_ready(st, algebra, tys, span);
}

pub proof fn lemma_algebra_call_ready(
    st: InferV,
    call_span: Span,
    algebra: Seq<char>,
    name: Seq<char>,
    arg_tys: Seq<TyV>,
    arg_spans: Seq<Span>,
    explicit: Seq<GenericArg>,
)
    requires
        ready(st),
        algebra_call_type(st, call_span, algebra, name, arg_tys, arg_spans, explicit).1 is Ok,
    ensures
        steps(
            st,
            algebra_call_type(st, call_span, algebra, name, arg_tys, arg_spans, explicit).0,
        ),
{
    let sig = st.registry.sig_of(algebra, name)->0;
    let generics = st.registry.generics_of(algebra);
    let (st1, m) = fresh_for(st, generics, generics.len());
    lemma_fresh_asks(st, generics, generics.len());
    lemma_asked(st, st1);
    lemma_pinned_ready(st1, generics, explicit, 0, m, call_span);
    let st2 = generics_pinned(st1, generics, explicit, 0, m, call_span).0;
    lemma_steps_more(st, st1, st2);
    lemma_param_types_ready(st2, sig.params@, 0, m, Seq::empty());
    let (st3, param_tys) = param_types_from(st2, sig.params@, 0, m, Seq::empty());
    lemma_steps_more(st, st2, st3);
    if let Some(t) = sig.ret {
        lemma_type_ready(st3, t, m);
    }
    let (st4, ret) = declared_result(st3, sig.ret, m);
    lemma_steps_more(st, st3, st4);
    lemma_args_unified_ready(st4, param_tys, 0, arg_tys, arg_spans, 0);
    let st5 = args_unified(st4, param_tys, 0, arg_tys, arg_spans, 0).0;
    lemma_steps_more(st, st4, st5);
    let (tys, gating) = generics_known(
        st5,
        generics,
        generics.len(),
        m,
        crate::types::free_of(param_tys),
    );
    lemma_settled_call_ready(st5, algebra, tys, gating, call_span);
    let st6 = call_settled(st5, algebra, tys, gating, call_span).0;
    lemma_steps_more(st, st5, st6);
}

// ---- indexing ----

proof fn lemma_element_ready(st: InferV, current: TyV, spans: Seq<Span>, k: nat)
    requires
        element_from(st, current, spans, k).1 is Ok,
    ensures
        element_from(st, current, spans, k).0 == st,
    decreases spans.len() - k,
{
    if k < spans.len() {
        if let TyV::Array(elem, _) = crate::subst::applied(st.subst, current) {
            lemma_element_ready(st, *elem, spans, k + 1);
        }
    }
}

proof fn lemma_indices_unified_ready(
    st: InferV,
    elem: TyV,
    tys: Seq<TyV>,
    spans: Seq<Span>,
    k: nat,
)
    requires
        ready(st),
        indices_unified(st, elem, tys, spans, k).1 is Ok,
    ensures
        steps(st, indices_unified(st, elem, tys, spans, k).0),
    decreases tys.len() - k,
{
    if !(k >= tys.len() || k >= spans.len()) {
        lemma_unified_step(st, spans[k as int], elem, tys[k as int]);
        let st1 = unified_at(st, spans[k as int], elem, tys[k as int]).0;
        lemma_indices_unified_ready(st1, elem, tys, spans, k + 1);
        lemma_steps_more(st, st1, indices_unified(st1, elem, tys, spans, k + 1).0);
    }
}

pub proof fn lemma_index_ready(
    st: InferV,
    base: TyV,
    index_tys: Seq<TyV>,
    index_spans: Seq<Span>,
    base_span: Span,
    expr_span: Span,
)
    requires
        ready(st),
        index_type(st, base, index_tys, index_spans, base_span, expr_span).1 is Ok,
    ensures
        steps(st, index_type(st, base, index_tys, index_spans, base_span, expr_span).0),
{
    match base {
        TyV::Array(_, _) => lemma_element_ready(st, base, index_spans, 0),
        _ => {
            let elem = next_var(st);
            assert(steps(st, minted(st)));
            lemma_indices_unified_ready(minted(st), elem, index_tys, index_spans, 0);
            let st1 = indices_unified(minted(st), elem, index_tys, index_spans, 0).0;
            lemma_steps_more(st, minted(st), st1);
            let size = TyV::Const(ConstValue::Int(index_tys.len() as u64));
            let array = TyV::Array(Box::new(elem), Box::new(size));
            let candidates = crate::registry::declaring_from(st.registry, 0, "index"@, 2);
            if candidates.len() == 1 {
                let args = seq![base, array];
                let spans = seq![base_span, expr_span];
                lemma_algebra_call_ready(
                    st1,
                    expr_span,
                    candidates[0],
                    "index"@,
                    args,
                    spans,
                    Seq::empty(),
                );
                let st2 = algebra_call_type(
                    st1,
                    expr_span,
                    candidates[0],
                    "index"@,
                    args,
                    spans,
                    Seq::empty(),
                ).0;
                lemma_steps_more(st, st1, st2);
            }
        },
    }
}

// ---- schemes ----

/// Generalizing.
pub proof fn lemma_generalized_ready(st: InferV, env: EnvV, ty: TyV)
    requires
        ready(st),
    ensures
        steps(st, generalized(st, env, ty).0),
{
}

proof fn lemma_fresh_each_ready(st: InferV, vars: Seq<u32>, n: nat)
    requires
        ready(st),
    ensures
        steps(st, fresh_each(st, vars, n).0),
    decreases n,
{
    if !(n == 0 || n > vars.len()) {
        lemma_fresh_each_ready(st, vars, (n - 1) as nat);
        let st1 = fresh_each(st, vars, (n - 1) as nat).0;
        assert(steps(st1, minted(st1)));
        lemma_steps_more(st, st1, fresh_each(st, vars, n).0);
    }
}

proof fn lemma_demands_renamed_ready(
    st: InferV,
    cs: Seq<ConstraintV>,
    k: nat,
    m: Map<u32, TyV>,
)
    requires
        ready(st),
    ensures
        steps(st, demands_renamed(st, cs, k, m)),
    decreases cs.len() - k,
{
    if k < cs.len() {
        let c = cs[k as int];
        let st1 = demanding(st, ConstraintV { tys: substituted_all(c.tys, m), ..c });
        assert(steps(st, st1));
        lemma_demands_renamed_ready(st1, cs, k + 1, m);
        lemma_steps_more(st, st1, demands_renamed(st1, cs, k + 1, m));
    }
}

proof fn lemma_widths_renamed_ready(
    st: InferV,
    ws: Seq<(u32, TyV)>,
    k: nat,
    m: Map<u32, TyV>,
)
    requires
        ready(st),
    ensures
        steps(st, widths_renamed(st, ws, k, m)),
    decreases ws.len() - k,
{
    if k < ws.len() {
        let (v, w) = ws[k as int];
        let st1 = if m.contains_key(v) {
            width_given(st, m[v], w)
        } else {
            st
        };
        lemma_width_ready(st, m[v], w);
        assert(steps(st, st1));
        lemma_widths_renamed_ready(st1, ws, k + 1, m);
        lemma_steps_more(st, st1, widths_renamed(st1, ws, k + 1, m));
    }
}

/// Using a scheme.
pub proof fn lemma_instantiated_ready(st: InferV, s: SchemeV)
    requires
        ready(st),
    ensures
        steps(st, instantiated(st, s).0),
{
    let (st1, m) = fresh_each(st, s.vars, s.vars.len());
    lemma_fresh_each_ready(st, s.vars, s.vars.len());
    lemma_demands_renamed_ready(st1, s.constraints, 0, m);
    let st2 = demands_renamed(st1, s.constraints, 0, m);
    lemma_steps_more(st, st1, st2);
    lemma_widths_renamed_ready(st2, s.widths, 0, m);
    lemma_steps_more(st, st2, widths_renamed(st2, s.widths, 0, m));
}

} // verus!
