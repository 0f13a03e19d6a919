//! Inference on a program without packs, without generics that stand for constants and without
//! computed constants keeps all types free of them.

use vstd::prelude::*;

use crate::ast::{Expr, Field, FnSig, GenericArg, GenericParam, Param, Span, Type, TypeKind};
use crate::const_eval::ConstValue;
use crate::infer_calls::{
    algebra_call_type, args_unified, call_settled, declared_result, element_from, field_type,
    generics_known, generics_pinned, index_type, indices_unified, lesser, method_call_type,
    method_params_from, param_types_from, pattern_vars, zipped,
};
use crate::infer_impls::{
    dispatched, impl_found, impl_matches, matching_from, targets_match, unified_at, SEARCH_DEPTH,
};
use crate::infer_schemes::{
    constraints_on, demands_renamed, fresh_each, generalized, instantiated, widths_of,
    widths_renamed,
};
use crate::infer_state::{
    demand, demanding, minted, next_var, ConstraintV, EnvV, InferV, MappingV, MethodShapeV,
    PatternV, PendingCallV, PendingFieldV, PendingIndexV, SchemeV,
};
use crate::infer_types::{
    bounds_demanded, const_of, const_or_fresh, fresh_for, generic_arg_type, generics_opened,
    generics_taken, lemma_fresh_for_names, type_args_from, type_of, types_from,
};
use crate::registry::{
    algebra_from, field_from, fn_from, inherent_from, struct_from, ImplEntry, Registry,
};
use crate::search_laws::{lemma_match_asks, lemma_matching_asks, lemma_search_learns_nothing};
use crate::simple::{
    simple_arg, simple_args, simple_args_from, simple_const, simple_fields, simple_generics,
    simple_impl, simple_option, simple_params, simple_registry, simple_type, simple_types_from,
};
use crate::subst::{applied, applied_all, width_from, SubstV};
use crate::table::views;
use crate::ty::TyV;
use crate::types::{substituted, substituted_all};
use crate::unifiers::lemma_unify_keeps_plain;
use crate::unify::unified;
use crate::unify_laws::{
    lemma_applied_plain, lemma_plain_all, lemma_plain_at, lemma_spliced_plain, plain, plain_subst,
};

verus! {

// ---- what is found in a simple registry ----

proof fn lemma_algebra_place(r: Registry, i: nat, name: Seq<char>)
    ensures
        algebra_from(r, i, name) matches Some(k) ==> 0 <= k < r.algebras@.len(),
    decreases r.algebras@.len() - i,
{
    if i < r.algebras@.len() && r.algebras@[i as int].name@ != name {
        lemma_algebra_place(r, i + 1, name);
    }
}

proof fn lemma_struct_place(r: Registry, i: nat, name: Seq<char>)
    ensures
        struct_from(r, i, name) matches Some(k) ==> 0 <= k < r.structs@.len(),
    decreases r.structs@.len() - i,
{
    if i < r.structs@.len() && r.structs@[i as int].name@ != name {
        lemma_struct_place(r, i + 1, name);
    }
}

proof fn lemma_fn_place(fns: Seq<FnSig>, i: nat, name: Seq<char>)
    ensures
        fn_from(fns, i, name) matches Some(k) ==> 0 <= k < fns.len(),
    decreases fns.len() - i,
{
    if i < fns.len() && fns[i as int].name@ != name {
        lemma_fn_place(fns, i + 1, name);
    }
}

pub proof fn lemma_field_place(fields: Seq<Field>, i: nat, name: Seq<char>)
    ensures
        field_from(fields, i, name) matches Some(k) ==> 0 <= k < fields.len(),
    decreases fields.len() - i,
{
    if i < fields.len() && fields[i as int].name@ != name {
        lemma_field_place(fields, i + 1, name);
    }
}

proof fn lemma_inherent_place(r: Registry, i: nat, struct_name: Seq<char>, method: Seq<char>)
    ensures
        inherent_from(r, i, struct_name, method) matches Some(k) ==> 0 <= k
            < r.inherent@.len(),
    decreases r.inherent@.len() - i,
{
    if i < r.inherent@.len() {
        lemma_inherent_place(r, i + 1, struct_name, method);
    }
}

/// What is found in a simple registry is simple.
pub proof fn lemma_found_is_simple(r: Registry, name: Seq<char>, method: Seq<char>)
    requires
        simple_registry(r),
    ensures
        simple_generics(r.generics_of(name)),
        r.sig_of(name, method) matches Some(sig) ==> simple_params(sig.params@) && simple_option(
            sig.ret,
        ),
        r.struct_of(name) matches Some(s) ==> simple_generics(s.generics@) && simple_fields(
            s.fields@,
        ),
        r.method_of(name, method) matches Some(m) ==> simple_generics(m.generics@) && simple_type(
            m.target,
        ) && simple_params(m.method.params@) && simple_option(m.method.ret),
{
    lemma_algebra_place(r, 0, name);
    lemma_struct_place(r, 0, name);
    lemma_inherent_place(r, 0, name, method);
    if let Some(a) = r.algebra_of(name) {
        lemma_fn_place(a.fns@, 0, method);
        let k = algebra_from(r, 0, name)->0;
        assert(simple_generics(r.algebras@[k].generics@));
    }
}

// ---- states of which all types are plain ----

/// Whether the types of all nodes are plain.
pub open spec fn plain_nodes(nt: Map<u32, TyV>) -> bool {
    forall|id: u32| #[trigger] nt.contains_key(id) ==> plain(nt[id])
}

pub open spec fn plain_types(tys: Seq<TyV>) -> bool {
    forall|i: int| 0 <= i < tys.len() ==> plain(#[trigger] tys[i])
}

pub open spec fn plain_mapping(m: MappingV) -> bool {
    forall|n: Seq<char>| #[trigger] m.contains_key(n) ==> plain(m[n])
}

pub open spec fn plain_constraints(cs: Seq<ConstraintV>) -> bool {
    forall|i: int| 0 <= i < cs.len() ==> plain_types((#[trigger] cs[i]).tys)
}

pub open spec fn plain_scheme(s: SchemeV) -> bool {
    plain(s.ty) && plain_constraints(s.constraints) && s.widths.len() == 0
}

pub open spec fn plain_env(env: EnvV) -> bool {
    forall|n: Seq<char>| #[trigger] env.contains_key(n) ==> plain_scheme(env[n])
}

pub open spec fn plain_patterns(p: Option<Map<(Seq<char>, Seq<char>), PatternV>>) -> bool {
    match p {
        Some(m) => forall|k: (Seq<char>, Seq<char>)| #[trigger]
            m.contains_key(k) ==> plain(m[k].ret),
        None => true,
    }
}

pub open spec fn plain_fields(ps: Seq<PendingFieldV>) -> bool {
    forall|i: int| 0 <= i < ps.len() ==> plain((#[trigger] ps[i]).base)
}

pub open spec fn plain_calls(ps: Seq<PendingCallV>) -> bool {
    forall|i: int|
        0 <= i < ps.len() ==> plain((#[trigger] ps[i]).base) && plain_types(ps[i].arg_tys)
}

pub open spec fn plain_indices(ps: Seq<PendingIndexV>) -> bool {
    forall|i: int|
        0 <= i < ps.len() ==> plain((#[trigger] ps[i]).base) && plain_types(ps[i].index_tys)
}

/// Whether all types that inference keeps are plain, its program is simple, and no method of
/// a struct is being inferred.
pub open spec fn plain_state(st: InferV) -> bool {
    &&& plain_subst(st.subst)
    &&& plain_constraints(st.constraints)
    &&& plain_nodes(st.node_types)
    &&& plain_mapping(st.active)
    &&& plain_types(st.loops)
    &&& st.in_progress == Map::<(Seq<char>, Seq<char>), MethodShapeV>::empty()
    &&& plain_patterns(st.patterns)
    &&& plain_fields(st.fields)
    &&& plain_calls(st.calls)
    &&& plain_indices(st.indices)
    &&& simple_registry(st.registry)
}

/// A new variable.
pub proof fn lemma_minted(st: InferV)
    requires
        plain_state(st),
    ensures
        plain_state(minted(st)),
        plain(next_var(st)),
{
}

/// A new demand.
pub proof fn lemma_demanding(st: InferV, c: ConstraintV)
    requires
        plain_state(st),
        plain_types(c.tys),
    ensures
        plain_state(demanding(st, c)),
{
    let cs = st.constraints.push(c);
    assert forall|i: int| 0 <= i < cs.len() implies plain_types((#[trigger] cs[i]).tys) by {
        if i < st.constraints.len() {
            assert(cs[i] == st.constraints[i]);
        }
    }
}

/// A demand on one type.
pub proof fn lemma_demand_one(st: InferV, algebra: Seq<char>, ty: TyV, span: Span)
    requires
        plain_state(st),
        plain(ty),
    ensures
        plain_state(demanding(st, demand(algebra, ty, span))),
{
    assert(plain_types(demand(algebra, ty, span).tys));
    lemma_demanding(st, demand(algebra, ty, span));
}

/// What is known of a plain type is plain.
pub proof fn lemma_shown_plain(st: InferV, t: TyV)
    requires
        plain_state(st),
        plain(t),
    ensures
        plain(applied(st.subst, t)),
{
    lemma_applied_plain(st.subst.bindings, 0, t);
}

pub proof fn lemma_applied_all_plain(s: SubstV, tys: Seq<TyV>)
    requires
        plain_subst(s),
        plain_types(tys),
    ensures
        plain_types(applied_all(s, tys)),
{
    assert forall|i: int| 0 <= i < tys.len() implies plain(#[trigger] applied_all(s, tys)[i]) by {
        lemma_applied_plain(s.bindings, 0, tys[i]);
    }
}

/// Unifying two types.
pub proof fn lemma_unified_plain(st: InferV, span: Span, a: TyV, b: TyV)
    requires
        plain_state(st),
        plain(a),
        plain(b),
        unified_at(st, span, a, b).1 is Ok,
    ensures
        plain_state(unified_at(st, span, a, b).0),
{
    lemma_unify_keeps_plain(st.subst, a, b);
}

// ---- type expressions ----

pub proof fn lemma_const_plain(st: InferV, e: Expr, m: MappingV)
    requires
        plain_state(st),
        plain_mapping(m),
        simple_const(e),
    ensures
        const_of(st, e, m).0 == st,
        const_of(st, e, m).1 matches Some(t) ==> plain(t),
        plain_state(const_or_fresh(st, e, m).0),
        plain(const_or_fresh(st, e, m).1),
{
    match e.kind {
        crate::ast::ExprKind::Path(p) => {
            if p.segments@.len() == 1 && m.contains_key(p.segments@[0]@) {
                lemma_shown_plain(st, m[p.segments@[0]@]);
            }
        },
        _ => {},
    }
}

pub proof fn lemma_type_plain(st: InferV, t: Type, m: MappingV)
    requires
        plain_state(st),
        plain_mapping(m),
        simple_type(t),
    ensures
        plain_state(type_of(st, t, m).0),
        plain(type_of(st, t, m).1),
    decreases t, 0nat,
{
    match t.kind {
        TypeKind::Path(p, args) => {
            let name = crate::infer_types::path_name(p);
            if !m.contains_key(name) {
                let st1 = if crate::infer_types::misnamed(st, name) {
                    InferV { type_names: st.type_names.push((name, t.span)), ..st }
                } else {
                    st
                };
                assert(plain_state(st1));
                lemma_args_plain(st1, args, 0, m, Seq::empty());
                let tys = type_args_from(st1, args, 0, m, Seq::empty()).1;
                lemma_plain_all(tys, tys.len());
            }
        },
        TypeKind::Array(elem, size) => {
            lemma_type_plain(st, *elem, m);
            let st1 = type_of(st, *elem, m).0;
            lemma_const_plain(st1, *size, m);
        },
        TypeKind::Fn(params, ret) => {
            lemma_types_plain(st, params, 0, m, Seq::empty());
            let (st1, ps) = types_from(st, params, 0, m, Seq::empty());
            lemma_type_plain(st1, *ret, m);
            lemma_plain_all(ps, ps.len());
        },
        _ => {},
    }
}

proof fn lemma_args_plain(
    st: InferV,
    args: Vec<GenericArg>,
    i: nat,
    m: MappingV,
    acc: Seq<TyV>,
)
    requires
        plain_state(st),
        plain_mapping(m),
        simple_args_from(args, i),
        plain_types(acc),
    ensures
        plain_state(type_args_from(st, args, i, m, acc).0),
        plain_types(type_args_from(st, args, i, m, acc).1),
    decreases args, args@.len() - i,
{
    if i < args@.len() {
        let (st1, t) = match args@[i as int] {
            GenericArg::Type(t) => {
                lemma_type_plain(st, t, m);
                type_of(st, t, m)
            },
            GenericArg::Const(e) => {
                lemma_const_plain(st, e, m);
                const_or_fresh(st, e, m)
            },
        };
        lemma_args_plain(st1, args, i + 1, m, acc.push(t));
    }
}

proof fn lemma_types_plain(st: InferV, tys: Vec<Type>, i: nat, m: MappingV, acc: Seq<TyV>)
    requires
        plain_state(st),
        plain_mapping(m),
        simple_types_from(tys, i),
        plain_types(acc),
    ensures
        plain_state(types_from(st, tys, i, m, acc).0),
        plain_types(types_from(st, tys, i, m, acc).1),
    decreases tys, tys@.len() - i,
{
    if i < tys@.len() {
        lemma_type_plain(st, tys@[i as int], m);
        let (st1, t) = type_of(st, tys@[i as int], m);
        lemma_types_plain(st1, tys, i + 1, m, acc.push(t));
    }
}

/// A generic argument.
pub proof fn lemma_generic_arg_plain(st: InferV, args: Seq<GenericArg>, i: nat)
    requires
        plain_state(st),
        simple_args(args),
        i < args.len(),
    ensures
        plain_state(generic_arg_type(st, args[i as int]).0),
        plain(generic_arg_type(st, args[i as int]).1),
{
    assert(simple_arg(args[i as int]));
    match args[i as int] {
        GenericArg::Type(t) => lemma_type_plain(st, t, st.active),
        GenericArg::Const(e) => lemma_const_plain(st, e, st.active),
    }
}

pub proof fn lemma_simple_args(args: Vec<GenericArg>, i: nat)
    requires
        simple_args_from(args, i),
    ensures
        forall|k: int| i <= k < args@.len() ==> simple_arg(#[trigger] args@[k]),
    decreases args@.len() - i,
{
    if i < args@.len() {
        lemma_simple_args(args, i + 1);
    }
}

/// Fresh variables for generics.
pub proof fn lemma_fresh_plain(st: InferV, generics: Seq<GenericParam>, n: nat)
    requires
        plain_state(st),
        simple_generics(generics),
    ensures
        plain_state(fresh_for(st, generics, n).0),
        plain_mapping(fresh_for(st, generics, n).1),
    decreases n,
{
    if !(n == 0 || n > generics.len()) {
        lemma_fresh_plain(st, generics, (n - 1) as nat);
        assert(generics[n - 1] is Type);
    }
}

proof fn lemma_bounds_plain(st: InferV, bounds: Seq<Seq<char>>, i: nat, ty: TyV, span: Span)
    requires
        plain_state(st),
        plain(ty),
    ensures
        plain_state(bounds_demanded(st, bounds, i, ty, span)),
    decreases bounds.len() - i,
{
    if i < bounds.len() {
        lemma_demand_one(st, bounds[i as int], ty, span);
        let st1 = demanding(st, demand(bounds[i as int], ty, span));
        lemma_bounds_plain(st1, bounds, i + 1, ty, span);
    }
}

proof fn lemma_taken_plain(
    st: InferV,
    generics: Seq<GenericParam>,
    i: nat,
    m: MappingV,
    span: Span,
)
    requires
        plain_state(st),
        simple_generics(generics),
        plain_mapping(m),
        forall|k: int|
            0 <= k < generics.len() ==> m.contains_key((#[trigger] generics[k]).spec_name()),
    ensures
        plain_state(generics_taken(st, generics, i, m, span)),
    decreases generics.len() - i,
{
    if i < generics.len() {
        assert(generics[i as int] is Type);
        assert(m.contains_key(generics[i as int].spec_name()));
        if let GenericParam::Type { name, bounds, .. } = generics[i as int] {
            lemma_bounds_plain(st, views(bounds@), 0, m[name@], span);
            let st1 = bounds_demanded(st, views(bounds@), 0, m[name@], span);
            lemma_taken_plain(st1, generics, i + 1, m, span);
        }
    }
}

pub proof fn lemma_opened_plain(st: InferV, generics: Seq<GenericParam>, span: Span)
    requires
        plain_state(st),
        simple_generics(generics),
    ensures
        plain_state(generics_opened(st, generics, span).0),
        plain_mapping(generics_opened(st, generics, span).1),
        forall|k: int|
            0 <= k < generics.len() ==> generics_opened(st, generics, span).1.contains_key(
                (#[trigger] generics[k]).spec_name(),
            ),
{
    let (st1, m) = fresh_for(st, generics, generics.len());
    lemma_fresh_plain(st, generics, generics.len());
    assert forall|k: int| 0 <= k < generics.len() implies m.contains_key(
        (#[trigger] generics[k]).spec_name(),
    ) by {
        lemma_fresh_for_names(st, generics, generics.len(), k);
    }
    lemma_taken_plain(st1, generics, 0, m, span);
}

// ---- searching impls ----

/// The targets of an impl, tried on types.
proof fn lemma_targets_plain(
    st: InferV,
    targets: Vec<Type>,
    j: nat,
    query: Seq<TyV>,
    m: MappingV,
    trial: SubstV,
)
    requires
        plain_state(st),
        plain_types(query),
        plain_mapping(m),
        plain_subst(trial),
        forall|k: int| 0 <= k < targets@.len() ==> simple_type(#[trigger] targets@[k]),
    ensures
        plain_subst(targets_match(st, targets, j, query, m, trial).1),
    decreases targets@.len() - j,
{
    if j < targets@.len() && j < query.len() {
        let (st1, pattern) = type_of(st, targets@[j as int], m);
        lemma_type_plain(st, targets@[j as int], m);
        lemma_unify_keeps_plain(trial, pattern, query[j as int]);
        let s1 = unified(trial, pattern, query[j as int]).0;
        lemma_targets_plain(st1, targets, j + 1, query, m, s1);
    }
}

/// Whether each of the substitutions is plain.
pub open spec fn plain_substs(found: Seq<SubstV>) -> bool {
    forall|k: int| 0 <= k < found.len() ==> plain_subst(#[trigger] found[k])
}

proof fn lemma_match_plain(
    d: nat,
    st: InferV,
    entry: ImplEntry,
    algebra: Seq<char>,
    query: Seq<TyV>,
)
    requires
        plain_state(st),
        plain_types(query),
        simple_impl(entry),
    ensures
        impl_matches(d, st, entry, algebra, query).1 matches Some(x) ==> plain_subst(x),
{
    if !(entry.algebra@ != algebra || entry.targets@.len() != query.len()) {
        let g = entry.generics@;
        let (st1, m) = fresh_for(st, g, g.len());
        lemma_fresh_plain(st, g, g.len());
        lemma_targets_plain(st1, entry.targets, 0, query, m, st1.subst);
    }
}

proof fn lemma_matching_plain(
    d: nat,
    impls: Seq<ImplEntry>,
    st: InferV,
    i: nat,
    algebra: Seq<char>,
    query: Seq<TyV>,
    acc: Seq<SubstV>,
)
    requires
        plain_state(st),
        plain_types(query),
        plain_substs(acc),
        forall|k: int| 0 <= k < impls.len() ==> simple_impl(#[trigger] impls[k]),
    ensures
        plain_substs(matching_from(d, impls, st, i, algebra, query, acc).1),
    decreases impls.len() - i,
{
    if i < impls.len() {
        lemma_match_plain(d, st, impls[i as int], algebra, query);
        lemma_match_asks(d, st, impls[i as int], algebra, query);
        let (st1, found) = impl_matches(d, st, impls[i as int], algebra, query);
        let acc1 = match found {
            Some(x) => acc.push(x),
            None => acc,
        };
        assert forall|k: int| 0 <= k < acc1.len() implies plain_subst(#[trigger] acc1[k]) by {
            if k < acc.len() {
                assert(acc1[k] == acc[k]);
            }
        }
        lemma_matching_plain(d, impls, st1, i + 1, algebra, query, acc1);
    }
}

/// Looking for an impl.
pub proof fn lemma_impl_found_plain(st: InferV, algebra: Seq<char>, tys: Seq<TyV>)
    requires
        plain_state(st),
    ensures
        plain_state(impl_found(st, algebra, tys).0),
{
    lemma_search_learns_nothing(st, algebra, tys);
}

/// Committing to an impl.
pub proof fn lemma_dispatched_plain(st: InferV, algebra: Seq<char>, tys: Seq<TyV>, span: Span)
    requires
        plain_state(st),
        plain_types(tys),
    ensures
        plain_state(dispatched(st, algebra, tys, span).0),
{
    let d = SEARCH_DEPTH as nat;
    let impls = st.registry.impls@;
    lemma_matching_plain(d, impls, st, 0, algebra, tys, Seq::empty());
    lemma_matching_asks(d, impls, st, 0, algebra, tys, Seq::empty());
    let (st1, found) = matching_from(d, impls, st, 0, algebra, tys, Seq::empty());
    if found.len() > 0 {
        assert(plain_subst(found[0]));
    }
}

// ---- fields and methods ----

proof fn lemma_zipped_plain(generics: Seq<GenericParam>, tys: Seq<TyV>, n: nat)
    requires
        plain_types(tys),
    ensures
        plain_mapping(zipped(generics, tys, n)),
    decreases n,
{
    if !(n == 0 || n > generics.len() || n > tys.len()) {
        lemma_zipped_plain(generics, tys, (n - 1) as nat);
    }
}

pub proof fn lemma_field_plain(st: InferV, base: TyV, name: Seq<char>, span: Span)
    requires
        plain_state(st),
        plain(base),
    ensures
        plain_state(field_type(st, base, name, span).0),
        field_type(st, base, name, span).1 matches Ok(t) ==> plain(t),
{
    match base {
        TyV::Con(struct_name) => {
            lemma_found_is_simple(st.registry, struct_name, name);
            if let Some(s) = st.registry.struct_of(struct_name) {
                lemma_field_place(s.fields@, 0, name);
                if let Some(k) = field_from(s.fields@, 0, name) {
                    lemma_type_plain(st, s.fields@[k].ty, Map::empty());
                }
            }
        },
        TyV::App(struct_name, args) => {
            lemma_found_is_simple(st.registry, struct_name, name);
            if let Some(s) = st.registry.struct_of(struct_name) {
                lemma_field_place(s.fields@, 0, name);
                if let Some(k) = field_from(s.fields@, 0, name) {
                    let g = s.generics@;
                    assert(plain_types(args)) by {
                        assert forall|i: int| 0 <= i < args.len() implies plain(
                            #[trigger] args[i],
                        ) by {
                            lemma_plain_at(args, args.len(), i);
                        }
                    }
                    lemma_zipped_plain(g, args, lesser(g.len(), args.len()));
                    if g.len() > 0 {
                        assert(!g[g.len() - 1].spec_variadic());
                    }
                    lemma_type_plain(
                        st,
                        s.fields@[k].ty,
                        zipped(g, args, lesser(g.len(), args.len())),
                    );
                }
            }
        },
        _ => {},
    }
}

pub proof fn lemma_method_params_plain(
    st: InferV,
    params: Seq<Param>,
    i: nat,
    m: MappingV,
    target: TyV,
    acc: Seq<TyV>,
)
    requires
        plain_state(st),
        plain_mapping(m),
        plain(target),
        simple_params(params),
        plain_types(acc),
        acc.len() == i,
        i <= params.len(),
    ensures
        plain_state(method_params_from(st, params, i, m, target, acc).0),
        plain_types(method_params_from(st, params, i, m, target, acc).1),
        method_params_from(st, params, i, m, target, acc).1.len() == params.len(),
    decreases params.len() - i,
{
    if i < params.len() {
        assert(simple_option(params[i as int].ty));
        let (st1, t) = match params[i as int].ty {
            Some(t) => {
                lemma_type_plain(st, t, m);
                type_of(st, t, m)
            },
            None => if i == 0 {
                (st, target)
            } else {
                lemma_minted(st);
                (minted(st), next_var(st))
            },
        };
        lemma_method_params_plain(st1, params, i + 1, m, target, acc.push(t));
    }
}

/// The arguments of a call.
pub proof fn lemma_args_unified_plain(
    st: InferV,
    params: Seq<TyV>,
    off: nat,
    args: Seq<TyV>,
    spans: Seq<Span>,
    k: nat,
)
    requires
        plain_state(st),
        plain_types(params),
        plain_types(args),
        args_unified(st, params, off, args, spans, k).1 is Ok,
    ensures
        plain_state(args_unified(st, params, off, args, spans, k).0),
    decreases args.len() - k,
{
    if !(k >= args.len() || k >= spans.len() || off + k >= params.len()) {
        let (a, b) = (params[(off + k) as int], args[k as int]);
        lemma_unified_plain(st, spans[k as int], a, b);
        let st1 = unified_at(st, spans[k as int], a, b).0;
        lemma_args_unified_plain(st1, params, off, args, spans, k + 1);
    }
}

proof fn lemma_substituted_plain(t: TyV, m: Map<u32, TyV>)
    requires
        plain(t),
        forall|v: u32| #[trigger] m.contains_key(v) ==> plain(m[v]),
    ensures
        plain(substituted(t, m)),
    decreases t,
{
    match t {
        TyV::App(_, args) => {
            let parts = substituted_all(args, m);
            assert forall|i: int| 0 <= i < parts.len() implies plain(#[trigger] parts[i]) by {
                lemma_plain_at(args, args.len(), i);
                lemma_substituted_plain(args[i], m);
            }
            lemma_spliced_plain(parts);
            lemma_plain_all(parts, parts.len());
        },
        TyV::Fn(params, ret) => {
            let parts = substituted_all(params, m);
            assert forall|i: int| 0 <= i < parts.len() implies plain(#[trigger] parts[i]) by {
                lemma_plain_at(params, params.len(), i);
                lemma_substituted_plain(params[i], m);
            }
            lemma_plain_all(parts, parts.len());
            lemma_substituted_plain(*ret, m);
        },
        TyV::Array(elem, size) => {
            lemma_substituted_plain(*elem, m);
            lemma_substituted_plain(*size, m);
        },
        _ => {},
    }
}

proof fn lemma_pattern_vars_plain(generics: Seq<(Seq<char>, TyV)>, n: nat, m: MappingV)
    requires
        plain_mapping(m),
    ensures
        forall|v: u32| #[trigger]
            pattern_vars(generics, n, m).contains_key(v) ==> plain(pattern_vars(generics, n, m)[v]),
    decreases n,
{
    if !(n == 0 || n > generics.len()) {
        lemma_pattern_vars_plain(generics, (n - 1) as nat, m);
        let before = pattern_vars(generics, (n - 1) as nat, m);
        let now = pattern_vars(generics, n, m);
        let name = generics[n - 1].0;
        assert forall|v: u32| #[trigger] now.contains_key(v) implies plain(now[v]) by {
            if before.contains_key(v) {
            }
            if m.contains_key(name) {
                assert(plain(m[name]));
            }
        }
    }
}

pub proof fn lemma_method_call_plain(
    st: InferV,
    base: TyV,
    name: Seq<char>,
    arg_tys: Seq<TyV>,
    arg_spans: Seq<Span>,
    base_span: Span,
    call_span: Span,
)
    requires
        plain_state(st),
        plain(base),
        plain_types(arg_tys),
        method_call_type(st, base, name, arg_tys, arg_spans, base_span, call_span).1 is Ok,
    ensures
        plain_state(method_call_type(st, base, name, arg_tys, arg_spans, base_span, call_span).0),
        plain(
            method_call_type(
                st,
                base,
                name,
                arg_tys,
                arg_spans,
                base_span,
                call_span,
            ).1->Ok_0,
        ),
{
    let struct_name = crate::infer_calls::struct_name_of(base)->0;
    lemma_found_is_simple(st.registry, struct_name, name);
    let entry = st.registry.method_of(struct_name, name)->0;
    let params = entry.method.params@;
    lemma_opened_plain(st, entry.generics@, call_span);
    let (st1, m) = generics_opened(st, entry.generics@, call_span);
    lemma_type_plain(st1, entry.target, m);
    let (st2, target) = type_of(st1, entry.target, m);
    lemma_method_params_plain(st2, params, 0, m, target, Seq::empty());
    let (st3, param_tys) = method_params_from(st2, params, 0, m, target, Seq::empty());
    lemma_unified_plain(st3, base_span, param_tys[0], base);
    let st4 = unified_at(st3, base_span, param_tys[0], base).0;
    lemma_args_unified_plain(st4, param_tys, 1, arg_tys, arg_spans, 0);
    let st5 = args_unified(st4, param_tys, 1, arg_tys, arg_spans, 0).0;
    match entry.method.ret {
        Some(t) => {
            lemma_type_plain(st5, t, m);
        },
        None => {
            if let Some(p) = st5.patterns {
                if p.contains_key((struct_name, name)) {
                    let pattern = p[(struct_name, name)];
                    lemma_pattern_vars_plain(pattern.generics, pattern.generics.len(), m);
                    lemma_substituted_plain(
                        pattern.ret,
                        pattern_vars(pattern.generics, pattern.generics.len(), m),
                    );
                }
            }
        },
    }
}

// ---- calls of algebra functions ----

pub proof fn lemma_pinned_plain(
    st: InferV,
    generics: Seq<GenericParam>,
    args: Seq<GenericArg>,
    i: nat,
    m: MappingV,
    span: Span,
)
    requires
        plain_state(st),
        plain_mapping(m),
        simple_args(args),
        forall|k: int|
            0 <= k < generics.len() ==> m.contains_key((#[trigger] generics[k]).spec_name()),
        generics_pinned(st, generics, args, i, m, span).1 is Ok,
    ensures
        plain_state(generics_pinned(st, generics, args, i, m, span).0),
    decreases generics.len() - i,
{
    if !(i >= generics.len() || i >= args.len()) {
        lemma_generic_arg_plain(st, args, i);
        let (st1, t) = generic_arg_type(st, args[i as int]);
        let own = m[generics[i as int].spec_name()];
        assert(m.contains_key(generics[i as int].spec_name()));
        lemma_unified_plain(st1, span, own, t);
        let st2 = unified_at(st1, span, own, t).0;
        lemma_pinned_plain(st2, generics, args, i + 1, m, span);
    }
}

pub proof fn lemma_param_types_plain(
    st: InferV,
    params: Seq<Param>,
    i: nat,
    m: MappingV,
    acc: Seq<TyV>,
)
    requires
        plain_state(st),
        plain_mapping(m),
        simple_params(params),
        plain_types(acc),
    ensures
        plain_state(param_types_from(st, params, i, m, acc).0),
        plain_types(param_types_from(st, params, i, m, acc).1),
    decreases params.len() - i,
{
    if i < params.len() {
        assert(simple_option(params[i as int].ty));
        let (st1, t) = match params[i as int].ty {
            Some(t) => {
                lemma_type_plain(st, t, m);
                type_of(st, t, m)
            },
            None => {
                lemma_minted(st);
                (minted(st), next_var(st))
            },
        };
        lemma_param_types_plain(st1, params, i + 1, m, acc.push(t));
    }
}

proof fn lemma_known_plain(
    st: InferV,
    generics: Seq<GenericParam>,
    n: nat,
    m: MappingV,
    mentioned: Seq<u32>,
)
    requires
        plain_state(st),
        plain_mapping(m),
        forall|k: int|
            0 <= k < generics.len() ==> m.contains_key((#[trigger] generics[k]).spec_name()),
    ensures
        plain_types(generics_known(st, generics, n, m, mentioned).0),
    decreases n,
{
    if !(n == 0 || n > generics.len()) {
        lemma_known_plain(st, generics, (n - 1) as nat, m, mentioned);
        assert(m.contains_key(generics[n - 1].spec_name()));
        if let GenericParam::Type { name, .. } = generics[n - 1] {
            lemma_shown_plain(st, m[name@]);
        }
    }
}

proof fn lemma_settled_call_plain(
    st: InferV,
    algebra: Seq<char>,
    tys: Seq<TyV>,
    gating: Seq<usize>,
    span: Span,
)
    requires
        plain_state(st),
        plain_types(tys),
        call_settled(st, algebra, tys, gating, span).1 is Ok,
    ensures
        plain_state(call_settled(st, algebra, tys, gating, span).0),
{
    let c = ConstraintV { algebra, tys, gating, span };
    lemma_demanding(st, c);
    lemma_dispatched_plain(st, algebra, tys, span);
    let st1 = dispatched(st, algebra, tys, span).0;
    lemma_demanding(st1, c);
}

pub proof fn lemma_algebra_call_plain(
    st: InferV,
    call_span: Span,
    algebra: Seq<char>,
    name: Seq<char>,
    arg_tys: Seq<TyV>,
    arg_spans: Seq<Span>,
    explicit: Seq<GenericArg>,
)
    requires
        plain_state(st),
        plain_types(arg_tys),
        simple_args(explicit),
        algebra_call_type(st, call_span, algebra, name, arg_tys, arg_spans, explicit).1 is Ok,
    ensures
        plain_state(algebra_call_type(st, call_span, algebra, name, arg_tys, arg_spans, explicit).0),
        plain(
            algebra_call_type(
                st,
                call_span,
                algebra,
                name,
                arg_tys,
                arg_spans,
                explicit,
            ).1->Ok_0,
        ),
{
    lemma_found_is_simple(st.registry, algebra, name);
    let sig = st.registry.sig_of(algebra, name)->0;
    let generics = st.registry.generics_of(algebra);
    lemma_fresh_plain(st, generics, generics.len());
    let (st1, m) = fresh_for(st, generics, generics.len());
    assert forall|k: int| 0 <= k < generics.len() implies m.contains_key(
        (#[trigger] generics[k]).spec_name(),
    ) by {
        lemma_fresh_for_names(st, generics, generics.len(), k);
    }
    lemma_pinned_plain(st1, generics, explicit, 0, m, call_span);
    let st2 = generics_pinned(st1, generics, explicit, 0, m, call_span).0;
    lemma_param_types_plain(st2, sig.params@, 0, m, Seq::empty());
    let (st3, param_tys) = param_types_from(st2, sig.params@, 0, m, Seq::empty());
    if let Some(t) = sig.ret {
        lemma_type_plain(st3, t, m);
    }
    let (st4, ret) = declared_result(st3, sig.ret, m);
    lemma_args_unified_plain(st4, param_tys, 0, arg_tys, arg_spans, 0);
    let st5 = args_unified(st4, param_tys, 0, arg_tys, arg_spans, 0).0;
    let (tys, gating) = generics_known(
        st5,
        generics,
        generics.len(),
        m,
        crate::types::free_of(param_tys),
    );
    lemma_known_plain(st5, generics, generics.len(), m, crate::types::free_of(param_tys));
    lemma_settled_call_plain(st5, algebra, tys, gating, call_span);
    let st6 = call_settled(st5, algebra, tys, gating, call_span).0;
    lemma_shown_plain(st6, ret);
}

// ---- indexing ----

proof fn lemma_element_plain(st: InferV, current: TyV, spans: Seq<Span>, k: nat)
    requires
        plain_state(st),
        plain(current),
        element_from(st, current, spans, k).1 is Ok,
    ensures
        element_from(st, current, spans, k).0 == st,
        plain(element_from(st, current, spans, k).1->Ok_0),
    decreases spans.len() - k,
{
    lemma_shown_plain(st, current);
    if k < spans.len() {
        if let TyV::Array(elem, _) = applied(st.subst, current) {
            lemma_element_plain(st, *elem, spans, k + 1);
        }
    }
}

proof fn lemma_indices_unified_plain(
    st: InferV,
    elem: TyV,
    tys: Seq<TyV>,
    spans: Seq<Span>,
    k: nat,
)
    requires
        plain_state(st),
        plain(elem),
        plain_types(tys),
        indices_unified(st, elem, tys, spans, k).1 is Ok,
    ensures
        plain_state(indices_unified(st, elem, tys, spans, k).0),
    decreases tys.len() - k,
{
    if !(k >= tys.len() || k >= spans.len()) {
        lemma_unified_plain(st, spans[k as int], elem, tys[k as int]);
        let st1 = unified_at(st, spans[k as int], elem, tys[k as int]).0;
        lemma_indices_unified_plain(st1, elem, tys, spans, k + 1);
    }
}

pub proof fn lemma_index_plain(
    st: InferV,
    base: TyV,
    index_tys: Seq<TyV>,
    index_spans: Seq<Span>,
    base_span: Span,
    expr_span: Span,
)
    requires
        plain_state(st),
        plain(base),
        plain_types(index_tys),
        index_type(st, base, index_tys, index_spans, base_span, expr_span).1 is Ok,
    ensures
        plain_state(index_type(st, base, index_tys, index_spans, base_span, expr_span).0),
        plain(index_type(st, base, index_tys, index_spans, base_span, expr_span).1->Ok_0),
{
    match base {
        TyV::Array(_, _) => lemma_element_plain(st, base, index_spans, 0),
        _ => {
            let elem = next_var(st);
            lemma_minted(st);
            lemma_indices_unified_plain(minted(st), elem, index_tys, index_spans, 0);
            let st1 = indices_unified(minted(st), elem, index_tys, index_spans, 0).0;
            let size = TyV::Const(ConstValue::Int(index_tys.len() as u64));
            let array = TyV::Array(Box::new(elem), Box::new(size));
            assert(plain(size));
            let candidates = crate::registry::declaring_from(st.registry, 0, "index"@, 2);
            let args = seq![base, array];
            assert(plain(array));
            assert forall|i: int| 0 <= i < args.len() implies plain(#[trigger] args[i]) by {
                assert(args[0] == base && args[1] == array);
            }
            if candidates.len() == 1 {
                let spans = seq![base_span, expr_span];
                lemma_algebra_call_plain(
                    st1,
                    expr_span,
                    candidates[0],
                    "index"@,
                    args,
                    spans,
                    Seq::empty(),
                );
            }
        },
    }
}

// ---- schemes ----

proof fn lemma_constraints_on_plain(s: SubstV, cs: Seq<ConstraintV>, n: nat, vars: Seq<u32>)
    requires
        plain_subst(s),
        plain_constraints(cs),
    ensures
        plain_constraints(constraints_on(s, cs, n, vars)),
    decreases n,
{
    if !(n == 0 || n > cs.len()) {
        lemma_constraints_on_plain(s, cs, (n - 1) as nat, vars);
        lemma_applied_all_plain(s, cs[n - 1].tys);
        let before = constraints_on(s, cs, (n - 1) as nat, vars);
        let now = constraints_on(s, cs, n, vars);
        assert forall|i: int| 0 <= i < now.len() implies plain_types((#[trigger] now[i]).tys) by {
            if i < before.len() {
                assert(now[i] == before[i]);
            }
        }
    }
}

proof fn lemma_no_width(s: SubstV, k: nat, v: u32)
    requires
        plain_subst(s),
    ensures
        width_from(s, k, v) is None,
    decreases s.bindings.len() - k,
{
    crate::subst::lemma_bound_at(s.bindings, k, v);
    if let Some(i) = crate::subst::bound_at(s.bindings, k, v) {
        if let TyV::Var(w) = s.bindings[i as int].1 {
            lemma_no_width(s, i + 1, w);
        }
    }
}

proof fn lemma_no_widths(s: SubstV, vars: Seq<u32>, n: nat)
    requires
        plain_subst(s),
    ensures
        widths_of(s, vars, n).len() == 0,
    decreases n,
{
    if !(n == 0 || n > vars.len()) {
        lemma_no_widths(s, vars, (n - 1) as nat);
        lemma_no_width(s, 0, vars[n - 1]);
    }
}

/// Generalizing.
pub proof fn lemma_generalized_plain(st: InferV, env: EnvV, ty: TyV)
    requires
        plain_state(st),
        plain(ty),
        generalized(st, env, ty).1 is Ok,
    ensures
        plain_state(generalized(st, env, ty).0),
        plain_scheme(generalized(st, env, ty).1->Ok_0),
{
    let scheme = generalized(st, env, ty).1->Ok_0;
    lemma_shown_plain(st, ty);
    lemma_constraints_on_plain(st.subst, st.constraints, st.constraints.len(), scheme.vars);
    lemma_no_widths(st.subst, scheme.vars, scheme.vars.len());
}

proof fn lemma_fresh_each_plain(st: InferV, vars: Seq<u32>, n: nat)
    requires
        plain_state(st),
        n <= vars.len(),
    ensures
        plain_state(fresh_each(st, vars, n).0),
        forall|v: u32| #[trigger]
            fresh_each(st, vars, n).1.contains_key(v) ==> fresh_each(st, vars, n).1[v] is Var,
        forall|k: int| 0 <= k < n ==> fresh_each(st, vars, n).1.contains_key(#[trigger] vars[k]),
    decreases n,
{
    if n > 0 {
        lemma_fresh_each_plain(st, vars, (n - 1) as nat);
        lemma_minted(fresh_each(st, vars, (n - 1) as nat).0);
    }
}

proof fn lemma_demands_renamed_plain(
    st: InferV,
    cs: Seq<ConstraintV>,
    k: nat,
    m: Map<u32, TyV>,
)
    requires
        plain_state(st),
        plain_constraints(cs),
        forall|v: u32| #[trigger] m.contains_key(v) ==> m[v] is Var,
    ensures
        plain_state(demands_renamed(st, cs, k, m)),
    decreases cs.len() - k,
{
    if k < cs.len() {
        let c = cs[k as int];
        let c1 = ConstraintV { tys: substituted_all(c.tys, m), ..c };
        assert forall|i: int| 0 <= i < c1.tys.len() implies plain(#[trigger] c1.tys[i]) by {
            assert(plain_types(cs[k as int].tys));
            lemma_substituted_plain(c.tys[i], m);
        }
        lemma_demanding(st, c1);
        let st1 = demanding(st, c1);
        lemma_demands_renamed_plain(st1, cs, k + 1, m);
    }
}

/// Using a scheme.
pub proof fn lemma_instantiated_plain(st: InferV, s: SchemeV)
    requires
        plain_state(st),
        plain_scheme(s),
    ensures
        plain_state(instantiated(st, s).0),
        plain(instantiated(st, s).1),
        forall|k: int|
            0 <= k < s.vars.len() ==> instantiated(st, s).2.contains_key(#[trigger] s.vars[k]),
        forall|v: u32| #[trigger]
            instantiated(st, s).2.contains_key(v) ==> plain(instantiated(st, s).2[v]),
{
    let (st1, m) = fresh_each(st, s.vars, s.vars.len());
    lemma_fresh_each_plain(st, s.vars, s.vars.len());
    lemma_demands_renamed_plain(st1, s.constraints, 0, m);
    let st2 = demands_renamed(st1, s.constraints, 0, m);
    assert(widths_renamed(st2, s.widths, 0, m) == st2);
    lemma_substituted_plain(s.ty, m);
}

} // verus!
