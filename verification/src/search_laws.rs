//! Looking for an impl changes nothing of what is known.

use vstd::prelude::*;

use crate::ast::{Expr, ExprKind, GenericArg, GenericParam, Span, Type, TypeKind};
use crate::errors::TypeErrorV;
use crate::infer_impls::{
    any_heir, bounds_met, dispatched, every_bound, generics_met, heirs_from, impl_direct,
    impl_exists, impl_found, impl_matches, matching_from, targets_match, SEARCH_DEPTH,
};
use crate::infer_state::{InferV, MappingV};
use crate::infer_types::{
    const_of, const_or_fresh, fresh_for, misnamed, path_name, type_args_from, type_of,
    types_from,
};
use crate::registry::ImplEntry;
use crate::subst::{applied, SubstV};
use crate::table::views;
use crate::ty::TyV;
use crate::unify::unified;

verus! {

/// Whether nothing was learned on the way from one state to another: only variables were
/// handed out, and checks of names and of divisions in types put off.
pub open spec fn only_asks(a: InferV, b: InferV) -> bool {
    b == (InferV {
        next_var: b.next_var,
        type_names: b.type_names,
        divs: b.divs,
        ..a
    })
}

/// Reading a type learns nothing.
pub proof fn lemma_type_asks(st: InferV, t: Type, m: MappingV)
    ensures
        only_asks(st, type_of(st, t, m).0),
    decreases t, 0nat,
{
    match t.kind {
        TypeKind::Path(p, args) => {
            let name = path_name(p);
            if !m.contains_key(name) {
                let st1 = if misnamed(st, name) {
                    InferV { type_names: st.type_names.push((name, t.span)), ..st }
                } else {
                    st
                };
                lemma_args_ask(st1, args, 0, m, Seq::empty());
            }
        },
        TypeKind::Array(elem, size) => {
            lemma_type_asks(st, *elem, m);
            lemma_const_asks(type_of(st, *elem, m).0, *size, m);
        },
        TypeKind::Fn(params, ret) => {
            lemma_types_ask(st, params, 0, m, Seq::empty());
            lemma_type_asks(types_from(st, params, 0, m, Seq::empty()).0, *ret, m);
        },
        _ => {},
    }
}

/// Reading a constant learns nothing.
pub proof fn lemma_const_asks(st: InferV, e: Expr, m: MappingV)
    ensures
        only_asks(st, const_of(st, e, m).0),
    decreases e, 0nat,
{
    match e.kind {
        ExprKind::Call(path, _, args, _) => {
            if path.segments@.len() == 1 && args@.len() == 2 {
                lemma_const_asks(st, args@[0], m);
                let st1 = const_of(st, args@[0], m).0;
                lemma_const_asks(st1, args@[1], m);
            }
        },
        _ => {},
    }
}

proof fn lemma_args_ask(
    st: InferV,
    args: Vec<GenericArg>,
    i: nat,
    m: MappingV,
    acc: Seq<TyV>,
)
    ensures
        only_asks(st, type_args_from(st, args, i, m, acc).0),
    decreases args, args@.len() - i,
{
    if i < args@.len() {
        let (st1, t) = match args@[i as int] {
            GenericArg::Type(t) => {
                lemma_type_asks(st, t, m);
                type_of(st, t, m)
            },
            GenericArg::Const(e) => {
                lemma_const_asks(st, e, m);
                const_or_fresh(st, e, m)
            },
        };
        lemma_args_ask(st1, args, i + 1, m, acc.push(t));
    }
}

proof fn lemma_types_ask(st: InferV, tys: Vec<Type>, i: nat, m: MappingV, acc: Seq<TyV>)
    ensures
        only_asks(st, types_from(st, tys, i, m, acc).0),
    decreases tys, tys@.len() - i,
{
    if i < tys@.len() {
        lemma_type_asks(st, tys@[i as int], m);
        let (st1, t) = type_of(st, tys@[i as int], m);
        lemma_types_ask(st1, tys, i + 1, m, acc.push(t));
    }
}

/// Handing out variables for generics learns nothing.
pub proof fn lemma_fresh_asks(st: InferV, generics: Seq<GenericParam>, n: nat)
    ensures
        only_asks(st, fresh_for(st, generics, n).0),
    decreases n,
{
    if !(n == 0 || n > generics.len()) {
        lemma_fresh_asks(st, generics, (n - 1) as nat);
    }
}

pub proof fn lemma_targets_ask(
    st: InferV,
    targets: Vec<Type>,
    j: nat,
    query: Seq<TyV>,
    m: MappingV,
    trial: SubstV,
)
    ensures
        only_asks(st, targets_match(st, targets, j, query, m, trial).0),
    decreases targets@.len() - j,
{
    if j < targets@.len() && j < query.len() {
        let (st1, pattern) = type_of(st, targets@[j as int], m);
        lemma_type_asks(st, targets@[j as int], m);
        let s1 = unified(trial, pattern, query[j as int]).0;
        lemma_targets_ask(st1, targets, j + 1, query, m, s1);
    }
}

proof fn lemma_exists_asks(
    d: nat,
    st: InferV,
    algebra: Seq<char>,
    tys: Seq<TyV>,
    asked: Seq<Seq<char>>,
)
    ensures
        only_asks(st, impl_exists(d, st, algebra, tys, asked).0),
    decreases d, 4nat, 0nat,
{
    if !(d == 0 || asked.contains(algebra)) {
        let own = asked.push(algebra);
        lemma_direct_asks(d, st, algebra, tys);
        let st1 = impl_direct(d, st, algebra, tys).0;
        let heirs = heirs_from(st.registry, 0, algebra);
        lemma_heirs_ask(d, st1, heirs, 0, tys, own);
        let st2 = any_heir(d, st1, heirs, 0, tys, own).0;
        lemma_bounds_ask(d, st2, st.registry.bounds_of(algebra), 0, tys, own);
    }
}

proof fn lemma_heirs_ask(
    d: nat,
    st: InferV,
    names: Seq<Seq<char>>,
    k: nat,
    tys: Seq<TyV>,
    asked: Seq<Seq<char>>,
)
    ensures
        only_asks(st, any_heir(d, st, names, k, tys, asked).0),
    decreases d, 3nat, names.len() - k,
{
    if !(k >= names.len() || d == 0) {
        lemma_exists_asks((d - 1) as nat, st, names[k as int], tys, asked);
        let st1 = impl_exists((d - 1) as nat, st, names[k as int], tys, asked).0;
        lemma_heirs_ask(d, st1, names, k + 1, tys, asked);
    }
}

proof fn lemma_bounds_ask(
    d: nat,
    st: InferV,
    names: Seq<Seq<char>>,
    k: nat,
    tys: Seq<TyV>,
    asked: Seq<Seq<char>>,
)
    ensures
        only_asks(st, every_bound(d, st, names, k, tys, asked).0),
    decreases d, 3nat, names.len() - k,
{
    if !(k >= names.len() || d == 0) {
        lemma_exists_asks((d - 1) as nat, st, names[k as int], tys, asked);
        let st1 = impl_exists((d - 1) as nat, st, names[k as int], tys, asked).0;
        lemma_bounds_ask(d, st1, names, k + 1, tys, asked);
    }
}

proof fn lemma_direct_asks(d: nat, st: InferV, algebra: Seq<char>, tys: Seq<TyV>)
    ensures
        only_asks(st, impl_direct(d, st, algebra, tys).0),
    decreases d, 3nat, 0nat,
{
    lemma_matching_asks(d, st.registry.impls@, st, 0, algebra, tys, Seq::empty());
}

pub proof fn lemma_matching_asks(
    d: nat,
    impls: Seq<ImplEntry>,
    st: InferV,
    i: nat,
    algebra: Seq<char>,
    query: Seq<TyV>,
    acc: Seq<SubstV>,
)
    ensures
        only_asks(st, matching_from(d, impls, st, i, algebra, query, acc).0),
    decreases d, 2nat, impls.len() - i,
{
    if i < impls.len() {
        lemma_match_asks(d, st, impls[i as int], algebra, query);
        let (st1, found) = impl_matches(d, st, impls[i as int], algebra, query);
        let acc1 = match found {
            Some(s) => acc.push(s),
            None => acc,
        };
        lemma_matching_asks(d, impls, st1, i + 1, algebra, query, acc1);
    }
}

pub proof fn lemma_match_asks(
    d: nat,
    st: InferV,
    entry: ImplEntry,
    algebra: Seq<char>,
    query: Seq<TyV>,
)
    ensures
        only_asks(st, impl_matches(d, st, entry, algebra, query).0),
    decreases d, 1nat, 0nat,
{
    let g = entry.generics@;
    lemma_fresh_asks(st, g, g.len());
    let (st1, m) = fresh_for(st, g, g.len());
    lemma_targets_ask(st1, entry.targets, 0, query, m, st1.subst);
    let (st2, trial, _) = targets_match(st1, entry.targets, 0, query, m, st1.subst);
    lemma_generics_ask(d, st2, g, 0, m, trial);
}

proof fn lemma_generics_ask(
    d: nat,
    st: InferV,
    generics: Seq<GenericParam>,
    i: nat,
    m: MappingV,
    trial: SubstV,
)
    ensures
        only_asks(st, generics_met(d, st, generics, i, m, trial).0),
    decreases d, 0nat, generics.len() - i,
{
    if !(i >= generics.len() || d == 0) {
        match generics[i as int] {
            GenericParam::Type { name, bounds, .. } => {
                let t = applied(trial, m[name@]);
                lemma_met_asks((d - 1) as nat, st, views(bounds@), 0, t);
                let st1 = bounds_met((d - 1) as nat, st, views(bounds@), 0, t).0;
                lemma_generics_ask(d, st1, generics, i + 1, m, trial);
            },
            GenericParam::Const { .. } => lemma_generics_ask(d, st, generics, i + 1, m, trial),
        }
    }
}

proof fn lemma_met_asks(d: nat, st: InferV, bounds: Seq<Seq<char>>, k: nat, ty: TyV)
    ensures
        only_asks(st, bounds_met(d, st, bounds, k, ty).0),
    decreases d, 5nat, bounds.len() - k,
{
    if k < bounds.len() {
        lemma_exists_asks(d, st, bounds[k as int], seq![ty], Seq::empty());
        let st1 = impl_exists(d, st, bounds[k as int], seq![ty], Seq::empty()).0;
        lemma_met_asks(d, st1, bounds, k + 1, ty);
    }
}

/// Asking whether an algebra has an impl for types learns nothing, whether one is found or
/// not: no variable is bound, nothing is demanded, and no node gets a type.
pub proof fn lemma_search_learns_nothing(st: InferV, algebra: Seq<char>, tys: Seq<TyV>)
    ensures
        only_asks(st, impl_found(st, algebra, tys).0),
{
    lemma_exists_asks(SEARCH_DEPTH as nat, st, algebra, tys, Seq::empty());
}

/// A call that is dispatched to no impl, or that impls disagree on, learns nothing. One that
/// is dispatched changes nothing but what is bound.
pub proof fn lemma_dispatch_learns_bindings_only(
    st: InferV,
    algebra: Seq<char>,
    tys: Seq<TyV>,
    span: Span,
)
    ensures
        ({
            let (st1, r) = dispatched(st, algebra, tys, span);
            &&& r != Ok::<bool, TypeErrorV>(true) ==> only_asks(st, st1)
            &&& only_asks(st, (InferV { subst: st.subst, ..st1 }))
        }),
{
    lemma_matching_asks(
        SEARCH_DEPTH as nat,
        st.registry.impls@,
        st,
        0,
        algebra,
        tys,
        Seq::empty(),
    );
}

} // verus!
