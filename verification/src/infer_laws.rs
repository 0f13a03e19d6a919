//! What holds of schemes, of calls and of constraints.

use vstd::prelude::*;

use crate::apply_laws::{lemma_spliced_none, lemma_substitute_is_apply, packless};
use crate::ast::{Expr, GenericArg, Span, Stmt};
use crate::errors::{error_at, TypeErrorKindV, TypeErrorV};
use crate::infer_calls::{algebra_call_type, gates_concrete, missing_impl};
use crate::infer_expr::{
    bound_scheme, let_checked, name_type, named_call_type, syntactic_value,
};
use crate::infer_impls::impl_found;
use crate::infer_pending::{
    checkable_types, constraint_checked, placeholder_among, quantified_among, widened,
};
use crate::infer_schemes::{
    constraints_on, demands_renamed, fresh_each, free_in_env, generalized, instantiated, own_vars,
    shares_var, widths_renamed,
};
use crate::infer_state::{demanding, mono, next_var, ConstraintV, EnvV, InferV, SchemeV};
use crate::infer_types::width_given;
use crate::registry::declaring_from;
use crate::subst::{applied, applied_all, applied_from, SubstV};
use crate::ty::TyV;
use crate::types::{
    all_concrete, folded, free_of, lemma_free_vars, mentions, mentions_first, substituted, substituted_all,
    with_free,
};

verus! {

// ---- what may be generalized ----

/// A mutable binding is never generalized, whatever its value looks like.
pub proof fn lemma_mutable_is_not_generalized(st: InferV, env: EnvV, value: Expr, t: TyV)
    ensures
        bound_scheme(st, env, true, value, t) == (st, Ok::<SchemeV, TypeErrorV>(mono(t))),
{
}

/// A binding to a bare number is not generalized.
pub proof fn lemma_number_is_not_generalized(
    st: InferV,
    env: EnvV,
    mutable: bool,
    value: Expr,
    t: TyV,
)
    requires
        value.kind is NumberLit || value.kind is ImaginaryLit,
    ensures
        bound_scheme(st, env, mutable, value, t) == (st, Ok::<SchemeV, TypeErrorV>(mono(t))),
{
}

/// After a `let` that is checked, the name stands for a scheme that can be chosen
/// from only if the binding is not mutable and its value is one as it stands.
pub proof fn lemma_let_generalizes_values_only(st: InferV, env: EnvV, s: Stmt)
    requires
        s.kind is Let,
        let_checked(st, env, s).1 is Ok,
    ensures
        let_checked(st, env, s).1->Ok_0.contains_key(s.kind->name@),
        s.kind->mutable || !syntactic_value(s.kind->Let_value) ==> let_checked(
            st,
            env,
            s,
        ).1->Ok_0[s.kind->name@].vars.len() == 0,
        forall|n: Seq<char>|
            n != s.kind->name@ ==> (#[trigger] let_checked(st, env, s).1->Ok_0.contains_key(n)
                <==> env.contains_key(n)),
{
}

// ---- what a scheme quantifies ----

proof fn lemma_own_vars(s: SubstV, env: EnvV, fv: Seq<u32>, n: nat, v: u32)
    requires
        n <= fv.len(),
    ensures
        own_vars(s, env, fv, n).contains(v) <==> !free_in_env(s, env, v) && exists|i: int|
            0 <= i < n && #[trigger] fv[i] == v,
    decreases n,
{
    if n > 0 {
        let before = own_vars(s, env, fv, (n - 1) as nat);
        let now = own_vars(s, env, fv, n);
        lemma_own_vars(s, env, fv, (n - 1) as nat, v);
        if !free_in_env(s, env, fv[n - 1]) {
            assert(now.last() == fv[n - 1]);
            if before.contains(v) {
                let i = before.index_of(v);
                assert(now[i] == v);
            }
            if now.contains(v) {
                let i = now.index_of(v);
                if i < before.len() {
                    assert(before[i] == v);
                }
            }
        }
    }
}

/// A scheme quantifies exactly the variables of its type that are free in the type of
/// no name in scope.
pub proof fn lemma_generalized_quantifies(st: InferV, env: EnvV, ty: TyV, v: u32)
    requires
        generalized(st, env, ty).1 is Ok,
    ensures
        generalized(st, env, ty).1->Ok_0.ty == applied(st.subst, ty),
        generalized(st, env, ty).1->Ok_0.vars.contains(v) <==> mentions(
            applied(st.subst, ty),
            v,
        ) && !free_in_env(st.subst, env, v),
{
    let t = applied(st.subst, ty);
    let fv = with_free(t, Seq::empty());
    lemma_free_vars(t, Seq::empty());
    lemma_own_vars(st.subst, env, fv, fv.len(), v);
    assert(fv.contains(v) <==> mentions(t, v));
}

proof fn lemma_constraints_on(s: SubstV, cs: Seq<ConstraintV>, n: nat, vars: Seq<u32>, i: int)
    requires
        0 <= i < constraints_on(s, cs, n, vars).len(),
    ensures
        shares_var(free_of(constraints_on(s, cs, n, vars)[i].tys), vars),
    decreases n,
{
    if !(n == 0 || n > cs.len()) {
        let before = constraints_on(s, cs, (n - 1) as nat, vars);
        if i < before.len() {
            lemma_constraints_on(s, cs, (n - 1) as nat, vars, i);
        }
    }
}

/// Every constraint of a scheme speaks of a variable that it quantifies.
pub proof fn lemma_scheme_constraints(st: InferV, env: EnvV, ty: TyV, i: int)
    requires
        generalized(st, env, ty).1 is Ok,
        0 <= i < generalized(st, env, ty).1->Ok_0.constraints.len(),
    ensures
        shares_var(
            free_of(generalized(st, env, ty).1->Ok_0.constraints[i].tys),
            generalized(st, env, ty).1->Ok_0.vars,
        ),
{
    let s = generalized(st, env, ty).1->Ok_0;
    lemma_constraints_on(st.subst, st.constraints, st.constraints.len(), s.vars, i);
}

// ---- what an instance of a scheme is ----

/// The fresh variables are above all that were made before, and differ from one
/// another.
proof fn lemma_fresh_each(st: InferV, vars: Seq<u32>, n: nat)
    requires
        n <= vars.len(),
        st.next_var + n <= u32::MAX,
    ensures
        ({
            let (st1, m) = fresh_each(st, vars, n);
            &&& st1.next_var == st.next_var + n
            &&& forall|v: u32| #[trigger]
                m.contains_key(v) <==> exists|i: int| 0 <= i < n && #[trigger] vars[i] == v
            &&& forall|v: u32| #[trigger]
                m.contains_key(v) ==> (m[v] matches TyV::Var(w) && st.next_var <= w
                    < st.next_var + n)
            &&& forall|v: u32, w: u32| #[trigger]
                m.contains_key(v) && #[trigger] m.contains_key(w) && v != w ==> m[v] != m[w]
        }),
    decreases n,
{
    if n > 0 {
        lemma_fresh_each(st, vars, (n - 1) as nat);
        let m0 = fresh_each(st, vars, (n - 1) as nat).1;
        let m = fresh_each(st, vars, n).1;
        assert forall|v: u32| #[trigger] m.contains_key(v) <==> exists|i: int|
            0 <= i < n && #[trigger] vars[i] == v by {
            if m0.contains_key(v) {
                let i = choose|i: int| 0 <= i < n - 1 && #[trigger] vars[i] == v;
                assert(vars[i] == v);
            }
            assert(vars[n - 1] == vars[n - 1]);
        }
    }
}

/// A type without packs whose variables are renamed mentions the new names, and those of its
/// variables that were not renamed.
proof fn lemma_renamed_mentions(t: TyV, m: Map<u32, TyV>, w: u32)
    requires
        packless(t),
        forall|v: u32| #[trigger] m.contains_key(v) ==> m[v] is Var,
    ensures
        packless(substituted(t, m)),
        mentions(substituted(t, m), w) <==> (mentions(t, w) && !m.contains_key(w)) || exists|v: u32|
            #[trigger] mentions(t, v) && m.contains_key(v) && m[v] == TyV::Var(w),
    decreases t, 0nat,
{
    match t {
        TyV::Var(v) => {
            assert(mentions(t, v));
            assert(forall|u: u32| #[trigger] mentions(t, u) <==> u == v);
            if m.contains_key(v) {
                assert(mentions(m[v], w) <==> m[v] == TyV::Var(w));
            }
        },
        TyV::App(name, args) => {
            let parts = substituted_all(args, m);
            assert forall|i: int| 0 <= i < args.len() implies packless(#[trigger] args[i]) by {}
            lemma_renamed_list(args, m, w);
            lemma_spliced_none(parts);
            assert(forall|v: u32|
                #![trigger mentions(t, v)]
                #![trigger mentions_first(args, args.len(), v)]
                mentions(t, v) <==> mentions_first(args, args.len(), v));
        },
        TyV::Fn(params, ret) => {
            let parts = substituted_all(params, m);
            assert forall|i: int| 0 <= i < params.len() implies packless(
                #[trigger] params[i],
            ) by {}
            lemma_renamed_list(params, m, w);
            lemma_renamed_mentions(*ret, m, w);
            assert(forall|v: u32|
                #![trigger mentions(t, v)]
                #![trigger mentions_first(params, params.len(), v)]
                #![trigger mentions(*ret, v)]
                mentions(t, v) <==> mentions_first(params, params.len(), v) || mentions(*ret, v));
        },
        TyV::Array(elem, size) => {
            lemma_renamed_mentions(*elem, m, w);
            lemma_renamed_mentions(*size, m, w);
            let now = substituted(*size, m);
            assert(!(now is PackResolved));
            assert(forall|v: u32|
                #![trigger mentions(t, v)]
                #![trigger mentions(*elem, v)]
                #![trigger mentions(*size, v)]
                mentions(t, v) <==> mentions(*elem, v) || mentions(*size, v));
        },
        TyV::ConstExpr(op, x, y) => {
            lemma_renamed_mentions(*x, m, w);
            lemma_renamed_mentions(*y, m, w);
            let l = substituted(*x, m);
            let r = substituted(*y, m);
            assert(mentions(folded(op, l, r), w) <==> mentions(l, w) || mentions(r, w));
            assert(forall|v: u32|
                #![trigger mentions(t, v)]
                #![trigger mentions(*x, v)]
                #![trigger mentions(*y, v)]
                mentions(t, v) <==> mentions(*x, v) || mentions(*y, v));
        },
        _ => {
            assert(forall|v: u32| !#[trigger] mentions(t, v));
        },
    }
}

proof fn lemma_renamed_list(tys: Seq<TyV>, m: Map<u32, TyV>, w: u32)
    requires
        forall|i: int| 0 <= i < tys.len() ==> packless(#[trigger] tys[i]),
        forall|v: u32| #[trigger] m.contains_key(v) ==> m[v] is Var,
    ensures
        forall|i: int| 0 <= i < tys.len() ==> packless(#[trigger] substituted_all(tys, m)[i]),
        mentions_first(substituted_all(tys, m), tys.len(), w) <==> (mentions_first(
            tys,
            tys.len(),
            w,
        ) && !m.contains_key(w)) || exists|v: u32| #[trigger]
            mentions_first(tys, tys.len(), v) && m.contains_key(v) && m[v] == TyV::Var(w),
    decreases tys, 0nat,
{
    let parts = substituted_all(tys, m);
    assert forall|i: int| 0 <= i < tys.len() implies packless(#[trigger] parts[i]) by {
        assert(packless(tys[i]));
        lemma_renamed_mentions(tys[i], m, w);
    }
    assert forall|i: int| 0 <= i < tys.len() implies (mentions(#[trigger] parts[i], w) <==> (
    mentions(tys[i], w) && !m.contains_key(w)) || exists|v: u32| #[trigger]
        mentions(tys[i], v) && m.contains_key(v) && m[v] == TyV::Var(w)) by {
        assert(packless(tys[i]));
        lemma_renamed_mentions(tys[i], m, w);
    }
    lemma_mentions_any(parts, tys.len(), w);
    assert forall|v: u32| #[trigger] mentions_first(tys, tys.len(), v) <==> exists|i: int|
        0 <= i < tys.len() && mentions(#[trigger] tys[i], v) by {
        lemma_mentions_any(tys, tys.len(), v);
    }
    if mentions_first(parts, tys.len(), w) {
        let i = choose|i: int| 0 <= i < tys.len() && mentions(#[trigger] parts[i], w);
        if mentions(tys[i], w) && !m.contains_key(w) {
            assert(mentions_first(tys, tys.len(), w));
        } else {
            let v = choose|v: u32| #[trigger]
                mentions(tys[i], v) && m.contains_key(v) && m[v] == TyV::Var(w);
            assert(mentions_first(tys, tys.len(), v));
        }
    }
    if mentions_first(tys, tys.len(), w) && !m.contains_key(w) {
        let i = choose|i: int| 0 <= i < tys.len() && mentions(#[trigger] tys[i], w);
        assert(mentions(parts[i], w));
    }
    if exists|v: u32| #[trigger]
        mentions_first(tys, tys.len(), v) && m.contains_key(v) && m[v] == TyV::Var(w) {
        let v = choose|v: u32| #[trigger]
            mentions_first(tys, tys.len(), v) && m.contains_key(v) && m[v] == TyV::Var(w);
        let i = choose|i: int| 0 <= i < tys.len() && mentions(#[trigger] tys[i], v);
        assert(mentions(parts[i], w));
    }
}

proof fn lemma_mentions_any(tys: Seq<TyV>, n: nat, v: u32)
    requires
        n <= tys.len(),
    ensures
        mentions_first(tys, n, v) <==> exists|i: int|
            0 <= i < n && mentions(#[trigger] tys[i], v),
    decreases n,
{
    if n > 0 {
        lemma_mentions_any(tys, (n - 1) as nat, v);
        if mentions(tys[n - 1], v) {
            assert(mentions(tys[n - 1], v));
        }
    }
}

/// An instance of a scheme has fresh variables in place of those that may be chosen:
/// it mentions none of these, it mentions every other variable as the scheme does,
/// and all that it mentions besides are fresh. The type holds no packs, and the variables
/// last.
pub proof fn lemma_instance_is_fresh(st: InferV, s: SchemeV, w: u32)
    requires
        packless(s.ty),
        st.next_var + s.vars.len() <= u32::MAX,
    ensures
        w < st.next_var ==> (mentions(instantiated(st, s).1, w) <==> mentions(s.ty, w)
            && !s.vars.contains(w)),
        w >= st.next_var + s.vars.len() ==> (mentions(instantiated(st, s).1, w) <==> mentions(
            s.ty,
            w,
        ) && !s.vars.contains(w)),
{
    let (st1, m) = fresh_each(st, s.vars, s.vars.len());
    lemma_fresh_each(st, s.vars, s.vars.len());
    lemma_renamed_mentions(s.ty, m, w);
    assert(m.contains_key(w) <==> s.vars.contains(w)) by {
        if s.vars.contains(w) {
            let i = s.vars.index_of(w);
            assert(s.vars[i] == w);
        }
    }
}

/// The constraints of a scheme, asked of other variables.
pub open spec fn renamed_constraints(cs: Seq<ConstraintV>, m: Map<u32, TyV>) -> Seq<
    ConstraintV,
> {
    Seq::new(
        cs.len(),
        |i: int| ConstraintV { tys: substituted_all(cs[i].tys, m), ..cs[i] },
    )
}

proof fn lemma_demands_renamed(st: InferV, cs: Seq<ConstraintV>, k: nat, m: Map<u32, TyV>)
    requires
        k <= cs.len(),
    ensures
        demands_renamed(st, cs, k, m).constraints == st.constraints + renamed_constraints(
            cs,
            m,
        ).subrange(k as int, cs.len() as int),
        demands_renamed(st, cs, k, m).next_var == st.next_var,
    decreases cs.len() - k,
{
    let all = renamed_constraints(cs, m);
    if k < cs.len() {
        let st1 = demanding(st, all[k as int]);
        lemma_demands_renamed(st1, cs, k + 1, m);
        assert(st.constraints.push(all[k as int]) + all.subrange((k + 1) as int, cs.len() as int)
            =~= st.constraints + all.subrange(k as int, cs.len() as int));
    } else {
        assert(st.constraints + all.subrange(k as int, cs.len() as int) =~= st.constraints);
    }
}

proof fn lemma_widths_renamed(st: InferV, ws: Seq<(u32, TyV)>, k: nat, m: Map<u32, TyV>)
    ensures
        widths_renamed(st, ws, k, m).constraints == st.constraints,
        widths_renamed(st, ws, k, m).next_var == st.next_var,
    decreases ws.len() - k,
{
    if k < ws.len() {
        let (v, w) = ws[k as int];
        let st1 = if m.contains_key(v) {
            width_given(st, m[v], w)
        } else {
            st
        };
        lemma_widths_renamed(st1, ws, k + 1, m);
    }
}

proof fn lemma_fresh_keep(st: InferV, vars: Seq<u32>, n: nat)
    ensures
        fresh_each(st, vars, n).0.constraints == st.constraints,
    decreases n,
{
    if !(n == 0 || n > vars.len()) {
        lemma_fresh_keep(st, vars, (n - 1) as nat);
    }
}

/// What an instance of a scheme is made of: a fresh variable for each variable that may be
/// chosen, the type with these in place, and each constraint asked of them.
pub proof fn lemma_instance_made(st: InferV, s: SchemeV)
    requires
        st.next_var + s.vars.len() <= u32::MAX,
    ensures
        ({
            let (st1, t, m) = instantiated(st, s);
            &&& forall|v: u32| #[trigger] m.contains_key(v) <==> s.vars.contains(v)
            &&& forall|v: u32| #[trigger]
                m.contains_key(v) ==> (m[v] matches TyV::Var(w) && st.next_var <= w
                    < st1.next_var)
            &&& forall|v: u32, w: u32| #[trigger]
                m.contains_key(v) && #[trigger] m.contains_key(w) && v != w ==> m[v] != m[w]
            &&& st1.next_var == st.next_var + s.vars.len()
            &&& t == substituted(s.ty, m)
            &&& st1.constraints == st.constraints + renamed_constraints(s.constraints, m)
        }),
{
    let (sta, m) = fresh_each(st, s.vars, s.vars.len());
    let stb = demands_renamed(sta, s.constraints, 0, m);
    lemma_fresh_each(st, s.vars, s.vars.len());
    lemma_fresh_keep(st, s.vars, s.vars.len());
    lemma_demands_renamed(sta, s.constraints, 0, m);
    lemma_widths_renamed(stb, s.widths, 0, m);
    let all = renamed_constraints(s.constraints, m);
    assert(all.subrange(0, s.constraints.len() as int) =~= all);
    assert forall|v: u32| #[trigger] m.contains_key(v) <==> s.vars.contains(v) by {
        if s.vars.contains(v) {
            let i = s.vars.index_of(v);
            assert(s.vars[i] == v);
        }
    }
}

/// Two instances of a scheme, one after the other, share no fresh variable, and each comes
/// with its own copy of the constraints.
pub proof fn lemma_instances_are_apart(st: InferV, s: SchemeV)
    requires
        st.next_var + 2 * s.vars.len() <= u32::MAX,
    ensures
        ({
            let (st1, t1, m1) = instantiated(st, s);
            let (st2, t2, m2) = instantiated(st1, s);
            &&& forall|v: u32, w: u32| #[trigger]
                m1.contains_key(v) && #[trigger] m2.contains_key(w) ==> m1[v] != m2[w]
            &&& m1.dom() == m2.dom()
            &&& t1 == substituted(s.ty, m1)
            &&& t2 == substituted(s.ty, m2)
            &&& st2.constraints == st.constraints + renamed_constraints(s.constraints, m1)
                + renamed_constraints(s.constraints, m2)
        }),
{
    lemma_instance_made(st, s);
    let (st1, t1, m1) = instantiated(st, s);
    lemma_instance_made(st1, s);
    let m2 = instantiated(st1, s).2;
    assert forall|v: u32| m1.dom().contains(v) <==> #[trigger] m2.dom().contains(v) by {
        assert(m1.contains_key(v) <==> s.vars.contains(v));
        assert(m2.contains_key(v) <==> s.vars.contains(v));
    }
    assert(m1.dom() =~= m2.dom());
}

/// A name whose type may not be chosen has that type at every use, and using it
/// changes nothing. The type has nothing left to compute.
pub proof fn lemma_unquantified_name_keeps_type(
    st: InferV,
    env: EnvV,
    name: Seq<char>,
    span: Span,
    ty: TyV,
)
    requires
        env.contains_key(name),
        env[name] == mono(ty),
        applied_from(Seq::empty(), 0, ty) == ty,
    ensures
        name_type(st, env, name, span) == (st, Ok::<TyV, TypeErrorV>(ty)),
{
    let none = SubstV { bindings: Seq::empty(), widths: Map::empty() };
    lemma_substitute_is_apply(ty, Map::empty(), none);
}

// ---- calls and constraints ----

/// A call by a bare name is refused if two or more algebras declare the name with as
/// many parameters, whatever is in scope; if one does, it is a call of that algebra;
/// if none does and nothing of the name is in scope, it stays unresolved.
pub proof fn lemma_call_by_name(
    st: InferV,
    env: EnvV,
    name: Seq<char>,
    tys: Seq<TyV>,
    spans: Seq<Span>,
    explicit: Seq<GenericArg>,
    span: Span,
)
    ensures
        ({
            let candidates = declaring_from(st.registry, 0, name, tys.len());
            let r = named_call_type(st, env, name, tys, spans, explicit, span);
            &&& candidates.len() > 1 ==> r == (
                st,
                Err::<TyV, TypeErrorV>(
                    error_at(span, TypeErrorKindV::AmbiguousOperator { name, candidates }),
                ),
            )
            &&& candidates.len() == 1 ==> r == algebra_call_type(
                st,
                span,
                candidates[0],
                name,
                tys,
                spans,
                explicit,
            )
            &&& candidates.len() == 0 && !env.contains_key(name) && tys.len() > 0 ==> r == (
                st,
                Ok::<TyV, TypeErrorV>(TyV::Con("<unresolved-call:"@ + name + ">"@)),
            )
        }),
{
}

/// A constraint on types that hold no variable, of a declared algebra, is met exactly
/// if there is an impl for them, or a literal became a complex number; otherwise the
/// impl is reported missing.
pub proof fn lemma_concrete_constraint(st: InferV, c: ConstraintV)
    requires
        ({
            let known = applied_all(st.subst, c.tys);
            &&& st.registry.declares_algebra(c.algebra)
            &&& !quantified_among(st, known, known.len())
            &&& !placeholder_among(known, known.len())
            &&& gates_concrete(known, c.gating, c.gating.len())
            &&& all_concrete(known)
        }),
    ensures
        ({
            let known = applied_all(st.subst, c.tys);
            let tys = checkable_types(st, known, c.tys, known.len());
            let met = widened(c.algebra, tys) || impl_found(st, c.algebra, tys).1;
            &&& constraint_checked(st, c).1 is Ok <==> met
            &&& !met ==> constraint_checked(st, c).1 == Err::<(), TypeErrorV>(
                missing_impl(c.algebra, tys, c.span),
            )
        }),
{
}

} // verus!
