//! What inference finds for functions without packs and computed constants, in programs
//! without them, is straight.

use vstd::prelude::*;

use crate::apply_laws::flat;
use crate::ast::{FileId, FnDecl, GenericParam, Param, Program, Span, Type};
use crate::finish_laws::{lemma_default_given, open_root, spared};
use crate::infer_calls::{declared_result, not_inferred, param_types_from};
use crate::infer_expr::block_type;
use crate::infer_finish::{
    inferred, inferred_method, lemma_accepted_is_well_typed, lemma_accepted_method_is_well_typed,
    numbered_fn, straight, told,
};
use crate::infer_fns::{
    algebra_generics_from, all_checked, all_params_bound, body_span, fn_body, fn_shape, fn_type,
    impl_fn_type, impl_params_from, own_name, params_bound, tail_span, targets_from,
};
use crate::infer_impls::unified_at;
use crate::infer_pending::{
    call_taken_up, calls_from, checkable_types, constraint_checked, constraints_checked,
    constraints_from, default_given, default_type, defaults_applied, defaults_from,
    demands_checked, divs_checked, field_taken_up, fields_checked, fields_from, index_taken_up,
    indices_checked, indices_from, indices_given_up, type_names_checked,
};
use crate::infer_schemes::{consts_seeded, generics_quantified};
use crate::infer_state::{
    initial, minted, mono, next_var, ConstraintV, EnvV, InferV, MappingV, NumberDefault,
    PendingCallV, PendingFieldV, PendingIndexV,
};
use crate::infer_types::{generics_opened, type_of};
use crate::lower_items::low_program;
use crate::node_counts::numbers_of_program;
use crate::orderly_laws::{declares_fn, lemma_lowered_functions_are_numbered};
use crate::plain_exprs::lemma_block_plain;
use crate::plain_keeps::{
    lemma_applied_all_plain, lemma_demanding, lemma_dispatched_plain, lemma_field_plain,
    lemma_found_is_simple, lemma_impl_found_plain, lemma_index_plain, lemma_method_call_plain,
    lemma_minted, lemma_opened_plain, lemma_param_types_plain, lemma_shown_plain,
    lemma_type_plain, lemma_unified_plain, plain_calls, plain_constraints, plain_env,
    plain_fields, plain_indices, plain_mapping, plain_state, plain_types,
};
use crate::registry::Registry;
use crate::simple::{
    simple_fn, simple_generics, simple_option, simple_params, simple_registry, simple_type,
};
use crate::subst::{applied, applied_all};
use crate::tree::Tree;
use crate::ty::TyV;
use crate::typing::well_typed_block;
use crate::unify_laws::{fair, lemma_plain_all, lemma_plain_at, plain, unnamed};

verus! {

// ---- defaults ----

proof fn lemma_default_type_plain(d: NumberDefault)
    ensures
        plain(default_type(d)),
{
    if let TyV::App(_, args) = default_type(d) {
        assert(plain(args[0]));
        lemma_plain_all(args, 1);
    }
}

proof fn lemma_default_plain(st: InferV, v: u32, d: NumberDefault)
    requires
        plain_state(st),
    ensures
        plain_state(default_given(st, v, d)),
{
    let st1 = default_given(st, v, d);
    lemma_default_given(st, v, d);
    lemma_default_type_plain(d);
    if let Some(root) = open_root(st, v) {
        if !spared(st, root) {
            let b = st.subst.bindings;
            let c = st1.subst.bindings;
            assert(c == b.push((root, default_type(d))));
            assert forall|i: int| 0 <= i < c.len() implies plain((#[trigger] c[i]).1) by {
                if i < b.len() {
                    assert(c[i] == b[i]);
                }
            }
        }
    }
}

proof fn lemma_defaults_plain(
    st: InferV,
    defaults: Seq<(u32, NumberDefault)>,
    i: nat,
    complex: bool,
)
    requires
        plain_state(st),
    ensures
        plain_state(defaults_from(st, defaults, i, complex)),
    decreases defaults.len() - i,
{
    if i < defaults.len() {
        let (v, d) = defaults[i as int];
        let st1 = if (d == NumberDefault::Complex) == complex {
            default_given(st, v, d)
        } else {
            st
        };
        lemma_default_plain(st, v, d);
        lemma_defaults_plain(st1, defaults, i + 1, complex);
    }
}

proof fn lemma_all_defaults_plain(st: InferV)
    requires
        plain_state(st),
    ensures
        plain_state(defaults_applied(st)),
{
    let st0 = InferV { defaults: Seq::empty(), ..st };
    lemma_defaults_plain(st0, st.defaults, 0, true);
    let st1 = defaults_from(st0, st.defaults, 0, true);
    lemma_defaults_plain(st1, st.defaults, 0, false);
}

// ---- what was put off ----

proof fn lemma_constraint_plain(st: InferV, c: ConstraintV)
    requires
        plain_state(st),
        plain_types(c.tys),
        constraint_checked(st, c).1 is Ok,
    ensures
        plain_state(constraint_checked(st, c).0),
{
    let known = applied_all(st.subst, c.tys);
    lemma_applied_all_plain(st.subst, c.tys);
    lemma_demanding(st, c);
    lemma_dispatched_plain(st, c.algebra, known, c.span);
    lemma_impl_found_plain(st, c.algebra, checkable_types(st, known, c.tys, known.len()));
}

proof fn lemma_constraints_plain(st: InferV, cs: Seq<ConstraintV>, i: nat)
    requires
        plain_state(st),
        plain_constraints(cs),
        constraints_from(st, cs, i).1 is Ok,
    ensures
        plain_state(constraints_from(st, cs, i).0),
    decreases cs.len() - i,
{
    if i < cs.len() {
        assert(plain_types(cs[i as int].tys));
        lemma_constraint_plain(st, cs[i as int]);
        let st1 = constraint_checked(st, cs[i as int]).0;
        lemma_constraints_plain(st1, cs, i + 1);
    }
}

proof fn lemma_field_taken_plain(st: InferV, p: PendingFieldV)
    requires
        plain_state(st),
        plain(p.base),
        field_taken_up(st, p).1 is Ok,
    ensures
        plain_state(field_taken_up(st, p).0),
{
    let base = applied(st.subst, p.base);
    lemma_shown_plain(st, p.base);
    lemma_field_plain(st, base, p.field, p.span);
    let (st1, r) = if base is Var || crate::types::placeholder(base) {
        (st, Ok(not_inferred()))
    } else {
        crate::infer_calls::field_type(st, base, p.field, p.span)
    };
    lemma_unified_plain(st1, p.span, TyV::Var(p.result), r->Ok_0);
}

proof fn lemma_fields_plain(st: InferV, ps: Seq<PendingFieldV>, i: nat)
    requires
        plain_state(st),
        plain_fields(ps),
        fields_from(st, ps, i).1 is Ok,
    ensures
        plain_state(fields_from(st, ps, i).0),
    decreases ps.len() - i,
{
    if i < ps.len() {
        assert(plain(ps[i as int].base));
        lemma_field_taken_plain(st, ps[i as int]);
        let st1 = field_taken_up(st, ps[i as int]).0;
        lemma_fields_plain(st1, ps, i + 1);
    }
}

proof fn lemma_call_taken_plain(st: InferV, p: PendingCallV)
    requires
        plain_state(st),
        plain(p.base),
        plain_types(p.arg_tys),
        call_taken_up(st, p).1 is Ok,
    ensures
        plain_state(call_taken_up(st, p).0),
{
    let base = applied(st.subst, p.base);
    lemma_shown_plain(st, p.base);
    if base is Var || crate::types::placeholder(base) {
        lemma_unified_plain(st, p.call_span, TyV::Var(p.result), not_inferred());
    } else {
        let (st1, r) = crate::infer_calls::method_call_type(
            st,
            base,
            p.method,
            p.arg_tys,
            p.arg_spans,
            p.base_span,
            p.call_span,
        );
        lemma_method_call_plain(
            st,
            base,
            p.method,
            p.arg_tys,
            p.arg_spans,
            p.base_span,
            p.call_span,
        );
        lemma_unified_plain(st1, p.call_span, TyV::Var(p.result), r->Ok_0);
    }
}

proof fn lemma_calls_plain(st: InferV, ps: Seq<PendingCallV>, i: nat)
    requires
        plain_state(st),
        plain_calls(ps),
        calls_from(st, ps, i).1 is Ok,
    ensures
        plain_state(calls_from(st, ps, i).0),
    decreases ps.len() - i,
{
    if i < ps.len() {
        assert(plain(ps[i as int].base));
        lemma_call_taken_plain(st, ps[i as int]);
        let st1 = call_taken_up(st, ps[i as int]).0;
        lemma_calls_plain(st1, ps, i + 1);
    }
}

proof fn lemma_index_taken_plain(st: InferV, p: PendingIndexV)
    requires
        plain_state(st),
        plain(p.base),
        plain_types(p.index_tys),
        index_taken_up(st, p).1 is Ok,
    ensures
        plain_state(index_taken_up(st, p).0),
{
    let base = applied(st.subst, p.base);
    lemma_shown_plain(st, p.base);
    if base is Var {
        let ps = st.indices.push(p);
        assert forall|i: int| 0 <= i < ps.len() implies plain((#[trigger] ps[i]).base)
            && plain_types(ps[i].index_tys) by {
            if i < st.indices.len() {
                assert(ps[i] == st.indices[i]);
            }
        }
    } else if crate::types::placeholder(base) {
        lemma_unified_plain(st, p.span, TyV::Var(p.result), not_inferred());
    } else {
        let (st1, r) = crate::infer_calls::index_type(
            st,
            base,
            p.index_tys,
            p.index_spans,
            p.base_span,
            p.span,
        );
        lemma_index_plain(st, base, p.index_tys, p.index_spans, p.base_span, p.span);
        lemma_unified_plain(st1, p.span, TyV::Var(p.result), r->Ok_0);
    }
}

proof fn lemma_indices_plain(st: InferV, ps: Seq<PendingIndexV>, i: nat)
    requires
        plain_state(st),
        plain_indices(ps),
        indices_from(st, ps, i).1 is Ok,
    ensures
        plain_state(indices_from(st, ps, i).0),
    decreases ps.len() - i,
{
    if i < ps.len() {
        assert(plain(ps[i as int].base));
        lemma_index_taken_plain(st, ps[i as int]);
        let st1 = index_taken_up(st, ps[i as int]).0;
        lemma_indices_plain(st1, ps, i + 1);
    }
}

proof fn lemma_given_up_plain(st: InferV, ps: Seq<PendingIndexV>, i: nat)
    requires
        plain_state(st),
        indices_given_up(st, ps, i).1 is Ok,
    ensures
        plain_state(indices_given_up(st, ps, i).0),
    decreases ps.len() - i,
{
    if i < ps.len() {
        let p = ps[i as int];
        lemma_unified_plain(st, p.span, TyV::Var(p.result), not_inferred());
        let st1 = unified_at(st, p.span, TyV::Var(p.result), not_inferred()).0;
        lemma_given_up_plain(st1, ps, i + 1);
    }
}

proof fn lemma_demands_plain(st: InferV)
    requires
        plain_state(st),
        demands_checked(st).1 is Ok,
    ensures
        plain_state(demands_checked(st).0),
    decreases st.constraints.len() + st.indices.len(),
{
    let sta = InferV { constraints: Seq::empty(), ..st };
    assert(plain_state(sta));
    lemma_constraints_plain(sta, st.constraints, 0);
    let st1 = constraints_checked(st).0;
    let stb = InferV { indices: Seq::empty(), ..st1 };
    assert(plain_state(stb));
    lemma_indices_plain(stb, st1.indices, 0);
    let st2 = indices_checked(st1).0;
    let left = st2.constraints.len() + st2.indices.len();
    if left == 0 {
    } else if left >= st.constraints.len() + st.indices.len() {
        let stc = InferV { indices: Seq::empty(), ..st2 };
        assert(plain_state(stc));
        lemma_given_up_plain(stc, st2.indices, 0);
    } else {
        lemma_demands_plain(st2);
    }
}

proof fn lemma_all_checked_plain(st: InferV)
    requires
        plain_state(st),
        all_checked(st).1 is Ok,
    ensures
        plain_state(all_checked(st).0),
{
    lemma_all_defaults_plain(st);
    let st0 = defaults_applied(st);
    lemma_demands_plain(st0);
    let st1 = demands_checked(st0).0;
    let st2 = type_names_checked(st1).0;
    assert(plain_state(st2));
    let st3 = divs_checked(st2).0;
    assert(plain_state(st3));
    let sta = InferV { fields: Seq::empty(), ..st3 };
    assert(plain_state(sta));
    lemma_fields_plain(sta, st3.fields, 0);
    let st4 = fields_checked(st3).0;
    let stb = InferV { calls: Seq::empty(), ..st4 };
    assert(plain_state(stb));
    lemma_calls_plain(stb, st4.calls, 0);
}

// ---- functions ----

proof fn lemma_params_bound_plain(env: EnvV, params: Seq<Param>, tys: Seq<TyV>, n: nat)
    requires
        plain_env(env),
        plain_types(tys),
    ensures
        plain_env(params_bound(env, params, tys, n)),
    decreases n,
{
    if !(n == 0 || n > params.len() || n > tys.len()) {
        lemma_params_bound_plain(env, params, tys, (n - 1) as nat);
        assert(plain(tys[n - 1]));
    }
}

proof fn lemma_no_consts(env: EnvV, generics: Seq<GenericParam>, n: nat, m: MappingV)
    requires
        simple_generics(generics),
    ensures
        consts_seeded(env, generics, n, m) == env,
    decreases n,
{
    if !(n == 0 || n > generics.len()) {
        lemma_no_consts(env, generics, (n - 1) as nat, m);
        assert(generics[n - 1] is Type);
    }
}

proof fn lemma_fn_body_plain(
    st: InferV,
    f: FnDecl,
    outer: EnvV,
    params: Seq<TyV>,
    ret: TyV,
    m: MappingV,
)
    requires
        plain_state(st),
        simple_fn(f),
        plain_env(outer),
        plain_types(params),
        plain(ret),
        plain_mapping(m),
        fn_body(st, f, f.body->0, outer, params, ret, m).1 is Ok,
    ensures
        plain_state(fn_body(st, f, f.body->0, outer, params, ret, m).0),
{
    let body = f.body->0;
    let st0 = InferV { active: m, ..st };
    let n = if f.params@.len() < params.len() {
        f.params@.len()
    } else {
        params.len()
    };
    lemma_params_bound_plain(outer, f.params@, params, n);
    let env = all_params_bound(outer, f.params@, params);
    lemma_no_consts(env, f.generics@, f.generics@.len(), m);
    lemma_block_plain(st0, env, body);
    let (st1, r1) = block_type(st0, env, body);
    let t = r1->Ok_0;
    let st2 = match f.ret {
        Some(declared) => {
            lemma_type_plain(st1, declared, m);
            let (sta, own) = type_of(st1, declared, m);
            lemma_unified_plain(sta, declared.span, own, t);
            unified_at(sta, declared.span, own, t).0
        },
        None => st1,
    };
    if let Some(span) = body_span(body) {
        lemma_unified_plain(st2, span, ret, t);
    }
}

proof fn lemma_shape_plain(st: InferV, f: FnDecl)
    requires
        plain_state(st),
        simple_fn(f),
    ensures
        ({
            let (st1, params, ret, m) = fn_shape(st, f);
            &&& plain_state(st1)
            &&& plain_types(params)
            &&& plain(ret)
            &&& plain_mapping(m)
            &&& plain_env(own_name(f, params, ret))
        }),
{
    let (st1, params, ret, m) = fn_shape(st, f);
    let (sta, own) = match body_span(f.body->0) {
        Some(span) => {
            lemma_opened_plain(st, f.generics@, span);
            generics_opened(st, f.generics@, span)
        },
        None => (st, Map::empty()),
    };
    lemma_param_types_plain(sta, f.params@, 0, own, Seq::empty());
    let stb = param_types_from(sta, f.params@, 0, own, Seq::empty()).0;
    lemma_minted(stb);
    assert(plain(ret));
    lemma_plain_all(params, params.len());
    assert(plain(TyV::Fn(params, Box::new(ret))));
}

/// Where all types are plain, and nothing stands for a constant, types that were unified are
/// alike.
proof fn lemma_plain_is_straight(st: InferV)
    requires
        plain_state(st),
    ensures
        straight(st),
{
    let b = st.subst.bindings;
    assert forall|i: int| 0 <= i < b.len() implies flat(b, (#[trigger] b[i]).1) && unnamed(
        b,
        b[i].1,
    ) by {
        lemma_plain_is_fair(b, b[i].1);
    }
    assert forall|id: u32| #[trigger] st.node_types.contains_key(id) implies fair(
        b,
        st.node_types[id],
    ) by {
        lemma_plain_is_fair(b, st.node_types[id]);
    }
}

/// A plain type holds no packs and no computed constants.
proof fn lemma_plain_is_fair(c: Seq<(u32, TyV)>, t: TyV)
    requires
        plain(t),
    ensures
        fair(c, t),
    decreases t,
{
    match t {
        TyV::App(_, args) => {
            assert forall|i: int| 0 <= i < args.len() implies fair(c, #[trigger] args[i]) by {
                lemma_plain_at(args, args.len(), i);
                lemma_plain_is_fair(c, args[i]);
            }
        },
        TyV::Fn(params, ret) => {
            assert forall|i: int| 0 <= i < params.len() implies fair(c, #[trigger] params[i]) by {
                lemma_plain_at(params, params.len(), i);
                lemma_plain_is_fair(c, params[i]);
            }
            lemma_plain_is_fair(c, *ret);
        },
        TyV::Array(elem, size) => {
            lemma_plain_is_fair(c, *elem);
            lemma_plain_is_fair(c, *size);
        },
        _ => {},
    }
}

/// Inference that knows nothing yet holds no packs and no constants.
pub proof fn lemma_initial_plain(r: Registry)
    requires
        simple_registry(r),
    ensures
        plain_state(initial(r)),
{
}

/// What is found for a function without packs and constants, in a program without them, is
/// straight.
pub proof fn lemma_simple_is_straight(st: InferV, f: FnDecl)
    requires
        plain_state(st),
        simple_fn(f),
        fn_type(st, f).1 is Ok,
    ensures
        plain_state(inferred(st, f)),
        straight(inferred(st, f)),
{
    lemma_shape_plain(st, f);
    let (st1, params, ret, m) = fn_shape(st, f);
    let outer = own_name(f, params, ret);
    lemma_fn_body_plain(st1, f, outer, params, ret, m);
    let st2 = fn_body(st1, f, f.body->0, outer, params, ret, m).0;
    lemma_all_checked_plain(st2);
    lemma_plain_is_straight(inferred(st, f));
}

/// A function without packs and constants that inference accepts, in a program without them,
/// is well typed: the types that it found for the nodes of the body fit together, and types
/// that are to agree are the same but for constants beside their type names.
pub proof fn lemma_accepted_simple_is_well_typed(st: InferV, f: FnDecl)
    requires
        plain_state(st),
        simple_fn(f),
        numbered_fn(f),
        fn_type(st, f).1 is Ok,
    ensures
        well_typed_block(told(fn_type(st, f).0), f.body->0),
{
    lemma_simple_is_straight(st, f);
    lemma_accepted_is_well_typed(st, f);
}

/// A function of a file without packs and constants, in a program without them, is well
/// typed if inference accepts it.
pub proof fn lemma_lowered_simple_is_well_typed(
    t: Tree,
    file: FileId,
    id: u32,
    p: Program,
    d: FnDecl,
    r: Registry,
)
    requires
        low_program(t, file, id) is Some,
        low_program(t, file, id)->0.value == p@,
        id + numbers_of_program(t) <= u32::MAX,
        declares_fn(p, d),
        d.body is Some,
        simple_fn(d),
        simple_registry(r),
        fn_type(initial(r), d).1 is Ok,
    ensures
        well_typed_block(told(fn_type(initial(r), d).0), d.body->0),
{
    lemma_lowered_functions_are_numbered(t, file, id, p, d);
    lemma_initial_plain(r);
    lemma_accepted_simple_is_well_typed(initial(r), d);
}

// ---- methods of algebras ----

proof fn lemma_targets_from_plain(
    st: InferV,
    targets: Seq<Type>,
    i: nat,
    m: MappingV,
    acc: Seq<TyV>,
)
    requires
        plain_state(st),
        plain_mapping(m),
        plain_types(acc),
        forall|k: int| 0 <= k < targets.len() ==> simple_type(#[trigger] targets[k]),
    ensures
        plain_state(targets_from(st, targets, i, m, acc).0),
        plain_types(targets_from(st, targets, i, m, acc).1),
    decreases targets.len() - i,
{
    if i < targets.len() {
        assert(simple_type(targets[i as int]));
        lemma_type_plain(st, targets[i as int], m);
        let (st1, t) = type_of(st, targets[i as int], m);
        lemma_targets_from_plain(st1, targets, i + 1, m, acc.push(t));
    }
}

proof fn lemma_algebra_generics_plain(
    st: InferV,
    generics: Seq<GenericParam>,
    i: nat,
    tys: Seq<TyV>,
    k: nat,
    m: MappingV,
)
    requires
        plain_state(st),
        simple_generics(generics),
        plain_types(tys),
        plain_mapping(m),
    ensures
        plain_state(algebra_generics_from(st, generics, i, tys, k, m).0),
        plain_mapping(algebra_generics_from(st, generics, i, tys, k, m).1),
    decreases generics.len() - i,
{
    if i < generics.len() {
        assert(generics[i as int] is Type);
        if let GenericParam::Type { name, .. } = generics[i as int] {
            if k < tys.len() {
                assert(plain(tys[k as int]));
                lemma_algebra_generics_plain(
                    st,
                    generics,
                    i + 1,
                    tys,
                    k + 1,
                    m.insert(name@, tys[k as int]),
                );
            } else {
                lemma_algebra_generics_plain(st, generics, i + 1, tys, k, m);
            }
        }
    }
}

proof fn lemma_impl_params_plain(
    st: InferV,
    params: Seq<Param>,
    sig: Seq<Param>,
    i: nat,
    m: MappingV,
    im: MappingV,
    env: EnvV,
    acc: Seq<TyV>,
)
    requires
        plain_state(st),
        simple_params(params),
        simple_params(sig),
        plain_mapping(m),
        plain_mapping(im),
        plain_env(env),
        plain_types(acc),
        impl_params_from(st, params, sig, i, m, im, env, acc).2 is Ok,
    ensures
        plain_state(impl_params_from(st, params, sig, i, m, im, env, acc).0),
        plain_env(impl_params_from(st, params, sig, i, m, im, env, acc).1),
    decreases params.len() - i,
{
    if !(i >= params.len() || i >= sig.len()) {
        assert(simple_option(sig[i as int].ty));
        assert(simple_option(params[i as int].ty));
        let (st1, expected) = match sig[i as int].ty {
            Some(t) => {
                lemma_type_plain(st, t, m);
                type_of(st, t, m)
            },
            None => {
                lemma_minted(st);
                (minted(st), next_var(st))
            },
        };
        let (st3, own) = match params[i as int].ty {
            None => (st1, expected),
            Some(t) => {
                lemma_type_plain(st1, t, im);
                let (st2, annotated) = type_of(st1, t, im);
                lemma_unified_plain(st2, t.span, expected, annotated);
                let last = unified_at(st2, t.span, expected, annotated).0;
                (last, annotated)
            },
        };
        let env1 = env.insert(params[i as int].name@, mono(own));
        assert(plain_env(env1));
        lemma_impl_params_plain(st3, params, sig, i + 1, m, im, env1, acc.push(own));
    }
}

/// What is found for a method of an impl without packs and constants, in a program without
/// them, is straight, and a method that inference accepts is well typed.
pub proof fn lemma_accepted_simple_method_is_well_typed(
    st: InferV,
    outer: EnvV,
    algebra: Seq<char>,
    impl_generics: Seq<GenericParam>,
    targets: Seq<Type>,
    f: FnDecl,
    fallback: Span,
)
    requires
        plain_state(st),
        plain_env(outer),
        simple_generics(impl_generics),
        forall|k: int| 0 <= k < targets.len() ==> simple_type(#[trigger] targets[k]),
        simple_fn(f),
        numbered_fn(f),
        impl_fn_type(st, outer, algebra, impl_generics, targets, f, fallback).1 is Ok,
    ensures
        straight(inferred_method(st, outer, algebra, impl_generics, targets, f, fallback)),
        well_typed_block(
            told(impl_fn_type(st, outer, algebra, impl_generics, targets, f, fallback).0),
            f.body->0,
        ),
{
    let body = f.body->0;
    lemma_found_is_simple(st.registry, algebra, f.name@);
    let sig = st.registry.sig_of(algebra, f.name@)->0;
    let generics = st.registry.generics_of(algebra);
    lemma_opened_plain(st, impl_generics, fallback);
    let (sta, im) = generics_opened(st, impl_generics, fallback);
    let sta1 = InferV { active: im, ..sta };
    lemma_targets_from_plain(sta1, targets, 0, im, Seq::empty());
    let (stb, tys) = targets_from(sta1, targets, 0, im, Seq::empty());
    let stb1 = InferV { target_types: tys, ..stb };
    lemma_algebra_generics_plain(stb1, generics, 0, tys, 0, Map::empty());
    let (st1, m) = algebra_generics_from(stb1, generics, 0, tys, 0, Map::empty());
    lemma_impl_params_plain(st1, f.params@, sig.params@, 0, m, im, outer, Seq::empty());
    let (st2, env, r2) = impl_params_from(
        st1,
        f.params@,
        sig.params@,
        0,
        m,
        im,
        outer,
        Seq::empty(),
    );
    if let Some(t) = sig.ret {
        lemma_type_plain(st2, t, m);
    }
    lemma_minted(st2);
    let (st3, expected) = declared_result(st2, sig.ret, m);
    assert(plain_state(st3) && plain(expected));
    let st4 = match f.ret {
        Some(ret) => {
            lemma_type_plain(st3, ret, im);
            let (stc, own) = type_of(st3, ret, im);
            lemma_unified_plain(stc, ret.span, expected, own);
            unified_at(stc, ret.span, expected, own).0
        },
        None => st3,
    };
    lemma_no_consts(env, impl_generics, impl_generics.len(), im);
    lemma_block_plain(st4, env, body);
    let (stc, rc) = block_type(st4, env, body);
    let t = rc->Ok_0;
    lemma_unified_plain(stc, tail_span(body, fallback), expected, t);
    let st5 = unified_at(stc, tail_span(body, fallback), expected, t).0;
    let ste = generics_quantified(st5, im);
    assert(plain_state(ste));
    lemma_all_checked_plain(ste);
    lemma_plain_is_straight(all_checked(ste).0);
    assert(all_checked(ste).0 == inferred_method(
        st,
        outer,
        algebra,
        impl_generics,
        targets,
        f,
        fallback,
    ));
    lemma_accepted_method_is_well_typed(
        st,
        outer,
        algebra,
        impl_generics,
        targets,
        f,
        fallback,
    );
}

} // verus!
