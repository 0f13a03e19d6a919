//! What holds of the defaults of numbers, and of a function once its types are settled.

use vstd::prelude::*;

use crate::apply_laws::{lemma_same_place, lemma_shut_stays, shut};
use crate::ast::{Expr, ExprKind, FnDecl, Stmt};
use crate::errors::{error_at, TypeErrorKindV, TypeErrorV};
use crate::infer_calls::unit_ty;
use crate::infer_expr::{
    condition_checked, expr_type, for_in_type, for_type, kind_type, plain_loop, stmt_checked,
    while_type,
};
use crate::infer_fns::{all_checked, body_span, fn_finished};
use crate::infer_pending::{default_given, default_type, defaults_applied, defaults_from};
use crate::infer_impls::unified_at;
use crate::infer_state::{
    demand, demanding, minted, mono, next_var, EnvV, InferV, NumberDefault,
};
use crate::subst::{
    applied, applied_all_from, applied_from, bound, bound_at, lemma_bound_at, links, starts_with,
    triangular,
};
use crate::subst_laws::{lemma_applied_settled, lemma_triangular_push, settled};
use crate::ty::TyV;
use crate::types::{array_with, mentions, mentions_first, placeholder_from, placeholder_in};

verus! {

// ---- defaults ----

/// The variable that another one stands for, if it is still open.
pub open spec fn open_root(st: InferV, v: u32) -> Option<u32> {
    match applied(st.subst, TyV::Var(v)) {
        TyV::Var(root) => Some(root),
        _ => None,
    }
}

/// Whether a variable gets no default: it may be chosen at every use, or stands for a
/// constant.
pub open spec fn spared(st: InferV, v: u32) -> bool {
    st.quantified.contains(v) || st.subst.widths.contains_key(v)
}

/// Whether nothing but the bindings of variables that are not spared differs.
pub open spec fn sparing(a: InferV, b: InferV) -> bool {
    &&& triangular(b.subst.bindings)
    &&& starts_with(b.subst.bindings, a.subst.bindings)
    &&& b.subst.widths == a.subst.widths
    &&& b.quantified == a.quantified
    &&& b.defaults == a.defaults
    &&& forall|v: u32| #[trigger]
        bound(b.subst.bindings, v) ==> bound(a.subst.bindings, v) || !spared(a, v)
}

/// A default type holds no variable and is left as it is.
proof fn lemma_default_is_closed(d: NumberDefault, b: Seq<(u32, TyV)>, k: nat)
    ensures
        forall|v: u32| !#[trigger] mentions(default_type(d), v),
        forall|v: u32| !#[trigger] links(default_type(d), v),
        applied_from(b, k, default_type(d)) == default_type(d),
        !(default_type(d) is Var),
{
    let t = default_type(d);
    if let NumberDefault::Complex = d {
        let args = seq![TyV::Con("f32"@)];
        assert(args[0] == TyV::Con("f32"@));
        assert forall|v: u32| !#[trigger] mentions(t, v) by {
            assert(!mentions_first(args, 0, v));
            assert(!mentions(args[0], v));
            assert(!mentions_first(args, 1, v));
        }
        assert forall|v: u32| !#[trigger] links(t, v) by {
            crate::unify::lemma_links_mentioned(t, v);
        }
        let parts = applied_all_from(b, k, args);
        assert(parts =~= args);
        assert(crate::types::spliced(args) =~= args) by {
            assert(args.drop_last() =~= Seq::<TyV>::empty());
            reveal_with_fuel(crate::types::spliced, 2);
        }
    }
}

/// What a number's getting its default binds.
pub proof fn lemma_default_given(st: InferV, v: u32, d: NumberDefault)
    requires
        triangular(st.subst.bindings),
    ensures
        ({
            let st1 = default_given(st, v, d);
            &&& triangular(st1.subst.bindings)
            &&& st1.subst.widths == st.subst.widths
            &&& st1.quantified == st.quantified
            &&& st1.defaults == st.defaults
            &&& match open_root(st, v) {
                Some(root) => !bound(st.subst.bindings, root) && if spared(st, root) {
                    st1 == st
                } else {
                    st1.subst.bindings == st.subst.bindings.push((root, default_type(d)))
                },
                None => st1 == st,
            }
        }),
{
    let s = st.subst;
    if let Some(root) = open_root(st, v) {
        lemma_applied_settled(s.bindings, 0, TyV::Var(v));
        assert(links(TyV::Var(root), root));
        lemma_bound_at(s.bindings, 0, root);
        lemma_default_is_closed(d, s.bindings, 0);
        if !spared(st, root) {
            lemma_triangular_push(s.bindings, root, default_type(d));
        }
    }
}

/// Which variables are bound after one more binding.
proof fn lemma_bound_push(b: Seq<(u32, TyV)>, root: u32, t: TyV, v: u32)
    ensures
        bound(b.push((root, t)), v) <==> bound(b, v) || v == root,
{
    let c = b.push((root, t));
    lemma_bound_at(b, 0, v);
    lemma_bound_at(c, 0, v);
    assert(c[b.len() as int] == (root, t));
    if let Some(i) = bound_at(b, 0, v) {
        assert(c[i as int] == b[i as int]);
    }
    if let Some(i) = bound_at(c, 0, v) {
        if i < b.len() {
            assert(c[i as int] == b[i as int]);
        }
    }
}

proof fn lemma_defaults_spare(
    st: InferV,
    defaults: Seq<(u32, NumberDefault)>,
    i: nat,
    complex: bool,
)
    requires
        triangular(st.subst.bindings),
    ensures
        sparing(st, defaults_from(st, defaults, i, complex)),
    decreases defaults.len() - i,
{
    if i < defaults.len() {
        let (v, d) = defaults[i as int];
        let st1 = if (d == NumberDefault::Complex) == complex {
            default_given(st, v, d)
        } else {
            st
        };
        lemma_default_given(st, v, d);
        assert(sparing(st, st1)) by {
            if let Some(root) = open_root(st, v) {
                assert forall|w: u32| #[trigger]
                    bound(st1.subst.bindings, w) implies bound(st.subst.bindings, w) || !spared(
                    st,
                    w,
                ) by {
                    lemma_bound_push(st.subst.bindings, root, default_type(d), w);
                }
            }
        }
        lemma_defaults_spare(st1, defaults, i + 1, complex);
        let st2 = defaults_from(st1, defaults, i + 1, complex);
        assert forall|w: u32| #[trigger] bound(st2.subst.bindings, w) implies bound(
            st.subst.bindings,
            w,
        ) || !spared(st, w) by {
            if bound(st1.subst.bindings, w) {
            }
            assert(spared(st1, w) == spared(st, w));
        }
    }
}

/// Defaults bind no variable that a scheme quantifies, and none that stands for a constant.
pub proof fn lemma_defaults_spare_generics(st: InferV, v: u32)
    requires
        triangular(st.subst.bindings),
        st.quantified.contains(v) || st.subst.widths.contains_key(v),
        !bound(st.subst.bindings, v),
    ensures
        !bound(defaults_applied(st).subst.bindings, v),
        applied(defaults_applied(st).subst, TyV::Var(v)) == TyV::Var(v),
        defaults_applied(st).defaults.len() == 0,
{
    let st0 = InferV { defaults: Seq::empty(), ..st };
    lemma_defaults_spare(st0, st.defaults, 0, true);
    let st1 = defaults_from(st0, st.defaults, 0, true);
    lemma_defaults_spare(st1, st.defaults, 0, false);
    assert(spared(st0, v));
    assert(!bound(st1.subst.bindings, v));
    assert(spared(st1, v));
    let b = defaults_applied(st).subst.bindings;
    assert(!bound(b, v));
    assert(applied_from(b, 0, TyV::Var(v)) == TyV::Var(v));
}

/// A type that is known is kept by the defaults.
pub proof fn lemma_defaults_keep_known_types(st: InferV, t: TyV)
    requires
        triangular(st.subst.bindings),
        shut(applied(st.subst, t)),
    ensures
        applied(defaults_applied(st).subst, t) == applied(st.subst, t),
{
    let st0 = InferV { defaults: Seq::empty(), ..st };
    lemma_defaults_spare(st0, st.defaults, 0, true);
    let st1 = defaults_from(st0, st.defaults, 0, true);
    lemma_defaults_spare(st1, st.defaults, 0, false);
    lemma_shut_stays(st.subst.bindings, st1.subst.bindings, 0, t);
    lemma_shut_stays(st1.subst.bindings, defaults_applied(st).subst.bindings, 0, t);
}

/// What stands in a type for a variable, and for a pack of nothing, after an open variable
/// was bound to a default.
proof fn lemma_after_default(b: Seq<(u32, TyV)>, k: nat, t: TyV, root: u32, d: NumberDefault)
    requires
        k <= b.len(),
    ensures
        ({
            let c = b.push((root, default_type(d)));
            let before = applied_from(b, k, t);
            let after = applied_from(c, k, t);
            &&& match before {
                TyV::Var(y) => after == (if y == root {
                    default_type(d)
                } else {
                    TyV::Var(y)
                }),
                _ => !(after is Var),
            }
            &&& before == TyV::PackResolved(Seq::empty()) <==> after == TyV::PackResolved(
                Seq::empty(),
            )
        }),
    decreases b.len() - k, 1nat, t,
{
    let c = b.push((root, default_type(d)));
    match t {
        TyV::Var(v) => lemma_after_default_var(b, k, v, root, d),
        TyV::Pack(v) => lemma_after_default_var(b, k, v, root, d),
        TyV::PackResolved(elems) => {
            if elems.len() == 0 {
                assert(applied_all_from(b, k, elems) =~= Seq::empty());
                assert(applied_all_from(c, k, elems) =~= Seq::empty());
            } else {
                assert(applied_all_from(b, k, elems).len() == elems.len());
                assert(applied_all_from(c, k, elems).len() == elems.len());
            }
        },
        TyV::Array(elem, size) => {
            lemma_after_default(b, k, *elem, root, d);
            lemma_after_default(b, k, *size, root, d);
            lemma_empty_dims(applied_from(b, k, *elem), applied_from(b, k, *size));
            lemma_empty_dims(applied_from(c, k, *elem), applied_from(c, k, *size));
        },
        _ => {},
    }
}

/// An array keeps its shape unless its size is a pack of nothing.
proof fn lemma_empty_dims(elem: TyV, size: TyV)
    ensures
        size == TyV::PackResolved(Seq::empty()) ==> array_with(elem, size) == elem,
        size != TyV::PackResolved(Seq::empty()) ==> array_with(elem, size) is Array,
{
    if let TyV::PackResolved(dims) = size {
        if dims.len() == 0 {
            assert(dims =~= Seq::empty());
        }
    }
}

proof fn lemma_after_default_var(b: Seq<(u32, TyV)>, k: nat, v: u32, root: u32, d: NumberDefault)
    requires
        k <= b.len(),
    ensures
        ({
            let c = b.push((root, default_type(d)));
            let none = TyV::PackResolved(Seq::<TyV>::empty());
            &&& match applied_from(b, k, TyV::Var(v)) {
                TyV::Var(y) => applied_from(c, k, TyV::Var(v)) == (if y == root {
                    default_type(d)
                } else {
                    TyV::Var(y)
                }),
                _ => !(applied_from(c, k, TyV::Var(v)) is Var),
            }
            &&& match applied_from(b, k, TyV::Pack(v)) {
                TyV::Var(y) => applied_from(c, k, TyV::Pack(v)) == (if y == root {
                    default_type(d)
                } else {
                    TyV::Var(y)
                }),
                _ => !(applied_from(c, k, TyV::Pack(v)) is Var),
            }
            &&& applied_from(b, k, TyV::Var(v)) == none <==> applied_from(c, k, TyV::Var(v)) == none
            &&& applied_from(b, k, TyV::Pack(v)) == none <==> applied_from(c, k, TyV::Pack(v))
                == none
        }),
    decreases b.len() - k, 0nat, TyV::Var(v),
{
    let c = b.push((root, default_type(d)));
    lemma_bound_at(b, k, v);
    lemma_bound_at(c, k, v);
    lemma_default_is_closed(d, c, c.len());
    match bound_at(b, k, v) {
        Some(i) => {
            lemma_same_place(b, c, k, v);
            assert(c[i as int] == b[i as int]);
            lemma_after_default(b, i + 1, b[i as int].1, root, d);
        },
        None => {
            assert(c[b.len() as int] == (root, default_type(d)));
            if let Some(i) = bound_at(c, k, v) {
                if i < b.len() {
                    assert(c[i as int] == b[i as int]);
                }
            }
        },
    }
}

proof fn lemma_default_is_shut(d: NumberDefault)
    ensures
        shut(default_type(d)),
{
    if let NumberDefault::Complex = d {
        assert(shut(TyV::Con("f32"@)));
    }
}

/// An open variable gets the default that is given to what it stands for, or stays open; a
/// default that it got stays.
proof fn lemma_default_kept(st: InferV, v: u32, d: NumberDefault, x: u32)
    requires
        triangular(st.subst.bindings),
    ensures
        ({
            let st1 = default_given(st, v, d);
            &&& triangular(st1.subst.bindings)
            &&& match open_root(st, x) {
                Some(root) => if open_root(st, v) == Some(root) && !spared(st, root) {
                    applied(st1.subst, TyV::Var(x)) == default_type(d)
                } else {
                    open_root(st1, x) == Some(root)
                },
                None => open_root(st1, x) is None,
            }
            &&& forall|e: NumberDefault|
                applied(st.subst, TyV::Var(x)) == #[trigger] default_type(e) ==> applied(
                    st1.subst,
                    TyV::Var(x),
                ) == default_type(e)
        }),
{
    let st1 = default_given(st, v, d);
    lemma_default_given(st, v, d);
    if let Some(root) = open_root(st, v) {
        if !spared(st, root) {
            lemma_after_default(st.subst.bindings, 0, TyV::Var(x), root, d);
            assert forall|e: NumberDefault|
                applied(st.subst, TyV::Var(x)) == #[trigger] default_type(e) implies applied(
                st1.subst,
                TyV::Var(x),
            ) == default_type(e) by {
                lemma_default_is_shut(e);
                lemma_shut_stays(st.subst.bindings, st1.subst.bindings, 0, TyV::Var(x));
            }
        }
    }
}

/// What becomes of a variable while the numbers from the `i`th on get their defaults.
proof fn lemma_defaults_keep(
    st: InferV,
    defaults: Seq<(u32, NumberDefault)>,
    i: nat,
    complex: bool,
    x: u32,
)
    requires
        triangular(st.subst.bindings),
    ensures
        ({
            let st1 = defaults_from(st, defaults, i, complex);
            &&& triangular(st1.subst.bindings)
            &&& st1.quantified == st.quantified
            &&& st1.subst.widths == st.subst.widths
            &&& forall|e: NumberDefault|
                applied(st.subst, TyV::Var(x)) == #[trigger] default_type(e) ==> applied(
                    st1.subst,
                    TyV::Var(x),
                ) == default_type(e)
            &&& match open_root(st, x) {
                Some(root) => if exists|k: int| #[trigger] given(st, defaults, i, complex, k, root) {
                    complex ==> applied(st1.subst, TyV::Var(x)) == default_type(
                        NumberDefault::Complex,
                    )
                } else {
                    open_root(st1, x) == Some(root)
                },
                None => open_root(st1, x) is None,
            }
            &&& open_root(st, x) is Some && (exists|k: int| #[trigger]
                given(st, defaults, i, complex, k, open_root(st, x)->0)) ==> open_root(st1, x) is None
        }),
    decreases defaults.len() - i,
{
    if i < defaults.len() {
        let (v, d) = defaults[i as int];
        let now = (d == NumberDefault::Complex) == complex;
        let st1 = if now {
            default_given(st, v, d)
        } else {
            st
        };
        lemma_default_given(st, v, d);
        lemma_default_kept(st, v, d, x);
        lemma_defaults_keep(st1, defaults, i + 1, complex, x);
        if let Some(root) = open_root(st, x) {
            if now && open_root(st, v) == Some(root) && !spared(st, root) {
                assert(given(st, defaults, i, complex, i as int, root));
                lemma_default_is_closed(d, st1.subst.bindings, 0);
            } else {
                assert forall|k: int|
                    #![trigger given(st, defaults, i, complex, k, root)]
                    #![trigger given(st1, defaults, i + 1, complex, k, root)]
                    given(st, defaults, i, complex, k, root) <==> given(
                        st1,
                        defaults,
                        i + 1,
                        complex,
                        k,
                        root,
                    ) by {
                    if i < k < defaults.len() {
                        lemma_default_kept(st, v, d, defaults[k].0);
                    }
                }
                if exists|k: int| #[trigger] given(st, defaults, i, complex, k, root) {
                    let k = choose|k: int| #[trigger] given(st, defaults, i, complex, k, root);
                    assert(given(st1, defaults, i + 1, complex, k, root));
                }
            }
        }
    }
}

/// Whether the number at the `k`th place is one of those that get their defaults, and stands
/// for a variable that is open and not spared.
spec fn given(
    st: InferV,
    defaults: Seq<(u32, NumberDefault)>,
    i: nat,
    complex: bool,
    k: int,
    root: u32,
) -> bool {
    &&& i <= k < defaults.len()
    &&& (defaults[k].1 == NumberDefault::Complex) == complex
    &&& open_root(st, defaults[k].0) == Some(root)
    &&& !spared(st, root)
}

/// No number is left open: once the defaults were given, the variable of each number stands
/// for a type, or for a variable that gets no default.
pub proof fn lemma_numbers_get_types(st: InferV, k: int)
    requires
        triangular(st.subst.bindings),
        0 <= k < st.defaults.len(),
    ensures
        match open_root(defaults_applied(st), st.defaults[k].0) {
            Some(root) => open_root(st, st.defaults[k].0) == Some(root) && (st.quantified.contains(
                root,
            ) || st.subst.widths.contains_key(root)),
            None => true,
        },
{
    let st0 = InferV { defaults: Seq::empty(), ..st };
    let ds = st.defaults;
    let (x, d) = ds[k];
    lemma_defaults_keep(st0, ds, 0, true, x);
    let st1 = defaults_from(st0, ds, 0, true);
    lemma_defaults_keep(st1, ds, 0, false, x);
    if let Some(root) = open_root(st0, x) {
        if !spared(st0, root) {
            if d == NumberDefault::Complex {
                assert(given(st0, ds, 0, true, k, root));
            } else if open_root(st1, x) is Some {
                assert(given(st1, ds, 0, false, k, root));
            }
        }
    }
}

/// Where a number and a complex number have one type that nothing fixes, it is that of the
/// complex number, whichever of them comes first.
pub proof fn lemma_complex_wins(st: InferV, i: int, k: int)
    requires
        triangular(st.subst.bindings),
        0 <= i < st.defaults.len(),
        0 <= k < st.defaults.len(),
        st.defaults[i].1 == NumberDefault::Complex,
        open_root(st, st.defaults[i].0) is Some,
        open_root(st, st.defaults[k].0) == open_root(st, st.defaults[i].0),
        !spared(st, open_root(st, st.defaults[i].0)->0),
    ensures
        applied(defaults_applied(st).subst, TyV::Var(st.defaults[k].0)) == default_type(
            NumberDefault::Complex,
        ),
{
    let st0 = InferV { defaults: Seq::empty(), ..st };
    let ds = st.defaults;
    let x = ds[k].0;
    let root = open_root(st, x)->0;
    lemma_defaults_keep(st0, ds, 0, true, x);
    assert(given(st0, ds, 0, true, i, root));
    let st1 = defaults_from(st0, ds, 0, true);
    lemma_defaults_keep(st1, ds, 0, false, x);
}

// ---- a function whose types are settled ----

/// What is handed back of a function needs no more substitution: neither its result, nor its
/// parameters, nor any of its nodes has a type that holds a bound variable.
pub proof fn lemma_finished_is_settled(st: InferV, f: FnDecl, params: Seq<TyV>, result: TyV)
    requires
        fn_finished(st, f, params, result).1 is Ok,
        triangular(fn_finished(st, f, params, result).0.subst.bindings),
    ensures
        ({
            let (st1, r) = fn_finished(st, f, params, result);
            let b = st1.subst.bindings;
            &&& settled(b, r->Ok_0)
            &&& st1.param_types.len() == params.len()
            &&& forall|i: int| 0 <= i < params.len() ==> settled(b, #[trigger] st1.param_types[i])
            &&& forall|id: u32| #[trigger]
                st1.node_types.contains_key(id) ==> settled(b, st1.node_types[id])
        }),
{
    let (st1, _) = fn_finished(st, f, params, result);
    let b = st1.subst.bindings;
    lemma_applied_settled(b, 0, result);
    assert forall|i: int| 0 <= i < params.len() implies settled(
        b,
        #[trigger] st1.param_types[i],
    ) by {
        lemma_applied_settled(b, 0, params[i]);
    }
    let (st2, _) = all_checked(st);
    assert forall|id: u32| #[trigger] st1.node_types.contains_key(id) implies settled(
        b,
        st1.node_types[id],
    ) by {
        lemma_applied_settled(b, 0, st2.node_types[id]);
    }
}

proof fn lemma_no_placeholder_in_list(tys: Seq<TyV>, i: nat, k: int)
    requires
        placeholder_from(tys, i) is None,
        i <= k < tys.len(),
    ensures
        placeholder_in(tys[k]) is None,
    decreases tys.len() - i,
{
    if i < k {
        lemma_no_placeholder_in_list(tys, i + 1, k);
    }
}

/// What could not be inferred is not handed back as the type of the result or of a parameter
/// of a function with anything in its body.
pub proof fn lemma_finished_is_known(
    st: InferV,
    f: FnDecl,
    params: Seq<TyV>,
    result: TyV,
    k: int,
)
    requires
        fn_finished(st, f, params, result).1 is Ok,
        f.body is Some,
        body_span(f.body->0) is Some,
        0 <= k < params.len(),
    ensures
        placeholder_in(fn_finished(st, f, params, result).1->Ok_0) is None,
        placeholder_in(fn_finished(st, f, params, result).0.param_types[k]) is None,
{
    let (st1, _) = fn_finished(st, f, params, result);
    lemma_no_placeholder_in_list(st1.param_types, 0, k);
}

// ---- loops ----

/// A `while` or a `for` has no value.
pub proof fn lemma_plain_loops_have_no_value(st: InferV, env: EnvV, e: Expr)
    requires
        e.kind is While || e.kind is For || e.kind is ForIn,
        expr_type(st, env, e).1 is Ok,
    ensures
        expr_type(st, env, e).1->Ok_0 == unit_ty(),
{
    assert(kind_type(st, env, e).1 is Ok);
    match e.kind {
        ExprKind::While { cond, body } => {
            assert(kind_type(st, env, e) == while_type(st, env, e));
            let (st1, _) = condition_checked(st, env, *cond);
            assert(while_type(st, env, e) == plain_loop(st1, env, body));
        },
        ExprKind::For { var, start, end, body } => {
            assert(kind_type(st, env, e) == for_type(st, env, e));
            let (st1, r1) = expr_type(st, env, *start);
            let t = r1->Ok_0;
            let (st2, r2) = expr_type(st1, env, *end);
            let (st3, _) = unified_at(st2, end.span, t, r2->Ok_0);
            let st4 = demanding(st3, demand("Int"@, t, start.span));
            assert(for_type(st, env, e) == plain_loop(st4, env.insert(var@, mono(t)), body));
        },
        ExprKind::ForIn { var, iter, body } => {
            assert(kind_type(st, env, e) == for_in_type(st, env, e));
            let (st1, r1) = expr_type(st, env, *iter);
            let elem = next_var(st1);
            let array = TyV::Array(Box::new(elem), Box::new(next_var(minted(st1))));
            let (st2, _) = unified_at(minted(minted(st1)), iter.span, array, r1->Ok_0);
            assert(for_in_type(st, env, e) == plain_loop(st2, env.insert(var@, mono(elem)), body));
        },
        _ => {},
    }
}

/// A `break` where there is no loop is refused.
pub proof fn lemma_break_needs_loop(st: InferV, env: EnvV, s: Stmt)
    requires
        s.kind is Break,
        st.loops.len() == 0,
    ensures
        stmt_checked(st, env, s).1 == Err::<EnvV, TypeErrorV>(
            error_at(s.span, TypeErrorKindV::BreakOutsideLoop),
        ),
{
}

} // verus!
