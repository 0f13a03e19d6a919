//! Unification finds what types have in common wherever there is anything to find.

use vstd::prelude::*;

use crate::subst::{
    applied, applied_all_from, applied_from, bound_at, extends, lemma_bound_at, triangular, SubstV,
};
use crate::subst_laws::{
    lemma_settled_part, lemma_size_applied, lemma_size_at, size_of,
};
use crate::ty::TyV;
use crate::types::{mentions, mentions_first};
use crate::unify::{
    agree_now, lemma_applied_is_settled, lemma_extends_more, lemma_room, lemma_unified,
    lemma_unified_part, room,
    trailing_pack, unified, unified_first, unified_part, weight,
};
use crate::unify_laws::{
    fits_at, lemma_applied_plain, lemma_items_fit, lemma_plain_at, plain, plain_all, plain_first,
    plain_subst,
};

verus! {

/// A plain type with every variable replaced by what `f` makes of it.
pub open spec fn instance(f: spec_fn(u32) -> TyV, t: TyV) -> TyV
    decreases t,
{
    match t {
        TyV::Var(v) => f(v),
        TyV::App(name, args) => TyV::App(name, instances(f, args)),
        TyV::Fn(params, ret) => TyV::Fn(instances(f, params), Box::new(instance(f, *ret))),
        TyV::Array(elem, size) => TyV::Array(
            Box::new(instance(f, *elem)),
            Box::new(instance(f, *size)),
        ),
        _ => t,
    }
}

pub open spec fn instances(f: spec_fn(u32) -> TyV, tys: Seq<TyV>) -> Seq<TyV>
    decreases tys,
{
    Seq::new(
        tys.len(),
        |i: int|
            if 0 <= i < tys.len() {
                instance(f, tys[i])
            } else {
                arbitrary()
            },
    )
}

/// Whether every bound variable is replaced by what its binding becomes.
pub open spec fn respects(f: spec_fn(u32) -> TyV, b: Seq<(u32, TyV)>) -> bool {
    forall|i: int| 0 <= i < b.len() ==> f((#[trigger] b[i]).0) == instance(f, b[i].1)
}

/// Applying bindings makes no difference to what becomes of a type.
proof fn lemma_instance_applied(f: spec_fn(u32) -> TyV, b: Seq<(u32, TyV)>, k: nat, t: TyV)
    requires
        respects(f, b),
        plain(t),
        forall|i: int| 0 <= i < b.len() ==> plain((#[trigger] b[i]).1),
    ensures
        instance(f, applied_from(b, k, t)) == instance(f, t),
    decreases b.len() - k, t,
{
    lemma_applied_plain(b, k, t);
    match t {
        TyV::Var(v) => {
            lemma_bound_at(b, k, v);
            if let Some(i) = bound_at(b, k, v) {
                lemma_instance_applied(f, b, i + 1, b[i as int].1);
            }
        },
        TyV::App(_, args) => lemma_instances_applied(f, b, k, t, args),
        TyV::Fn(params, ret) => {
            lemma_instances_applied(f, b, k, t, params);
            lemma_instance_applied(f, b, k, *ret);
        },
        TyV::Array(elem, size) => {
            lemma_instance_applied(f, b, k, *elem);
            lemma_instance_applied(f, b, k, *size);
        },
        _ => {},
    }
}

proof fn lemma_instances_applied(
    f: spec_fn(u32) -> TyV,
    b: Seq<(u32, TyV)>,
    k: nat,
    t: TyV,
    tys: Seq<TyV>,
)
    requires
        respects(f, b),
        plain_first(tys, tys.len()),
        forall|i: int| 0 <= i < b.len() ==> plain((#[trigger] b[i]).1),
        t matches TyV::App(_, e) ==> e == tys,
        t matches TyV::Fn(e, _) ==> e == tys,
        t is App || t is Fn,
    ensures
        instances(f, applied_all_from(b, k, tys)) == instances(f, tys),
    decreases b.len() - k, tys,
{
    let l = instances(f, applied_all_from(b, k, tys));
    let r = instances(f, tys);
    assert forall|i: int| 0 <= i < tys.len() implies l[i] == r[i] by {
        lemma_plain_at(tys, tys.len(), i);
        lemma_instance_applied(f, b, k, tys[i]);
    }
    assert(l =~= r);
}

/// What becomes of a variable is smaller than what becomes of a type that holds it.
proof fn lemma_instance_larger(f: spec_fn(u32) -> TyV, t: TyV, v: u32)
    requires
        plain(t),
        mentions(t, v),
    ensures
        t != TyV::Var(v) ==> size_of(f(v)) < size_of(instance(f, t)),
        size_of(f(v)) <= size_of(instance(f, t)),
    decreases t, 0nat,
{
    match t {
        TyV::App(_, args) => lemma_instance_larger_first(f, args, args.len(), v),
        TyV::Fn(params, ret) => {
            if mentions(*ret, v) {
                lemma_instance_larger(f, *ret, v);
            } else {
                lemma_instance_larger_first(f, params, params.len(), v);
            }
        },
        TyV::Array(elem, size) => {
            if mentions(*elem, v) {
                lemma_instance_larger(f, *elem, v);
            } else {
                lemma_instance_larger(f, *size, v);
            }
        },
        _ => {},
    }
}

proof fn lemma_instance_larger_first(
    f: spec_fn(u32) -> TyV,
    tys: Seq<TyV>,
    n: nat,
    v: u32,
)
    requires
        plain_first(tys, n),
        mentions_first(tys, n, v),
    ensures
        size_of(f(v)) < size_of(TyV::PackResolved(instances(f, tys))),
    decreases tys, n,
{
    if mentions(tys[n - 1], v) {
        lemma_instance_larger(f, tys[n - 1], v);
        lemma_size_at(instances(f, tys), tys.len(), n - 1);
    } else {
        lemma_instance_larger_first(f, tys, (n - 1) as nat, v);
    }
}

/// Unification fails only where nothing unifies, and finds no more than it must: if the
/// variables of two plain types can be replaced so that the types become the same, and so
/// that what is bound stays so, they unify, and the replacement respects all that is bound
/// then.
pub proof fn lemma_unify_most_general(s: SubstV, a: TyV, b: TyV, f: spec_fn(u32) -> TyV)
    requires
        plain_all(s.bindings),
        triangular(s.bindings),
        plain(a),
        plain(b),
        respects(f, s.bindings),
        instance(f, a) == instance(f, b),
    ensures
        unified(s, a, b).1 is None,
        respects(f, unified(s, a, b).0.bindings),
        plain_all(unified(s, a, b).0.bindings),
    decreases room(s), weight(s, a, b), 1nat, 0nat,
{
    let x = applied(s, a);
    let y = applied(s, b);
    let r = room(s);
    let w = weight(s, a, b);
    lemma_applied_plain(s.bindings, 0, a);
    lemma_applied_plain(s.bindings, 0, b);
    lemma_applied_is_settled(s, a);
    lemma_applied_is_settled(s, b);
    lemma_instance_applied(f, s.bindings, 0, a);
    lemma_instance_applied(f, s.bindings, 0, b);
    if !agree_now(x, y) {
        match (x, y) {
            (TyV::Var(v), _) => {
                if mentions(y, v) {
                    lemma_instance_larger(f, y, v);
                }
                lemma_respects_one_more(f, s.bindings, v, y);
            },
            (_, TyV::Var(v)) => {
                if mentions(x, v) {
                    lemma_instance_larger(f, x, v);
                }
                lemma_respects_one_more(f, s.bindings, v, x);
            },
            (TyV::Fn(p1, r1), TyV::Fn(p2, r2)) => {
                assert(instances(f, p1) == instances(f, p2));
                assert(instances(f, p1).len() == instances(f, p2).len());
                lemma_items_fit(s, x, y, p1, p2, p1.len());
                lemma_instances_each(f, p1, p2);
                let s1 = unified_first(r, w, s, p1, p2, 0, p1.len()).0;
                lemma_first_general(r, w, s, s, p1, p2, 0, f);
                lemma_settled_part(s.bindings, x, *r1);
                lemma_settled_part(s.bindings, y, *r2);
                lemma_size_applied(s.bindings, *r1);
                lemma_size_applied(s.bindings, *r2);
                lemma_part_general(r, w, s, s1, *r1, *r2, f);
            },
            (TyV::App(_, a1), TyV::App(_, a2)) => {
                assert(instances(f, a1) == instances(f, a2));
                assert(instances(f, a1).len() == instances(f, a2).len());
                if a1.len() > 0 {
                    lemma_plain_at(a1, a1.len(), a1.len() - 1);
                    lemma_plain_at(a2, a2.len(), a2.len() - 1);
                }
                assert(trailing_pack(a1) is None);
                assert(trailing_pack(a2) is None);
                lemma_items_fit(s, x, y, a1, a2, a1.len());
                lemma_instances_each(f, a1, a2);
                lemma_first_general(r, w, s, s, a1, a2, 0, f);
            },
            (TyV::Array(e1, z1), TyV::Array(e2, z2)) => {
                lemma_settled_part(s.bindings, x, *e1);
                lemma_settled_part(s.bindings, y, *e2);
                lemma_settled_part(s.bindings, x, *z1);
                lemma_settled_part(s.bindings, y, *z2);
                lemma_size_applied(s.bindings, *e1);
                lemma_size_applied(s.bindings, *e2);
                lemma_size_applied(s.bindings, *z1);
                lemma_size_applied(s.bindings, *z2);
                let s1 = unified_part(r, w, s, *e1, *e2).0;
                lemma_part_general(r, w, s, s, *e1, *e2, f);
                lemma_part_general(r, w, s, s1, *z1, *z2, f);
            },
            _ => {},
        }
    }
}

proof fn lemma_respects_one_more(f: spec_fn(u32) -> TyV, b: Seq<(u32, TyV)>, v: u32, t: TyV)
    requires
        respects(f, b),
        f(v) == instance(f, t),
        plain_all(b),
        plain(t),
    ensures
        respects(f, b.push((v, t))),
        plain_all(b.push((v, t))),
{
    let c = b.push((v, t));
    assert forall|i: int| 0 <= i < c.len() implies plain((#[trigger] c[i]).1) by {
        if i < b.len() {
            assert(c[i] == b[i]);
        }
    }
    assert forall|i: int| 0 <= i < c.len() implies f((#[trigger] c[i]).0) == instance(
        f,
        c[i].1,
    ) by {
        if i < b.len() {
            assert(c[i] == b[i]);
        }
    }
}

proof fn lemma_instances_each(f: spec_fn(u32) -> TyV, xs: Seq<TyV>, ys: Seq<TyV>)
    requires
        xs.len() == ys.len(),
        instances(f, xs) == instances(f, ys),
    ensures
        forall|i: int| 0 <= i < xs.len() ==> instance(f, #[trigger] xs[i]) == instance(f, ys[i]),
{
    assert forall|i: int| 0 <= i < xs.len() implies instance(f, #[trigger] xs[i]) == instance(
        f,
        ys[i],
    ) by {
        assert(instances(f, xs)[i] == instances(f, ys)[i]);
    }
}

/// A part of two types that are being unified. `s` is what was bound when the whole was
/// begun, `s1` what is bound now.
proof fn lemma_part_general(
    r: nat,
    w: nat,
    s: SubstV,
    s1: SubstV,
    a: TyV,
    b: TyV,
    f: spec_fn(u32) -> TyV,
)
    requires
        plain_all(s.bindings),
        plain_all(s1.bindings),
        triangular(s.bindings),
        triangular(s1.bindings),
        extends(s1, s),
        r == room(s),
        plain(a),
        plain(b),
        fits_at(w, s, a, b),
        respects(f, s1.bindings),
        instance(f, a) == instance(f, b),
    ensures
        unified_part(r, w, s1, a, b).1 is None,
        ({
            let t = unified_part(r, w, s1, a, b).0;
            &&& plain_all(t.bindings)
            &&& triangular(t.bindings)
            &&& extends(t, s1)
            &&& respects(f, t.bindings)
        }),
    decreases r, w, 0nat, 0nat,
{
    lemma_room(s, s1);
    lemma_unify_most_general(s1, a, b, f);
    lemma_unified_part(r, w, s1, a, b);
}

/// The parts of two types from the `i`th on.
proof fn lemma_first_general(
    r: nat,
    w: nat,
    s: SubstV,
    s1: SubstV,
    xs: Seq<TyV>,
    ys: Seq<TyV>,
    i: nat,
    f: spec_fn(u32) -> TyV,
)
    requires
        plain_all(s.bindings),
        plain_all(s1.bindings),
        triangular(s.bindings),
        triangular(s1.bindings),
        extends(s1, s),
        r == room(s),
        i <= xs.len() == ys.len(),
        plain_first(xs, xs.len()),
        plain_first(ys, ys.len()),
        forall|k: int| 0 <= k < xs.len() ==> fits_at(w, s, #[trigger] xs[k], ys[k]),
        forall|k: int| 0 <= k < xs.len() ==> instance(f, #[trigger] xs[k]) == instance(f, ys[k]),
        respects(f, s1.bindings),
    ensures
        unified_first(r, w, s1, xs, ys, i, xs.len()).1 is None,
        ({
            let t = unified_first(r, w, s1, xs, ys, i, xs.len()).0;
            &&& plain_all(t.bindings)
            &&& triangular(t.bindings)
            &&& extends(t, s1)
            &&& respects(f, t.bindings)
        }),
    decreases r, w, 0nat, 1 + xs.len() - i,
{
    if i < xs.len() {
        let s2 = unified_part(r, w, s1, xs[i as int], ys[i as int]).0;
        lemma_plain_at(xs, xs.len(), i as int);
        lemma_plain_at(ys, ys.len(), i as int);
        lemma_part_general(r, w, s, s1, xs[i as int], ys[i as int], f);
        lemma_extends_more(s, s1, s2);
        lemma_first_general(r, w, s, s2, xs, ys, i + 1, f);
        let t = unified_first(r, w, s1, xs, ys, i, xs.len()).0;
        lemma_extends_more(s1, s2, t);
    }
}

/// Unifying plain types binds plain types alone, whether it succeeds or fails.
pub proof fn lemma_unify_keeps_plain(s: SubstV, a: TyV, b: TyV)
    requires
        plain_subst(s),
        plain(a),
        plain(b),
    ensures
        plain_subst(unified(s, a, b).0),
    decreases room(s), weight(s, a, b), 1nat, 0nat,
{
    let x = applied(s, a);
    let y = applied(s, b);
    let r = room(s);
    let w = weight(s, a, b);
    lemma_unified(s, a, b);
    lemma_applied_plain(s.bindings, 0, a);
    lemma_applied_plain(s.bindings, 0, b);
    lemma_applied_is_settled(s, a);
    lemma_applied_is_settled(s, b);
    if !agree_now(x, y) {
        match (x, y) {
            (TyV::Var(v), _) => lemma_plain_one_more(s.bindings, v, y),
            (_, TyV::Var(v)) => lemma_plain_one_more(s.bindings, v, x),
            (TyV::Fn(p1, r1), TyV::Fn(p2, r2)) => {
                if p1.len() == p2.len() {
                    lemma_items_fit(s, x, y, p1, p2, p1.len());
                    let (s1, e) = unified_first(r, w, s, p1, p2, 0, p1.len());
                    lemma_first_keeps(r, w, s, s, p1, p2, 0);
                    if e is None {
                        lemma_settled_part(s.bindings, x, *r1);
                        lemma_settled_part(s.bindings, y, *r2);
                        lemma_size_applied(s.bindings, *r1);
                        lemma_size_applied(s.bindings, *r2);
                        lemma_part_keeps(r, w, s, s1, *r1, *r2);
                    }
                }
            },
            (TyV::App(_, a1), TyV::App(_, a2)) => {
                if a1.len() > 0 {
                    lemma_plain_at(a1, a1.len(), a1.len() - 1);
                }
                if a2.len() > 0 {
                    lemma_plain_at(a2, a2.len(), a2.len() - 1);
                }
                assert(trailing_pack(a1) is None);
                assert(trailing_pack(a2) is None);
                if a1.len() == a2.len() {
                    lemma_items_fit(s, x, y, a1, a2, a1.len());
                    lemma_first_keeps(r, w, s, s, a1, a2, 0);
                }
            },
            (TyV::Array(e1, z1), TyV::Array(e2, z2)) => {
                lemma_settled_part(s.bindings, x, *e1);
                lemma_settled_part(s.bindings, y, *e2);
                lemma_settled_part(s.bindings, x, *z1);
                lemma_settled_part(s.bindings, y, *z2);
                lemma_size_applied(s.bindings, *e1);
                lemma_size_applied(s.bindings, *e2);
                lemma_size_applied(s.bindings, *z1);
                lemma_size_applied(s.bindings, *z2);
                let s1 = unified_part(r, w, s, *e1, *e2).0;
                lemma_part_keeps(r, w, s, s, *e1, *e2);
                lemma_part_keeps(r, w, s, s1, *z1, *z2);
            },
            _ => {},
        }
    }
}

proof fn lemma_plain_one_more(b: Seq<(u32, TyV)>, v: u32, t: TyV)
    requires
        plain_all(b),
        plain(t),
    ensures
        plain_all(b.push((v, t))),
{
    let c = b.push((v, t));
    assert forall|i: int| 0 <= i < c.len() implies plain((#[trigger] c[i]).1) by {
        if i < b.len() {
            assert(c[i] == b[i]);
        }
    }
}

proof fn lemma_part_keeps(r: nat, w: nat, s: SubstV, s1: SubstV, a: TyV, b: TyV)
    requires
        plain_subst(s),
        plain_subst(s1),
        extends(s1, s),
        r == room(s),
        plain(a),
        plain(b),
        fits_at(w, s, a, b),
    ensures
        plain_subst(unified_part(r, w, s1, a, b).0),
        extends(unified_part(r, w, s1, a, b).0, s),
    decreases r, w, 0nat, 0nat,
{
    lemma_room(s, s1);
    lemma_unify_keeps_plain(s1, a, b);
    lemma_unified_part(r, w, s1, a, b);
    lemma_extends_more(s, s1, unified_part(r, w, s1, a, b).0);
}

proof fn lemma_first_keeps(
    r: nat,
    w: nat,
    s: SubstV,
    s1: SubstV,
    xs: Seq<TyV>,
    ys: Seq<TyV>,
    i: nat,
)
    requires
        plain_subst(s),
        plain_subst(s1),
        extends(s1, s),
        r == room(s),
        i <= xs.len() == ys.len(),
        plain_first(xs, xs.len()),
        plain_first(ys, ys.len()),
        forall|k: int| 0 <= k < xs.len() ==> fits_at(w, s, #[trigger] xs[k], ys[k]),
    ensures
        plain_subst(unified_first(r, w, s1, xs, ys, i, xs.len()).0),
        extends(unified_first(r, w, s1, xs, ys, i, xs.len()).0, s),
    decreases r, w, 0nat, 1 + xs.len() - i,
{
    if i < xs.len() {
        let (s2, e) = unified_part(r, w, s1, xs[i as int], ys[i as int]);
        lemma_plain_at(xs, xs.len(), i as int);
        lemma_plain_at(ys, ys.len(), i as int);
        lemma_part_keeps(r, w, s, s1, xs[i as int], ys[i as int]);
        if e is None {
            lemma_first_keeps(r, w, s, s2, xs, ys, i + 1);
        }
    }
}

} // verus!
