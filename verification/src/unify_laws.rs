//! What holds of two types once they have been unified.

use vstd::prelude::*;

use crate::apply_laws::{
    flat, flat_all, lemma_applied_again, lemma_not_before_item, lemma_not_before_part,
    lemma_place_free, lemma_same_place, lemma_spliced_none,
};
use crate::subst::{
    applied, applied_all_from, applied_from, bind, bound, bound_at, extends, grows,
    lemma_bound_at,
    links, starts_with, triangular, SubstV,
};
use crate::subst_laws::{
    lemma_links_at, lemma_settled_item, lemma_settled_part, lemma_size_applied, lemma_size_at,
    not_before, settled, size_of,
};
use crate::ty::TyV;
use crate::types::{array_with, folded, nested, spliced};
use crate::unify::{
    agree_now, const_has_type, lemma_applied_is_settled, lemma_extends_more,
    lemma_links_mentioned, lemma_pack_taken, lemma_room, lemma_unified, lemma_unified_first,
    lemma_unified_part, pack_taken, room, trailing_pack, unified, unified_first, unified_part,
    weight,
};

verus! {

/// Whether a type is built from variables, names, constants, applications, functions
/// and arrays alone.
pub open spec fn plain(t: TyV) -> bool
    decreases t, 0nat,
{
    match t {
        TyV::Var(_) => true,
        TyV::Con(_) => true,
        TyV::Const(_) => true,
        TyV::App(_, args) => plain_first(args, args.len()),
        TyV::Fn(params, ret) => plain_first(params, params.len()) && plain(*ret),
        TyV::Array(elem, size) => plain(*elem) && plain(*size),
        _ => false,
    }
}

pub open spec fn plain_first(tys: Seq<TyV>, n: nat) -> bool
    decreases tys, n,
{
    n == 0 || n > tys.len() || (plain(tys[n - 1]) && plain_first(tys, (n - 1) as nat))
}

pub proof fn lemma_plain_at(tys: Seq<TyV>, n: nat, i: int)
    requires
        plain_first(tys, n),
        0 <= i < n <= tys.len(),
    ensures
        plain(tys[i]),
    decreases n,
{
    if i < n - 1 {
        lemma_plain_at(tys, (n - 1) as nat, i);
    }
}

pub proof fn lemma_plain_all(tys: Seq<TyV>, n: nat)
    requires
        n <= tys.len(),
        forall|i: int| 0 <= i < n ==> plain(#[trigger] tys[i]),
    ensures
        plain_first(tys, n),
    decreases n,
{
    if n > 0 {
        lemma_plain_all(tys, (n - 1) as nat);
    }
}

/// Whether every binding is a plain type.
pub open spec fn plain_all(b: Seq<(u32, TyV)>) -> bool {
    forall|i: int| 0 <= i < b.len() ==> plain((#[trigger] b[i]).1)
}

/// Whether every binding is a plain type, the bindings are in order, and nothing stands for a
/// constant.
pub open spec fn plain_subst(s: SubstV) -> bool {
    &&& plain_all(s.bindings)
    &&& triangular(s.bindings)
    &&& forall|v: u32| !#[trigger] s.widths.contains_key(v)
}

/// A list of plain types has no packs to put in place.
pub proof fn lemma_spliced_plain(tys: Seq<TyV>)
    requires
        forall|i: int| 0 <= i < tys.len() ==> plain(#[trigger] tys[i]),
    ensures
        spliced(tys) == tys,
    decreases tys.len(),
{
    if tys.len() > 0 {
        let most = tys.drop_last();
        assert forall|i: int| 0 <= i < most.len() implies plain(#[trigger] most[i]) by {
            assert(most[i] == tys[i]);
        }
        lemma_spliced_plain(most);
        assert(plain(tys[tys.len() - 1]));
        assert(spliced(tys) =~= tys);
    }
}

/// Applying plain bindings to a plain type gives a plain type of the same outer form,
/// unless it is a variable.
pub proof fn lemma_applied_plain(b: Seq<(u32, TyV)>, k: nat, t: TyV)
    requires
        plain(t),
        forall|i: int| 0 <= i < b.len() ==> plain((#[trigger] b[i]).1),
    ensures
        plain(applied_from(b, k, t)),
        t matches TyV::App(name, args) ==> applied_from(b, k, t) == TyV::App(
            name,
            applied_all_from(b, k, args),
        ),
        t matches TyV::Array(elem, size) ==> applied_from(b, k, t) == TyV::Array(
            Box::new(applied_from(b, k, *elem)),
            Box::new(applied_from(b, k, *size)),
        ),
    decreases b.len() - k, t,
{
    match t {
        TyV::Var(v) => {
            lemma_bound_at(b, k, v);
            if let Some(i) = bound_at(b, k, v) {
                lemma_applied_plain(b, i + 1, b[i as int].1);
            }
        },
        TyV::App(name, args) => {
            let parts = applied_all_from(b, k, args);
            assert forall|i: int| 0 <= i < parts.len() implies plain(#[trigger] parts[i]) by {
                lemma_plain_at(args, args.len(), i);
                lemma_applied_plain(b, k, args[i]);
            }
            lemma_spliced_plain(parts);
            lemma_plain_all(parts, parts.len());
        },
        TyV::Fn(params, ret) => {
            let parts = applied_all_from(b, k, params);
            assert forall|i: int| 0 <= i < parts.len() implies plain(#[trigger] parts[i]) by {
                lemma_plain_at(params, params.len(), i);
                lemma_applied_plain(b, k, params[i]);
            }
            lemma_plain_all(parts, parts.len());
            lemma_applied_plain(b, k, *ret);
        },
        TyV::Array(elem, size) => {
            lemma_applied_plain(b, k, *elem);
            lemma_applied_plain(b, k, *size);
        },
        _ => {},
    }
}

// ---- types that agree ----

/// Whether there is a variable that stands for a constant.
pub open spec fn has_slots(w: Map<u32, TyV>) -> bool {
    exists|v: u32| w.contains_key(v)
}

/// Whether a type can stand beside a type name: a constant of that type can. A variable that
/// stands for a constant can stand beside any name, and so can whatever constant it comes to
/// stand for.
pub open spec fn beside(w: Map<u32, TyV>, x: TyV, name: Seq<char>) -> bool {
    match x {
        TyV::Const(c) => const_has_type(c, name) || has_slots(w),
        TyV::ConstExpr(..) => has_slots(w),
        TyV::PackLen(_) => has_slots(w),
        TyV::Var(v) => w.contains_key(v),
        _ => false,
    }
}

/// Whether two types are the same, but for constants beside type names. The variables that
/// stand for constants are the keys of `w`.
pub open spec fn alike(w: Map<u32, TyV>, x: TyV, y: TyV) -> bool
    decreases x,
{
    match (x, y) {
        (TyV::Con(a), TyV::Con(b)) => a == b,
        (TyV::Con(n), _) => beside(w, y, n),
        (_, TyV::Con(n)) => beside(w, x, n),
        (TyV::Const(a), TyV::Const(b)) => a == b,
        (TyV::Var(a), TyV::Var(b)) => a == b,
        (TyV::Pack(a), TyV::Pack(b)) => a == b,
        (TyV::PackLen(a), TyV::PackLen(b)) => a == b,
        (TyV::PackResolved(e1), TyV::PackResolved(e2)) => e1.len() == e2.len() && forall|i: int|
            0 <= i < e1.len() ==> alike(w, #[trigger] e1[i], e2[i]),
        (TyV::App(n1, a1), TyV::App(n2, a2)) => n1 == n2 && a1.len() == a2.len() && forall|i: int|
            0 <= i < a1.len() ==> alike(w, #[trigger] a1[i], a2[i]),
        (TyV::Fn(p1, r1), TyV::Fn(p2, r2)) => p1.len() == p2.len() && alike(w, *r1, *r2)
            && forall|i: int| 0 <= i < p1.len() ==> alike(w, #[trigger] p1[i], p2[i]),
        (TyV::Array(e1, s1), TyV::Array(e2, s2)) => alike(w, *e1, *e2) && alike(w, *s1, *s2),
        (TyV::ConstExpr(o1, x1, y1), TyV::ConstExpr(o2, x2, y2)) => o1 == o2 && alike(
            w,
            *x1,
            *x2,
        ) && alike(w, *y1, *y2),
        _ => false,
    }
}

/// Whether two lists of types are alike, item by item.
pub open spec fn alike_all(w: Map<u32, TyV>, xs: Seq<TyV>, ys: Seq<TyV>) -> bool {
    xs.len() == ys.len() && forall|i: int| 0 <= i < xs.len() ==> alike(w, #[trigger] xs[i], ys[i])
}

/// A type is like itself.
pub proof fn lemma_alike_self(w: Map<u32, TyV>, x: TyV)
    ensures
        alike(w, x, x),
    decreases x,
{
    match x {
        TyV::PackResolved(elems) => lemma_alike_selves(w, elems),
        TyV::App(_, args) => lemma_alike_selves(w, args),
        TyV::Fn(params, ret) => {
            lemma_alike_selves(w, params);
            lemma_alike_self(w, *ret);
        },
        TyV::Array(elem, size) => {
            lemma_alike_self(w, *elem);
            lemma_alike_self(w, *size);
        },
        TyV::ConstExpr(_, a, b) => {
            lemma_alike_self(w, *a);
            lemma_alike_self(w, *b);
        },
        _ => {},
    }
}

proof fn lemma_alike_selves(w: Map<u32, TyV>, xs: Seq<TyV>)
    ensures
        alike_all(w, xs, xs),
    decreases xs,
{
    assert forall|i: int| 0 <= i < xs.len() implies alike(w, #[trigger] xs[i], xs[i]) by {
        lemma_alike_self(w, xs[i]);
    }
}

proof fn lemma_alike_add(
    w: Map<u32, TyV>,
    a: Seq<TyV>,
    b: Seq<TyV>,
    x: Seq<TyV>,
    y: Seq<TyV>,
)
    requires
        alike_all(w, a, b),
        alike_all(w, x, y),
    ensures
        alike_all(w, a + x, b + y),
{
    let l = a + x;
    let r = b + y;
    assert forall|i: int| 0 <= i < l.len() implies alike(w, #[trigger] l[i], r[i]) by {
        if i < a.len() {
            assert(l[i] == a[i] && r[i] == b[i]);
        } else {
            assert(l[i] == x[i - a.len()] && r[i] == y[i - a.len()]);
        }
    }
}

/// Lists that are alike stay so when the items of packs are put in place.
proof fn lemma_alike_spliced(w: Map<u32, TyV>, xs: Seq<TyV>, ys: Seq<TyV>)
    requires
        alike_all(w, xs, ys),
    ensures
        alike_all(w, spliced(xs), spliced(ys)),
    decreases xs.len(),
{
    if xs.len() > 0 {
        let a = xs.drop_last();
        let b = ys.drop_last();
        assert forall|i: int| 0 <= i < a.len() implies alike(w, #[trigger] a[i], b[i]) by {
            assert(a[i] == xs[i] && b[i] == ys[i]);
        }
        lemma_alike_spliced(w, a, b);
        assert(alike(w, xs[xs.len() - 1], ys[xs.len() - 1]));
        match (xs.last(), ys.last()) {
            (TyV::PackResolved(e1), TyV::PackResolved(e2)) => {
                assert(alike_all(w, e1, e2));
                lemma_alike_add(w, spliced(a), spliced(b), e1, e2);
            },
            (x, y) => {
                lemma_alike_add(w, spliced(a), spliced(b), seq![x], seq![y]);
                assert(spliced(xs) =~= spliced(a) + seq![x]);
                assert(spliced(ys) =~= spliced(b) + seq![y]);
            },
        }
    }
}

proof fn lemma_alike_nested(
    w: Map<u32, TyV>,
    e1: TyV,
    e2: TyV,
    d1: Seq<TyV>,
    d2: Seq<TyV>,
)
    requires
        alike(w, e1, e2),
        alike_all(w, d1, d2),
    ensures
        alike(w, nested(e1, d1), nested(e2, d2)),
    decreases d1.len(),
{
    if d1.len() > 0 {
        let r1 = d1.subrange(1, d1.len() as int);
        let r2 = d2.subrange(1, d2.len() as int);
        assert forall|i: int| 0 <= i < r1.len() implies alike(w, #[trigger] r1[i], r2[i]) by {
            assert(r1[i] == d1[i + 1] && r2[i] == d2[i + 1]);
        }
        lemma_alike_nested(w, e1, e2, r1, r2);
        assert(alike(w, d1[0], d2[0]));
    }
}

proof fn lemma_alike_arrays(w: Map<u32, TyV>, e1: TyV, e2: TyV, s1: TyV, s2: TyV)
    requires
        alike(w, e1, e2),
        alike(w, s1, s2),
    ensures
        alike(w, array_with(e1, s1), array_with(e2, s2)),
{
    match (s1, s2) {
        (TyV::PackResolved(d1), TyV::PackResolved(d2)) => {
            assert(alike_all(w, d1, d2));
            lemma_alike_nested(w, e1, e2, d1, d2);
        },
        _ => {},
    }
}

// ---- types that bindings cannot make disagree ----

/// Whether the bindings make no operand of a computed constant a type name.
pub open spec fn unnamed(c: Seq<(u32, TyV)>, t: TyV) -> bool
    decreases t,
{
    match t {
        TyV::PackResolved(elems) => forall|i: int|
            0 <= i < elems.len() ==> unnamed(c, #[trigger] elems[i]),
        TyV::App(_, args) => forall|i: int|
            0 <= i < args.len() ==> unnamed(c, #[trigger] args[i]),
        TyV::Fn(params, ret) => unnamed(c, *ret) && forall|i: int|
            0 <= i < params.len() ==> unnamed(c, #[trigger] params[i]),
        TyV::Array(elem, size) => unnamed(c, *elem) && unnamed(c, *size),
        TyV::ConstExpr(_, x, y) => unnamed(c, *x) && unnamed(c, *y) && !(applied_from(c, 0, *x)
            is Con) && !(applied_from(c, 0, *y) is Con),
        _ => true,
    }
}

/// Whether no pack in the type comes to hold a pack, and no operand of a computed constant
/// comes to be a type name.
pub open spec fn fair(c: Seq<(u32, TyV)>, t: TyV) -> bool {
    flat(c, t) && unnamed(c, t)
}

pub open spec fn fair_all(c: Seq<(u32, TyV)>) -> bool {
    flat_all(c) && forall|i: int| 0 <= i < c.len() ==> unnamed(c, (#[trigger] c[i]).1)
}

/// Whether the bindings from the `n`th on make variables that stand for constants constants.
pub open spec fn slots_from(t: SubstV, n: nat) -> bool {
    forall|i: int|
        n <= i < t.bindings.len() && t.widths.contains_key((#[trigger] t.bindings[i]).0)
            ==> constant(t.widths, t.bindings[i].1)
}

/// Whether a type is a constant, or a variable that stands for one.
pub open spec fn constant(w: Map<u32, TyV>, t: TyV) -> bool {
    match t {
        TyV::Const(_) => true,
        TyV::ConstExpr(..) => true,
        TyV::PackLen(_) => true,
        TyV::Var(v) => w.contains_key(v),
        _ => false,
    }
}

proof fn lemma_unnamed_spliced(c: Seq<(u32, TyV)>, ps: Seq<TyV>)
    requires
        forall|i: int| 0 <= i < ps.len() ==> unnamed(c, #[trigger] ps[i]),
    ensures
        forall|i: int| 0 <= i < spliced(ps).len() ==> unnamed(c, #[trigger] spliced(ps)[i]),
    decreases ps.len(),
{
    if ps.len() > 0 {
        let init = ps.drop_last();
        assert forall|i: int| 0 <= i < init.len() implies unnamed(c, #[trigger] init[i]) by {
            assert(init[i] == ps[i]);
        }
        lemma_unnamed_spliced(c, init);
        let n = spliced(init).len();
        assert(unnamed(c, ps[ps.len() - 1]));
        assert forall|i: int| 0 <= i < spliced(ps).len() implies unnamed(
            c,
            #[trigger] spliced(ps)[i],
        ) by {
            if i < n {
                assert(spliced(ps)[i] == spliced(init)[i]);
            } else {
                match ps.last() {
                    TyV::PackResolved(es) => {
                        assert(spliced(ps)[i] == es[i - n]);
                    },
                    x => {
                        assert(spliced(ps)[i] == x);
                    },
                }
            }
        }
    }
}

proof fn lemma_unnamed_nested(c: Seq<(u32, TyV)>, elem: TyV, dims: Seq<TyV>)
    requires
        unnamed(c, elem),
        forall|i: int| 0 <= i < dims.len() ==> unnamed(c, #[trigger] dims[i]),
    ensures
        unnamed(c, nested(elem, dims)),
    decreases dims.len(),
{
    if dims.len() > 0 {
        let rest = dims.subrange(1, dims.len() as int);
        assert forall|i: int| 0 <= i < rest.len() implies unnamed(c, #[trigger] rest[i]) by {
            assert(rest[i] == dims[i + 1]);
        }
        lemma_unnamed_nested(c, elem, rest);
        assert(unnamed(c, dims[0]));
    }
}

/// What some of the bindings make of a type that they cannot make disagree is such a type.
pub proof fn lemma_unnamed_again(b: Seq<(u32, TyV)>, c: Seq<(u32, TyV)>, k: nat, t: TyV)
    requires
        triangular(c),
        starts_with(c, b),
        k <= b.len(),
        fair_all(c),
        fair(c, t),
        not_before(b, k, t),
    ensures
        unnamed(c, applied_from(b, k, t)),
    decreases b.len() - k, t, 1nat,
{
    match t {
        TyV::Var(v) => lemma_unnamed_again_var(b, c, k, t, v),
        TyV::Pack(v) => lemma_unnamed_again_var(b, c, k, t, v),
        TyV::PackResolved(elems) => {
            lemma_unnamed_again_all(b, c, k, t, elems);
            assert(unnamed(c, TyV::PackResolved(applied_all_from(b, k, elems))));
        },
        TyV::App(name, args) => {
            lemma_unnamed_again_all(b, c, k, t, args);
            lemma_unnamed_spliced(c, applied_all_from(b, k, args));
            assert(unnamed(c, TyV::App(name, spliced(applied_all_from(b, k, args)))));
        },
        TyV::Fn(params, ret) => {
            lemma_unnamed_again_all(b, c, k, t, params);
            lemma_not_before_part(b, k, t, *ret);
            lemma_unnamed_again(b, c, k, *ret);
            let r = applied_from(b, k, *ret);
            assert(unnamed(c, TyV::Fn(applied_all_from(b, k, params), Box::new(r))));
        },
        TyV::Array(elem, size) => {
            lemma_not_before_part(b, k, t, *elem);
            lemma_not_before_part(b, k, t, *size);
            lemma_unnamed_again(b, c, k, *elem);
            lemma_unnamed_again(b, c, k, *size);
            if let TyV::PackResolved(dims) = applied_from(b, k, *size) {
                assert forall|i: int| 0 <= i < dims.len() implies unnamed(
                    c,
                    #[trigger] dims[i],
                ) by {
                    assert(unnamed(c, applied_from(b, k, *size)));
                }
                lemma_unnamed_nested(c, applied_from(b, k, *elem), dims);
            }
        },
        TyV::ConstExpr(_, x, y) => {
            lemma_not_before_part(b, k, t, *x);
            lemma_not_before_part(b, k, t, *y);
            lemma_unnamed_again(b, c, k, *x);
            lemma_unnamed_again(b, c, k, *y);
            lemma_applied_again(b, c, k, *x);
            lemma_applied_again(b, c, k, *y);
            lemma_place_free(b, c, k, *x);
            lemma_place_free(b, c, k, *y);
            let l = applied_from(b, k, *x);
            let r = applied_from(b, k, *y);
            assert(!(applied_from(c, 0, l) is Con) && !(applied_from(c, 0, r) is Con));
        },
        _ => {},
    }
}

proof fn lemma_unnamed_again_var(
    b: Seq<(u32, TyV)>,
    c: Seq<(u32, TyV)>,
    k: nat,
    t: TyV,
    v: u32,
)
    requires
        triangular(c),
        starts_with(c, b),
        k <= b.len(),
        fair_all(c),
        not_before(b, k, t),
        t == TyV::Var(v) || t == TyV::Pack(v),
    ensures
        unnamed(c, applied_from(b, k, t)),
    decreases b.len() - k, t, 0nat,
{
    lemma_bound_at(b, k, v);
    if let Some(i) = bound_at(b, k, v) {
        let next = b[i as int].1;
        assert(c[i as int] == b[i as int]);
        assert(flat(c, c[i as int].1) && unnamed(c, c[i as int].1));
        assert forall|w: u32, j: int|
            #![trigger links(next, w), b[j]]
            0 <= j < i + 1 && j < b.len() && links(next, w) implies b[j].0 != w by {
            assert(c[j] == b[j]);
            assert(!links(c[i as int].1, c[j].0));
        }
        lemma_unnamed_again(b, c, i + 1, next);
    }
}

proof fn lemma_unnamed_again_all(
    b: Seq<(u32, TyV)>,
    c: Seq<(u32, TyV)>,
    k: nat,
    t: TyV,
    items: Seq<TyV>,
)
    requires
        triangular(c),
        starts_with(c, b),
        k <= b.len(),
        fair_all(c),
        fair(c, t),
        not_before(b, k, t),
        t matches TyV::PackResolved(e) ==> e == items,
        t matches TyV::App(_, e) ==> e == items,
        t matches TyV::Fn(e, _) ==> e == items,
        t is PackResolved || t is App || t is Fn,
    ensures
        forall|i: int|
            0 <= i < items.len() ==> unnamed(c, #[trigger] applied_all_from(b, k, items)[i]),
    decreases b.len() - k, items, 1nat,
{
    let parts = applied_all_from(b, k, items);
    assert forall|i: int| 0 <= i < items.len() implies unnamed(c, #[trigger] parts[i]) by {
        assert(flat(c, items[i]) && unnamed(c, items[i]));
        lemma_not_before_item(b, k, t, items, i);
        lemma_unnamed_again(b, c, k, items[i]);
    }
}

/// What a variable that stands for a constant comes to stand for.
proof fn lemma_slot(t: SubstV, n: nat, k: nat, v: u32)
    requires
        slots_from(t, n),
        t.widths.contains_key(v),
        bound_at(t.bindings, k, v) matches Some(i) ==> n <= i,
        n <= k || bound_at(t.bindings, k, v) == bound_at(t.bindings, 0, v),
    ensures
        constant(t.widths, applied_from(t.bindings, k, TyV::Var(v))),
    decreases t.bindings.len() - k,
{
    let b = t.bindings;
    lemma_bound_at(b, k, v);
    if let Some(i) = bound_at(b, k, v) {
        let u = b[i as int].1;
        assert(constant(t.widths, u));
        let next = applied_from(b, i + 1, u);
        assert(applied_from(b, k, TyV::Var(v)) == next);
        match u {
            TyV::Var(w) => {
                lemma_bound_at(b, i + 1, w);
                lemma_slot(t, n, i + 1, w);
            },
            TyV::ConstExpr(op, x, y) => {
                assert(next == folded(op, applied_from(b, i + 1, *x), applied_from(b, i + 1, *y)));
            },
            TyV::PackLen(_) => {
                assert(next is Const || next is PackLen);
            },
            _ => {
                assert(next == u);
            },
        }
    }
}

/// Whether a pair is within the limit as long as nothing more is bound.
pub open spec fn fits_at(w: nat, s: SubstV, a: TyV, b: TyV) -> bool {
    weight(s, a, b) < w
}

pub proof fn lemma_items_fit(s: SubstV, x: TyV, y: TyV, xs: Seq<TyV>, ys: Seq<TyV>, n: nat)
    requires
        settled(s.bindings, x),
        settled(s.bindings, y),
        n <= xs.len(),
        n <= ys.len(),
        x matches TyV::App(_, e) ==> e == xs,
        x matches TyV::Fn(e, _) ==> e == xs,
        x is App || x is Fn,
        y matches TyV::App(_, e) ==> e == ys,
        y matches TyV::Fn(e, _) ==> e == ys,
        y is App || y is Fn,
    ensures
        forall|i: int|
            0 <= i < n ==> fits_at(
                size_of(x) + size_of(y),
                s,
                #[trigger] xs[i],
                ys[i],
            ),
{
    assert forall|i: int| 0 <= i < n implies fits_at(
        size_of(x) + size_of(y),
        s,
        #[trigger] xs[i],
        ys[i],
    ) by {
        lemma_settled_item(s.bindings, x, xs, i);
        lemma_settled_item(s.bindings, y, ys, i);
        lemma_size_applied(s.bindings, xs[i]);
        lemma_size_applied(s.bindings, ys[i]);
        lemma_size_at(xs, xs.len(), i);
        lemma_size_at(ys, ys.len(), i);
    }
}

pub proof fn lemma_starts_with_trans(
    a: Seq<(u32, TyV)>,
    b: Seq<(u32, TyV)>,
    c: Seq<(u32, TyV)>,
)
    requires
        starts_with(b, a),
        starts_with(c, b),
    ensures
        starts_with(c, a),
{
    assert forall|i: int| 0 <= i < a.len() implies c[i] == #[trigger] a[i] by {
        assert(b[i] == a[i]);
        assert(c[i] == b[i]);
    }
}

// ---- two types that were unified ----

/// Growing goes on.
pub proof fn lemma_grows_more(s: SubstV, t: SubstV, u: SubstV)
    requires
        grows(t, s),
        grows(u, t),
    ensures
        grows(u, s),
{
    lemma_starts_with_trans(s.bindings, t.bindings, u.bindings);
}

/// What is left of two types that have been unified, in a substitution that knows all that is
/// known then or more.
proof fn lemma_applied_in(s: SubstV, t: SubstV, a: TyV)
    requires
        triangular(t.bindings),
        grows(t, s),
        fair_all(t.bindings),
        fair(t.bindings, a),
    ensures
        applied(t, a) == applied(t, applied(s, a)),
        fair(t.bindings, applied(s, a)),
{
    lemma_applied_again(s.bindings, t.bindings, 0, a);
    lemma_unnamed_again(s.bindings, t.bindings, 0, a);
}

/// A variable that was bound is what it was bound to.
proof fn lemma_bound_alike(s: SubstV, v: u32, y: TyV, t: SubstV)
    requires
        triangular(s.bindings),
        !bound(s.bindings, v),
        settled(s.bindings, y),
        !links(y, v),
        starts_with(t.bindings, s.bindings.push((v, y))),
    ensures
        applied(t, TyV::Var(v)) == applied(t, y),
        applied(t, TyV::Pack(v)) == applied(t, y),
{
    let b = s.bindings.push((v, y));
    let c = t.bindings;
    let n = s.bindings.len();
    lemma_bound_at(s.bindings, 0, v);
    lemma_bound_at(b, 0, v);
    assert(b[n as int] == (v, y));
    if let Some(i) = bound_at(b, 0, v) {
        if i < n {
            assert(b[i as int] == s.bindings[i as int]);
        }
    }
    lemma_same_place(b, c, 0, v);
    assert(c[n as int] == b[n as int]);
    assert forall|w: u32, j: int|
        #![trigger links(y, w), b[j]]
        0 <= j < n + 1 && j < b.len() && links(y, w) implies b[j].0 != w by {
        if j < n {
            assert(b[j] == s.bindings[j]);
            assert(!bound(s.bindings, w));
            lemma_bound_at(s.bindings, 0, w);
        }
    }
    lemma_place_free(b, c, n + 1, y);
}

/// Binding a variable to a type makes the two alike.
proof fn lemma_bind_sound(s: SubstV, v: u32, y: TyV, t: SubstV)
    requires
        triangular(s.bindings),
        !bound(s.bindings, v),
        settled(s.bindings, y),
        !links(y, v),
        grows(t, bind(s, v, y)),
        slots_from(t, s.bindings.len()),
    ensures
        alike(t.widths, applied(t, TyV::Var(v)), applied(t, y)),
        alike(t.widths, applied(t, y), applied(t, TyV::Var(v))),
{
    let u = bind(s, v, y);
    if u.widths.contains_key(v) && y is Con {
        assert(t.widths.contains_key(v));
        lemma_bound_at(s.bindings, 0, v);
        lemma_bound_at(t.bindings, 0, v);
        if let Some(i) = bound_at(t.bindings, 0, v) {
            if i < s.bindings.len() {
                assert(t.bindings[i as int] == s.bindings[i as int]);
            }
        }
        lemma_slot(t, s.bindings.len(), 0, v);
        assert(has_slots(t.widths));
    } else {
        lemma_bound_alike(s, v, y, t);
        lemma_alike_self(t.widths, applied(t, y));
    }
}

/// Two types that were unified are alike in every substitution that extends what came of it.
proof fn lemma_sound_in(s: SubstV, a: TyV, b: TyV, t: SubstV)
    requires
        triangular(s.bindings),
        unified(s, a, b).1 is None,
        grows(t, unified(s, a, b).0),
        triangular(t.bindings),
        fair_all(t.bindings),
        fair(t.bindings, a),
        fair(t.bindings, b),
        slots_from(t, s.bindings.len()),
    ensures
        alike(t.widths, applied(t, a), applied(t, b)),
    decreases room(s), weight(s, a, b), 2nat, 0nat,
{
    let x = applied(s, a);
    let y = applied(s, b);
    let r = room(s);
    let w = weight(s, a, b);
    let u = unified(s, a, b).0;
    lemma_applied_is_settled(s, a);
    lemma_applied_is_settled(s, b);
    lemma_unified(s, a, b);
    lemma_grows_more(s, u, t);
    lemma_applied_in(s, t, a);
    lemma_applied_in(s, t, b);
    if agree_now(x, y) {
        lemma_alike_self(t.widths, applied(t, x));
    } else {
        match (x, y) {
            (TyV::Var(v), _) => {
                assert(links(x, v));
                lemma_links_mentioned(y, v);
                lemma_bind_sound(s, v, y, t);
            },
            (_, TyV::Var(v)) => {
                assert(links(y, v));
                lemma_links_mentioned(x, v);
                lemma_bind_sound(s, v, x, t);
            },
            (TyV::Fn(p1, r1), TyV::Fn(p2, r2)) => {
                lemma_items_fit(s, x, y, p1, p2, p1.len());
                let s1 = unified_first(r, w, s, p1, p2, 0, p1.len()).0;
                lemma_unified_first(r, w, s, p1, p2, 0, p1.len());
                lemma_unified_part(r, w, s1, *r1, *r2);
                lemma_grows_more(s1, u, t);
                assert forall|i: int| 0 <= i < p1.len() implies fair(
                    t.bindings,
                    #[trigger] p1[i],
                ) && fair(t.bindings, p2[i]) by {
                    assert(flat(t.bindings, p1[i]) && unnamed(t.bindings, p1[i]));
                    assert(flat(t.bindings, p2[i]) && unnamed(t.bindings, p2[i]));
                }
                lemma_first_sound(r, w, s, s, p1, p2, 0, p1.len(), t);
                lemma_settled_part(s.bindings, x, *r1);
                lemma_settled_part(s.bindings, y, *r2);
                lemma_size_applied(s.bindings, *r1);
                lemma_size_applied(s.bindings, *r2);
                lemma_part_sound(r, w, s, s1, *r1, *r2, t);
                lemma_list_alike(t, p1, p2);
            },
            (TyV::App(_, a1), TyV::App(_, a2)) => lemma_app_sound(s, a, b, a1, a2, t),
            (TyV::Array(e1, z1), TyV::Array(e2, z2)) => {
                lemma_settled_part(s.bindings, x, *e1);
                lemma_settled_part(s.bindings, y, *e2);
                lemma_settled_part(s.bindings, x, *z1);
                lemma_settled_part(s.bindings, y, *z2);
                lemma_size_applied(s.bindings, *e1);
                lemma_size_applied(s.bindings, *e2);
                lemma_size_applied(s.bindings, *z1);
                lemma_size_applied(s.bindings, *z2);
                let s1 = unified_part(r, w, s, *e1, *e2).0;
                lemma_unified_part(r, w, s, *e1, *e2);
                lemma_unified_part(r, w, s1, *z1, *z2);
                lemma_grows_more(s1, u, t);
                assert(extends(s, s));
                lemma_part_sound(r, w, s, s, *e1, *e2, t);
                lemma_part_sound(r, w, s, s1, *z1, *z2, t);
                lemma_alike_arrays(
                    t.widths,
                    applied(t, *e1),
                    applied(t, *e2),
                    applied(t, *z1),
                    applied(t, *z2),
                );
            },
            (TyV::ConstExpr(op, x1, y1), TyV::ConstExpr(_, x2, y2)) => {
                lemma_settled_part(s.bindings, x, *x1);
                lemma_settled_part(s.bindings, y, *x2);
                lemma_settled_part(s.bindings, x, *y1);
                lemma_settled_part(s.bindings, y, *y2);
                lemma_size_applied(s.bindings, *x1);
                lemma_size_applied(s.bindings, *x2);
                lemma_size_applied(s.bindings, *y1);
                lemma_size_applied(s.bindings, *y2);
                let s1 = unified_part(r, w, s, *x1, *x2).0;
                lemma_unified_part(r, w, s, *x1, *x2);
                lemma_unified_part(r, w, s1, *y1, *y2);
                lemma_grows_more(s1, u, t);
                assert(extends(s, s));
                lemma_part_sound(r, w, s, s, *x1, *x2, t);
                lemma_part_sound(r, w, s, s1, *y1, *y2, t);
                assert(applied(t, x) == folded(op, applied(t, *x1), applied(t, *y1)));
                assert(applied(t, y) == folded(op, applied(t, *x2), applied(t, *y2)));
            },
            _ => {},
        }
    }
}

/// The items of two lists are alike once bindings are applied.
proof fn lemma_list_alike(t: SubstV, xs: Seq<TyV>, ys: Seq<TyV>)
    requires
        xs.len() == ys.len(),
        forall|k: int|
            0 <= k < xs.len() ==> alike(t.widths, applied(t, #[trigger] xs[k]), applied(t, ys[k])),
    ensures
        alike_all(
            t.widths,
            applied_all_from(t.bindings, 0, xs),
            applied_all_from(t.bindings, 0, ys),
        ),
{
    let l = applied_all_from(t.bindings, 0, xs);
    let r = applied_all_from(t.bindings, 0, ys);
    assert forall|i: int| 0 <= i < l.len() implies alike(t.widths, #[trigger] l[i], r[i]) by {
        assert(alike(t.widths, applied(t, xs[i]), applied(t, ys[i])));
    }
}

/// Two applications of one name.
proof fn lemma_app_sound(s: SubstV, a: TyV, b: TyV, a1: Seq<TyV>, a2: Seq<TyV>, t: SubstV)
    requires
        triangular(s.bindings),
        unified(s, a, b).1 is None,
        grows(t, unified(s, a, b).0),
        triangular(t.bindings),
        fair_all(t.bindings),
        fair(t.bindings, applied(s, a)),
        fair(t.bindings, applied(s, b)),
        slots_from(t, s.bindings.len()),
        applied(s, a) is App && applied(s, a)->App_1 == a1,
        applied(s, b) is App && applied(s, b)->App_1 == a2,
    ensures
        alike(t.widths, applied(t, applied(s, a)), applied(t, applied(s, b))),
    decreases room(s), weight(s, a, b), 1nat, 0nat,
{
    let x = applied(s, a);
    let y = applied(s, b);
    let r = room(s);
    let w = weight(s, a, b);
    let u = unified(s, a, b).0;
    let c = t.bindings;
    let l1 = applied_all_from(c, 0, a1);
    let l2 = applied_all_from(c, 0, a2);
    lemma_applied_is_settled(s, a);
    lemma_applied_is_settled(s, b);
    lemma_unified(s, a, b);
    assert forall|i: int| 0 <= i < a1.len() implies fair(c, #[trigger] a1[i]) by {
        assert(flat(c, a1[i]) && unnamed(c, a1[i]));
    }
    assert forall|i: int| 0 <= i < a2.len() implies fair(c, #[trigger] a2[i]) by {
        assert(flat(c, a2[i]) && unnamed(c, a2[i]));
    }
    match (trailing_pack(a1), trailing_pack(a2)) {
        (None, None) => {
            lemma_items_fit(s, x, y, a1, a2, a1.len());
            lemma_first_sound(r, w, s, s, a1, a2, 0, a1.len(), t);
            lemma_list_alike(t, a1, a2);
            lemma_alike_spliced(t.widths, l1, l2);
        },
        (Some(v), Some(_)) => {
            let n = (a1.len() - 1) as nat;
            lemma_items_fit(s, x, y, a1, a2, n);
            lemma_first_sound(r, w, s, s, a1, a2, 0, n, t);
            lemma_alike_self(t.widths, applied(t, TyV::Pack(v)));
            assert(a1[a1.len() - 1] == TyV::Pack(v) && a2[a1.len() - 1] == TyV::Pack(v));
            lemma_list_alike(t, a1, a2);
            lemma_alike_spliced(t.widths, l1, l2);
        },
        (Some(v), None) => {
            let n = (a1.len() - 1) as nat;
            let s1 = unified_first(r, w, s, a1, a2, 0, n).0;
            lemma_links_at(a1, a1.len(), a1.len() - 1, v);
            assert(links(x, v));
            lemma_items_fit(s, x, y, a1, a2, n);
            lemma_unified_first(r, w, s, a1, a2, 0, n);
            if bound(s1.bindings, v) {
                lemma_room(s, s1);
                lemma_sound_in(s1, x, y, t);
            } else {
                let rest = a2.subrange(n as int, a2.len() as int);
                lemma_pack_taken(s1, v, rest);
                lemma_grows_more(s1, u, t);
                lemma_first_sound(r, w, s, s, a1, a2, 0, n, t);
                lemma_pack_alike(s1, t, v, a1, a2, n);
            }
        },
        (None, Some(v)) => {
            let n = (a2.len() - 1) as nat;
            let s1 = unified_first(r, w, s, a1, a2, 0, n).0;
            lemma_links_at(a2, a2.len(), a2.len() - 1, v);
            assert(links(y, v));
            lemma_items_fit(s, x, y, a1, a2, n);
            lemma_unified_first(r, w, s, a1, a2, 0, n);
            if bound(s1.bindings, v) {
                lemma_room(s, s1);
                lemma_sound_in(s1, x, y, t);
            } else {
                let rest = a1.subrange(n as int, a1.len() as int);
                lemma_pack_taken(s1, v, rest);
                lemma_grows_more(s1, u, t);
                lemma_first_sound(r, w, s, s, a1, a2, 0, n, t);
                lemma_pack_alike_back(s1, t, v, a1, a2, n);
            }
        },
    }
}

/// What is left of a list after a pack took the rest of it.
proof fn lemma_pack_rest(s1: SubstV, t: SubstV, v: u32, list: Seq<TyV>, n: nat)
    requires
        triangular(s1.bindings),
        !bound(s1.bindings, v),
        n <= list.len(),
        pack_taken(s1, v, list.subrange(n as int, list.len() as int)).1 is None,
        grows(t, pack_taken(s1, v, list.subrange(n as int, list.len() as int)).0),
        triangular(t.bindings),
        fair_all(t.bindings),
        forall|i: int| 0 <= i < list.len() ==> fair(t.bindings, #[trigger] list[i]),
    ensures
        ({
            let rest = list.subrange(n as int, list.len() as int);
            let done = applied_all_from(t.bindings, 0, rest);
            &&& applied(t, TyV::Pack(v)) == TyV::PackResolved(done)
            &&& spliced(done) == done
        }),
{
    let rest = list.subrange(n as int, list.len() as int);
    let c = t.bindings;
    let elems = applied_all_from(s1.bindings, 0, rest);
    let whole = TyV::PackResolved(elems);
    let done = applied_all_from(c, 0, rest);
    lemma_applied_is_settled(s1, TyV::PackResolved(rest));
    lemma_pack_taken(s1, v, rest);
    let u = pack_taken(s1, v, rest).0;
    assert(u.bindings == s1.bindings.push((v, whole)));
    lemma_bound_alike(s1, v, whole, t);
    lemma_grows_more(s1, u, t);
    let n1 = s1.bindings.len() as int;
    assert(u.bindings[n1] == (v, whole));
    assert(c[n1] == u.bindings[n1]);
    assert(flat(c, c[n1].1));
    let again = applied_all_from(c, 0, elems);
    assert forall|i: int| 0 <= i < rest.len() implies again[i] == done[i] && !((#[trigger] done[i])
        is PackResolved) by {
        assert(rest[i] == list[n + i]);
        assert(fair(c, list[n + i]));
        lemma_applied_in(s1, t, rest[i]);
        assert(flat(c, elems[i]) && !(applied_from(c, 0, elems[i]) is PackResolved));
    }
    assert(again =~= done);
    lemma_spliced_none(done);
}

proof fn lemma_pack_alike(
    s1: SubstV,
    t: SubstV,
    v: u32,
    a1: Seq<TyV>,
    a2: Seq<TyV>,
    n: nat,
)
    requires
        triangular(s1.bindings),
        !bound(s1.bindings, v),
        a1.len() == n + 1,
        a1[n as int] == TyV::Pack(v),
        n <= a2.len(),
        pack_taken(s1, v, a2.subrange(n as int, a2.len() as int)).1 is None,
        grows(t, pack_taken(s1, v, a2.subrange(n as int, a2.len() as int)).0),
        triangular(t.bindings),
        fair_all(t.bindings),
        forall|i: int| 0 <= i < a2.len() ==> fair(t.bindings, #[trigger] a2[i]),
        forall|k: int|
            0 <= k < n ==> alike(t.widths, applied(t, #[trigger] a1[k]), applied(t, a2[k])),
    ensures
        alike_all(
            t.widths,
            spliced(applied_all_from(t.bindings, 0, a1)),
            spliced(applied_all_from(t.bindings, 0, a2)),
        ),
{
    let c = t.bindings;
    let rest = a2.subrange(n as int, a2.len() as int);
    let done = applied_all_from(c, 0, rest);
    let p1 = a1.subrange(0, n as int);
    let p2 = a2.subrange(0, n as int);
    lemma_pack_rest(s1, t, v, a2, n);
    assert forall|k: int| 0 <= k < n implies alike(
        t.widths,
        applied(t, #[trigger] p1[k]),
        applied(t, p2[k]),
    ) by {
        assert(p1[k] == a1[k] && p2[k] == a2[k]);
    }
    lemma_list_alike(t, p1, p2);
    let l1 = applied_all_from(c, 0, p1);
    let l2 = applied_all_from(c, 0, p2);
    lemma_alike_spliced(t.widths, l1, l2);
    lemma_alike_selves(t.widths, done);
    lemma_alike_add(t.widths, spliced(l1), spliced(l2), done, done);
    let w1 = applied_all_from(c, 0, a1);
    let w2 = applied_all_from(c, 0, a2);
    assert(w1.drop_last() =~= l1);
    assert(w1.last() == TyV::PackResolved(done));
    assert(w2 =~= l2 + done);
    crate::apply_laws::lemma_spliced_add(l2, done);
}

proof fn lemma_pack_alike_back(
    s1: SubstV,
    t: SubstV,
    v: u32,
    a1: Seq<TyV>,
    a2: Seq<TyV>,
    n: nat,
)
    requires
        triangular(s1.bindings),
        !bound(s1.bindings, v),
        a2.len() == n + 1,
        a2[n as int] == TyV::Pack(v),
        n <= a1.len(),
        pack_taken(s1, v, a1.subrange(n as int, a1.len() as int)).1 is None,
        grows(t, pack_taken(s1, v, a1.subrange(n as int, a1.len() as int)).0),
        triangular(t.bindings),
        fair_all(t.bindings),
        forall|i: int| 0 <= i < a1.len() ==> fair(t.bindings, #[trigger] a1[i]),
        forall|k: int|
            0 <= k < n ==> alike(t.widths, applied(t, #[trigger] a1[k]), applied(t, a2[k])),
    ensures
        alike_all(
            t.widths,
            spliced(applied_all_from(t.bindings, 0, a1)),
            spliced(applied_all_from(t.bindings, 0, a2)),
        ),
{
    let c = t.bindings;
    let rest = a1.subrange(n as int, a1.len() as int);
    let done = applied_all_from(c, 0, rest);
    let p1 = a1.subrange(0, n as int);
    let p2 = a2.subrange(0, n as int);
    lemma_pack_rest(s1, t, v, a1, n);
    assert forall|k: int| 0 <= k < n implies alike(
        t.widths,
        applied(t, #[trigger] p1[k]),
        applied(t, p2[k]),
    ) by {
        assert(p1[k] == a1[k] && p2[k] == a2[k]);
    }
    lemma_list_alike(t, p1, p2);
    let l1 = applied_all_from(c, 0, p1);
    let l2 = applied_all_from(c, 0, p2);
    lemma_alike_spliced(t.widths, l1, l2);
    lemma_alike_selves(t.widths, done);
    lemma_alike_add(t.widths, spliced(l1), spliced(l2), done, done);
    let w1 = applied_all_from(c, 0, a1);
    let w2 = applied_all_from(c, 0, a2);
    assert(w2.drop_last() =~= l2);
    assert(w2.last() == TyV::PackResolved(done));
    assert(w1 =~= l1 + done);
    crate::apply_laws::lemma_spliced_add(l1, done);
}

/// A part of two types that are being unified. `s` is what was known when the whole was
/// begun, `s1` what is known now, and `t` what is known in the end.
proof fn lemma_part_sound(
    r: nat,
    w: nat,
    s: SubstV,
    s1: SubstV,
    a: TyV,
    b: TyV,
    t: SubstV,
)
    requires
        triangular(s.bindings),
        triangular(s1.bindings),
        extends(s1, s),
        r == room(s),
        fits_at(w, s, a, b),
        unified_part(r, w, s1, a, b).1 is None,
        grows(t, unified_part(r, w, s1, a, b).0),
        triangular(t.bindings),
        fair_all(t.bindings),
        fair(t.bindings, a),
        fair(t.bindings, b),
        slots_from(t, s.bindings.len()),
    ensures
        alike(t.widths, applied(t, a), applied(t, b)),
    decreases r, w, 0nat, 0nat,
{
    lemma_room(s, s1);
    lemma_sound_in(s1, a, b, t);
}

/// The parts of two types from the `i`th on.
proof fn lemma_first_sound(
    r: nat,
    w: nat,
    s: SubstV,
    s1: SubstV,
    xs: Seq<TyV>,
    ys: Seq<TyV>,
    i: nat,
    n: nat,
    t: SubstV,
)
    requires
        triangular(s.bindings),
        triangular(s1.bindings),
        extends(s1, s),
        r == room(s),
        i <= n <= xs.len(),
        n <= ys.len(),
        forall|k: int| 0 <= k < n ==> fits_at(w, s, #[trigger] xs[k], ys[k]),
        unified_first(r, w, s1, xs, ys, i, n).1 is None,
        grows(t, unified_first(r, w, s1, xs, ys, i, n).0),
        triangular(t.bindings),
        fair_all(t.bindings),
        forall|k: int|
            0 <= k < n ==> fair(t.bindings, #[trigger] xs[k]) && fair(t.bindings, ys[k]),
        slots_from(t, s.bindings.len()),
    ensures
        forall|k: int|
            i <= k < n ==> alike(t.widths, applied(t, #[trigger] xs[k]), applied(t, ys[k])),
    decreases r, w, 0nat, 1 + n - i,
{
    if i < n {
        let s2 = unified_part(r, w, s1, xs[i as int], ys[i as int]).0;
        lemma_unified_part(r, w, s1, xs[i as int], ys[i as int]);
        lemma_unified_first(r, w, s2, xs, ys, i + 1, n);
        lemma_extends_more(s, s1, s2);
        lemma_grows_more(s2, unified_first(r, w, s1, xs, ys, i, n).0, t);
        assert(fair(t.bindings, xs[i as int]) && fair(t.bindings, ys[i as int]));
        lemma_part_sound(r, w, s, s1, xs[i as int], ys[i as int], t);
        lemma_first_sound(r, w, s, s2, xs, ys, i + 1, n, t);
    }
}

/// Two types that were unified are alike in the substitution that came of it, and in every
/// one that extends it: no pack comes to hold a pack there, no operand of a computed constant
/// comes to be a type name, and what came to stand for a constant is one.
pub proof fn lemma_unify_sound(s: SubstV, a: TyV, b: TyV, t: SubstV)
    requires
        triangular(s.bindings),
        unified(s, a, b).1 is None,
        grows(t, unified(s, a, b).0),
        triangular(t.bindings),
        fair_all(t.bindings),
        fair(t.bindings, a),
        fair(t.bindings, b),
        slots_from(t, s.bindings.len()),
    ensures
        alike(t.widths, applied(t, a), applied(t, b)),
{
    lemma_sound_in(s, a, b, t);
}

/// Unification extends what is known, whether it succeeds or fails: the bindings stay in
/// order, nothing that is bound is bound to anything else, and no width is lost.
pub proof fn lemma_unify_extends(s: SubstV, a: TyV, b: TyV)
    requires
        triangular(s.bindings),
    ensures
        triangular(unified(s, a, b).0.bindings),
        extends(unified(s, a, b).0, s),
{
    lemma_unified(s, a, b);
}

} // verus!
