//! What bindings make of types of every kind, and what more bindings make of that.

use vstd::prelude::*;

use crate::subst::{
    applied, applied_all_from, applied_from, bound_at, known_pack_len, lemma_bound_at, links,
    starts_with, triangular, SubstV,
};
use crate::subst_laws::{lemma_links_at, not_before};
use crate::ty::TyV;
use crate::types::{nested, spliced, substituted, substituted_all};

verus! {

// ---- lists put in place ----

pub proof fn lemma_spliced_add(a: Seq<TyV>, b: Seq<TyV>)
    ensures
        spliced(a + b) == spliced(a) + spliced(b),
    decreases b.len(),
{
    if b.len() == 0 {
        assert(a + b =~= a);
        assert(spliced(a) + spliced(b) =~= spliced(a));
    } else {
        let init = b.drop_last();
        lemma_spliced_add(a, init);
        assert((a + b).drop_last() =~= a + init);
        assert((a + b).last() == b.last());
        match b.last() {
            TyV::PackResolved(elems) => {
                assert(spliced(a + b) =~= spliced(a) + spliced(b));
            },
            _ => {
                assert(spliced(a + b) =~= spliced(a) + spliced(b));
            },
        }
    }
}

/// A list without packs is left as it is.
pub proof fn lemma_spliced_none(tys: Seq<TyV>)
    requires
        forall|i: int| 0 <= i < tys.len() ==> !((#[trigger] tys[i]) is PackResolved),
    ensures
        spliced(tys) == tys,
    decreases tys.len(),
{
    if tys.len() > 0 {
        let init = tys.drop_last();
        assert forall|i: int| 0 <= i < init.len() implies !((#[trigger] init[i])
            is PackResolved) by {
            assert(init[i] == tys[i]);
        }
        lemma_spliced_none(init);
        assert(!(tys[tys.len() - 1] is PackResolved));
        assert(spliced(tys) =~= tys);
    }
}

// ---- types in which no list holds a list ----

/// Whether no pack in the type holds what the bindings make a pack.
pub open spec fn flat(c: Seq<(u32, TyV)>, t: TyV) -> bool
    decreases t,
{
    match t {
        TyV::PackResolved(elems) => forall|i: int|
            0 <= i < elems.len() ==> flat(c, #[trigger] elems[i]) && !(applied_from(
                c,
                0,
                elems[i],
            ) is PackResolved),
        TyV::App(_, args) => forall|i: int| 0 <= i < args.len() ==> flat(c, #[trigger] args[i]),
        TyV::Fn(params, ret) => flat(c, *ret) && forall|i: int|
            0 <= i < params.len() ==> flat(c, #[trigger] params[i]),
        TyV::Array(elem, size) => flat(c, *elem) && flat(c, *size),
        TyV::ConstExpr(_, x, y) => flat(c, *x) && flat(c, *y),
        _ => true,
    }
}

/// Whether no pack holds a pack in any binding.
pub open spec fn flat_all(c: Seq<(u32, TyV)>) -> bool {
    forall|i: int| 0 <= i < c.len() ==> flat(c, (#[trigger] c[i]).1)
}

/// Whether a type holds no packs.
pub open spec fn packless(t: TyV) -> bool
    decreases t,
{
    match t {
        TyV::Pack(_) => false,
        TyV::PackResolved(_) => false,
        TyV::PackLen(_) => false,
        TyV::App(_, args) => forall|i: int| 0 <= i < args.len() ==> packless(#[trigger] args[i]),
        TyV::Fn(params, ret) => packless(*ret) && forall|i: int|
            0 <= i < params.len() ==> packless(#[trigger] params[i]),
        TyV::Array(elem, size) => packless(*elem) && packless(*size),
        TyV::ConstExpr(_, x, y) => packless(*x) && packless(*y),
        _ => true,
    }
}

pub open spec fn packless_all(c: Seq<(u32, TyV)>) -> bool {
    forall|i: int| 0 <= i < c.len() ==> packless((#[trigger] c[i]).1)
}

/// A type without packs has none that holds another.
pub proof fn lemma_packless_flat(c: Seq<(u32, TyV)>, t: TyV)
    requires
        packless(t),
    ensures
        flat(c, t),
    decreases t,
{
    match t {
        TyV::App(_, args) => {
            assert forall|i: int| 0 <= i < args.len() implies flat(c, #[trigger] args[i]) by {
                lemma_packless_flat(c, args[i]);
            }
        },
        TyV::Fn(params, ret) => {
            lemma_packless_flat(c, *ret);
            assert forall|i: int| 0 <= i < params.len() implies flat(
                c,
                #[trigger] params[i],
            ) by {
                lemma_packless_flat(c, params[i]);
            }
        },
        TyV::Array(elem, size) => {
            lemma_packless_flat(c, *elem);
            lemma_packless_flat(c, *size);
        },
        TyV::ConstExpr(_, x, y) => {
            lemma_packless_flat(c, *x);
            lemma_packless_flat(c, *y);
        },
        _ => {},
    }
}

proof fn lemma_packless_all_flat(c: Seq<(u32, TyV)>)
    requires
        packless_all(c),
    ensures
        flat_all(c),
{
    assert forall|i: int| 0 <= i < c.len() implies flat(c, (#[trigger] c[i]).1) by {
        lemma_packless_flat(c, c[i].1);
    }
}

// ---- bindings applied to what bindings made ----

proof fn lemma_spliced_applied(c: Seq<(u32, TyV)>, ps: Seq<TyV>)
    requires
        forall|i: int| 0 <= i < ps.len() ==> flat(c, #[trigger] ps[i]),
    ensures
        spliced(applied_all_from(c, 0, spliced(ps))) == spliced(applied_all_from(c, 0, ps)),
        forall|i: int| 0 <= i < spliced(ps).len() ==> flat(c, #[trigger] spliced(ps)[i]),
    decreases ps.len(),
{
    let all = applied_all_from(c, 0, ps);
    if ps.len() > 0 {
        let init = ps.drop_last();
        let x = ps.last();
        assert(flat(c, ps[ps.len() - 1]));
        assert forall|i: int| 0 <= i < init.len() implies flat(c, #[trigger] init[i]) by {
            assert(init[i] == ps[i]);
        }
        lemma_spliced_applied(c, init);
        let a = applied_all_from(c, 0, spliced(init));
        assert(all.drop_last() =~= applied_all_from(c, 0, init));
        assert(all.last() == applied_from(c, 0, x));
        match x {
            TyV::PackResolved(es) => {
                let e = applied_all_from(c, 0, es);
                assert forall|i: int| 0 <= i < e.len() implies !((#[trigger] e[i])
                    is PackResolved) by {
                    assert(flat(c, es[i]) && !(applied_from(c, 0, es[i]) is PackResolved));
                }
                lemma_spliced_none(e);
                assert(applied_all_from(c, 0, spliced(ps)) =~= a + e);
                lemma_spliced_add(a, e);
                assert forall|i: int| 0 <= i < spliced(ps).len() implies flat(
                    c,
                    #[trigger] spliced(ps)[i],
                ) by {
                    if i < spliced(init).len() {
                        assert(spliced(ps)[i] == spliced(init)[i]);
                    } else {
                        assert(spliced(ps)[i] == es[i - spliced(init).len()]);
                    }
                }
            },
            _ => {
                let more = applied_all_from(c, 0, spliced(ps));
                assert(more =~= a.push(applied_from(c, 0, x)));
                assert(more.drop_last() =~= a);
                assert(more.last() == all.last());
                assert forall|i: int| 0 <= i < spliced(ps).len() implies flat(
                    c,
                    #[trigger] spliced(ps)[i],
                ) by {
                    if i < spliced(init).len() {
                        assert(spliced(ps)[i] == spliced(init)[i]);
                    } else {
                        assert(spliced(ps)[i] == x);
                    }
                }
            },
        }
    } else {
        assert(spliced(ps) =~= ps);
    }
}

proof fn lemma_nested_applied(c: Seq<(u32, TyV)>, k: nat, elem: TyV, dims: Seq<TyV>)
    requires
        flat(c, elem),
        forall|i: int|
            0 <= i < dims.len() ==> flat(c, #[trigger] dims[i]) && !(applied_from(c, k, dims[i])
                is PackResolved),
    ensures
        applied_from(c, k, nested(elem, dims)) == nested(
            applied_from(c, k, elem),
            applied_all_from(c, k, dims),
        ),
        flat(c, nested(elem, dims)),
    decreases dims.len(),
{
    let mapped = applied_all_from(c, k, dims);
    if dims.len() > 0 {
        let rest = dims.subrange(1, dims.len() as int);
        assert forall|i: int| 0 <= i < rest.len() implies flat(c, #[trigger] rest[i])
            && !(applied_from(c, k, rest[i]) is PackResolved) by {
            assert(rest[i] == dims[i + 1]);
        }
        lemma_nested_applied(c, k, elem, rest);
        assert(mapped.subrange(1, mapped.len() as int) =~= applied_all_from(c, k, rest));
        assert(flat(c, dims[0]));
    } else {
        assert(nested(elem, dims) == elem);
        assert(mapped.len() == 0);
    }
}

/// A pack whose length is known keeps its length.
proof fn lemma_length_stays(b: Seq<(u32, TyV)>, c: Seq<(u32, TyV)>, k: nat, v: u32)
    requires
        starts_with(c, b),
        k <= b.len(),
        known_pack_len(b, k, v) is Some,
    ensures
        known_pack_len(c, k, v) == known_pack_len(b, k, v),
    decreases b.len() - k,
{
    lemma_bound_at(b, k, v);
    lemma_bound_at(c, k, v);
    lemma_same_place(b, c, k, v);
    let i = bound_at(b, k, v)->0;
    assert(c[i as int] == b[i as int]);
    match b[i as int].1 {
        TyV::Var(w) => lemma_length_stays(b, c, i + 1, w),
        TyV::Pack(w) => lemma_length_stays(b, c, i + 1, w),
        _ => {},
    }
}

/// A variable that is bound in the shorter list is bound at the same place in the
/// longer one.
pub proof fn lemma_same_place(b: Seq<(u32, TyV)>, c: Seq<(u32, TyV)>, k: nat, v: u32)
    requires
        starts_with(c, b),
        k <= b.len(),
        bound_at(b, k, v) is Some,
    ensures
        bound_at(c, k, v) == bound_at(b, k, v),
    decreases b.len() - k,
{
    if k < b.len() {
        assert(c[k as int] == b[k as int]);
        if b[k as int].0 != v {
            lemma_same_place(b, c, k + 1, v);
        }
    }
}

/// A variable that is not bound in the first list is found from the start of the
/// longer one as it is found from a place within the first.
pub proof fn lemma_from_start(c: Seq<(u32, TyV)>, k: nat, v: u32, b: Seq<(u32, TyV)>)
    requires
        starts_with(c, b),
        k <= b.len(),
        forall|j: int| 0 <= j < k ==> (#[trigger] b[j]).0 != v,
    ensures
        bound_at(c, 0, v) == bound_at(c, k, v),
    decreases k,
{
    if k > 0 {
        lemma_from_start(c, (k - 1) as nat, v, b);
        assert(c[k - 1] == b[k - 1]);
    }
}

pub proof fn lemma_not_before_part(b: Seq<(u32, TyV)>, k: nat, t: TyV, part: TyV)
    requires
        not_before(b, k, t),
        forall|v: u32| #[trigger] links(part, v) ==> links(t, v),
    ensures
        not_before(b, k, part),
{
    assert forall|v: u32, j: int|
        #![trigger links(part, v), b[j]]
        0 <= j < k && j < b.len() && links(part, v) implies b[j].0 != v by {
        assert(links(t, v));
    }
}

pub proof fn lemma_not_before_item(b: Seq<(u32, TyV)>, k: nat, t: TyV, items: Seq<TyV>, i: int)
    requires
        not_before(b, k, t),
        0 <= i < items.len(),
        t matches TyV::PackResolved(e) ==> e == items,
        t matches TyV::App(_, e) ==> e == items,
        t matches TyV::Fn(e, _) ==> e == items,
        t is PackResolved || t is App || t is Fn,
    ensures
        not_before(b, k, items[i]),
{
    assert forall|v: u32| #[trigger] links(items[i], v) implies links(t, v) by {
        lemma_links_at(items, items.len(), i, v);
    }
    lemma_not_before_part(b, k, t, items[i]);
}

proof fn lemma_next_not_before(c: Seq<(u32, TyV)>, b: Seq<(u32, TyV)>, i: nat)
    requires
        triangular(c),
        starts_with(c, b),
        i < b.len(),
    ensures
        not_before(b, i + 1, b[i as int].1),
{
    let next = b[i as int].1;
    assert(c[i as int] == b[i as int]);
    assert forall|w: u32, j: int|
        #![trigger links(next, w), b[j]]
        0 <= j < i + 1 && j < b.len() && links(next, w) implies b[j].0 != w by {
        assert(c[j] == b[j]);
        assert(!links(c[i as int].1, c[j].0));
    }
}

/// Applying more bindings to a type is applying them to what fewer bindings make of
/// it, as long as no pack comes to hold a pack.
pub proof fn lemma_applied_again(b: Seq<(u32, TyV)>, c: Seq<(u32, TyV)>, k: nat, t: TyV)
    requires
        triangular(c),
        starts_with(c, b),
        k <= b.len(),
        flat_all(c),
        flat(c, t),
        not_before(b, k, t),
    ensures
        applied_from(c, k, t) == applied_from(c, 0, applied_from(b, k, t)),
        flat(c, applied_from(b, k, t)),
    decreases b.len() - k, t, 1nat,
{
    match t {
        TyV::Var(v) => lemma_applied_again_var(b, c, k, t, v),
        TyV::Pack(v) => lemma_applied_again_var(b, c, k, t, v),
        TyV::PackResolved(elems) => {
            let parts = applied_all_from(b, k, elems);
            let left = applied_all_from(c, k, elems);
            let right = applied_all_from(c, 0, parts);
            assert forall|i: int| 0 <= i < elems.len() implies left[i] == right[i] && flat(
                c,
                #[trigger] parts[i],
            ) && !(applied_from(c, 0, parts[i]) is PackResolved) by {
                assert(flat(c, elems[i]) && !(applied_from(c, 0, elems[i]) is PackResolved));
                lemma_not_before_item(b, k, t, elems, i);
                lemma_applied_again(b, c, k, elems[i]);
                lemma_place_free(b, c, k, elems[i]);
            }
            assert(left =~= right);
        },
        TyV::PackLen(v) => {
            if known_pack_len(b, 0, v) is Some {
                lemma_length_stays(b, c, 0, v);
            }
        },
        TyV::App(_, args) => {
            let parts = applied_all_from(b, k, args);
            let left = applied_all_from(c, k, args);
            let right = applied_all_from(c, 0, parts);
            assert forall|i: int| 0 <= i < args.len() implies left[i] == right[i] && flat(
                c,
                #[trigger] parts[i],
            ) by {
                assert(flat(c, args[i]));
                lemma_not_before_item(b, k, t, args, i);
                lemma_applied_again(b, c, k, args[i]);
            }
            assert(left =~= right);
            lemma_spliced_applied(c, parts);
        },
        TyV::Fn(params, ret) => {
            let parts = applied_all_from(b, k, params);
            let left = applied_all_from(c, k, params);
            let right = applied_all_from(c, 0, parts);
            assert forall|i: int| 0 <= i < params.len() implies left[i] == right[i] && flat(
                c,
                #[trigger] parts[i],
            ) by {
                assert(flat(c, params[i]));
                lemma_not_before_item(b, k, t, params, i);
                lemma_applied_again(b, c, k, params[i]);
            }
            assert(left =~= right);
            lemma_not_before_part(b, k, t, *ret);
            lemma_applied_again(b, c, k, *ret);
        },
        TyV::Array(elem, size) => {
            lemma_not_before_part(b, k, t, *elem);
            lemma_not_before_part(b, k, t, *size);
            lemma_applied_again(b, c, k, *elem);
            lemma_applied_again(b, c, k, *size);
            let e = applied_from(b, k, *elem);
            if let TyV::PackResolved(dims) = applied_from(b, k, *size) {
                assert forall|i: int| 0 <= i < dims.len() implies flat(c, #[trigger] dims[i])
                    && !(applied_from(c, 0, dims[i]) is PackResolved) by {
                    assert(flat(c, applied_from(b, k, *size)));
                }
                lemma_nested_applied(c, 0, e, dims);
            }
        },
        TyV::ConstExpr(_, x, y) => {
            lemma_not_before_part(b, k, t, *x);
            lemma_not_before_part(b, k, t, *y);
            lemma_applied_again(b, c, k, *x);
            lemma_applied_again(b, c, k, *y);
        },
        _ => {},
    }
}

proof fn lemma_applied_again_var(
    b: Seq<(u32, TyV)>,
    c: Seq<(u32, TyV)>,
    k: nat,
    t: TyV,
    v: u32,
)
    requires
        triangular(c),
        starts_with(c, b),
        k <= b.len(),
        flat_all(c),
        not_before(b, k, t),
        t == TyV::Var(v) || t == TyV::Pack(v),
    ensures
        applied_from(c, k, t) == applied_from(c, 0, applied_from(b, k, t)),
        flat(c, applied_from(b, k, t)),
    decreases b.len() - k, t, 0nat,
{
    lemma_bound_at(b, k, v);
    lemma_bound_at(c, k, v);
    match bound_at(b, k, v) {
        Some(i) => {
            lemma_same_place(b, c, k, v);
            assert(c[i as int] == b[i as int]);
            assert(flat(c, c[i as int].1));
            lemma_next_not_before(c, b, i);
            lemma_applied_again(b, c, i + 1, b[i as int].1);
        },
        None => {
            assert(links(t, v));
            lemma_from_start(c, k, v, b);
        },
    }
}

/// Where the variables of a type are not bound before the `k`th place, it makes no
/// difference whether bindings are read from there or from the start.
pub proof fn lemma_place_free(b: Seq<(u32, TyV)>, c: Seq<(u32, TyV)>, k: nat, t: TyV)
    requires
        starts_with(c, b),
        k <= b.len(),
        not_before(b, k, t),
    ensures
        applied_from(c, k, t) == applied_from(c, 0, t),
    decreases t,
{
    match t {
        TyV::Var(v) => {
            assert(links(t, v));
            lemma_from_start(c, k, v, b);
        },
        TyV::Pack(v) => {
            assert(links(t, v));
            lemma_from_start(c, k, v, b);
        },
        TyV::PackResolved(elems) => lemma_places_free(b, c, k, t, elems),
        TyV::App(_, args) => lemma_places_free(b, c, k, t, args),
        TyV::Fn(params, ret) => {
            lemma_places_free(b, c, k, t, params);
            lemma_not_before_part(b, k, t, *ret);
            lemma_place_free(b, c, k, *ret);
        },
        TyV::Array(elem, size) => {
            lemma_not_before_part(b, k, t, *elem);
            lemma_not_before_part(b, k, t, *size);
            lemma_place_free(b, c, k, *elem);
            lemma_place_free(b, c, k, *size);
        },
        TyV::ConstExpr(_, x, y) => {
            lemma_not_before_part(b, k, t, *x);
            lemma_not_before_part(b, k, t, *y);
            lemma_place_free(b, c, k, *x);
            lemma_place_free(b, c, k, *y);
        },
        _ => {},
    }
}

proof fn lemma_places_free(
    b: Seq<(u32, TyV)>,
    c: Seq<(u32, TyV)>,
    k: nat,
    t: TyV,
    items: Seq<TyV>,
)
    requires
        starts_with(c, b),
        k <= b.len(),
        not_before(b, k, t),
        t matches TyV::PackResolved(e) ==> e == items,
        t matches TyV::App(_, e) ==> e == items,
        t matches TyV::Fn(e, _) ==> e == items,
        t is PackResolved || t is App || t is Fn,
    ensures
        applied_all_from(c, k, items) == applied_all_from(c, 0, items),
    decreases items,
{
    let l = applied_all_from(c, k, items);
    let r = applied_all_from(c, 0, items);
    assert forall|i: int| 0 <= i < items.len() implies l[i] == r[i] by {
        lemma_not_before_item(b, k, t, items, i);
        lemma_place_free(b, c, k, items[i]);
    }
    assert(l =~= r);
}

/// Applying a substitution twice is applying it once, as long as no pack holds a pack.
pub proof fn lemma_apply_idempotent(s: SubstV, t: TyV)
    requires
        triangular(s.bindings),
        flat_all(s.bindings),
        flat(s.bindings, t),
    ensures
        applied(s, applied(s, t)) == applied(s, t),
{
    lemma_applied_again(s.bindings, s.bindings, 0, t);
}

/// Applying a substitution that knows more to a type is applying it to what one that knows
/// less makes of the type. The types hold no packs.
pub proof fn lemma_extended_applies(s: SubstV, t: SubstV, ty: TyV)
    requires
        triangular(t.bindings),
        starts_with(t.bindings, s.bindings),
        packless_all(t.bindings),
        packless(ty),
    ensures
        applied(t, ty) == applied(t, applied(s, ty)),
        applied(s, applied(s, ty)) == applied(s, ty),
{
    lemma_packless_all_flat(t.bindings);
    lemma_packless_flat(t.bindings, ty);
    lemma_applied_again(s.bindings, t.bindings, 0, ty);
    assert(triangular(s.bindings)) by {
        let b = s.bindings;
        let c = t.bindings;
        assert forall|i: int, j: int|
            #![trigger b[i], b[j]]
            0 <= j < i < b.len() implies b[i].0 != b[j].0 by {
            assert(c[i] == b[i] && c[j] == b[j]);
        }
        assert forall|i: int, j: int|
            #![trigger b[i], b[j]]
            0 <= j <= i < b.len() implies !links(b[i].1, b[j].0) by {
            assert(c[i] == b[i] && c[j] == b[j]);
        }
    }
    assert forall|i: int| 0 <= i < s.bindings.len() implies packless(
        (#[trigger] s.bindings[i]).1,
    ) by {
        assert(t.bindings[i] == s.bindings[i]);
    }
    lemma_packless_all_flat(s.bindings);
    lemma_packless_flat(s.bindings, ty);
    lemma_apply_idempotent(s, ty);
}

// ---- types without variables ----

/// Whether a type holds no variable.
pub open spec fn shut(t: TyV) -> bool
    decreases t,
{
    match t {
        TyV::Var(_) => false,
        TyV::Pack(_) => false,
        TyV::PackLen(_) => false,
        TyV::PackResolved(elems) => forall|i: int|
            0 <= i < elems.len() ==> shut(#[trigger] elems[i]),
        TyV::App(_, args) => forall|i: int| 0 <= i < args.len() ==> shut(#[trigger] args[i]),
        TyV::Fn(params, ret) => shut(*ret) && forall|i: int|
            0 <= i < params.len() ==> shut(#[trigger] params[i]),
        TyV::Array(elem, size) => shut(*elem) && shut(*size),
        TyV::ConstExpr(_, x, y) => shut(*x) && shut(*y),
        _ => true,
    }
}

proof fn lemma_spliced_shut(tys: Seq<TyV>)
    requires
        forall|i: int| 0 <= i < spliced(tys).len() ==> shut(#[trigger] spliced(tys)[i]),
    ensures
        forall|i: int| 0 <= i < tys.len() ==> shut(#[trigger] tys[i]),
    decreases tys.len(),
{
    if tys.len() > 0 {
        let init = tys.drop_last();
        let n = spliced(init).len();
        assert forall|i: int| 0 <= i < n implies shut(#[trigger] spliced(init)[i]) by {
            assert(spliced(tys)[i] == spliced(init)[i]);
        }
        lemma_spliced_shut(init);
        assert(shut(tys.last())) by {
            match tys.last() {
                TyV::PackResolved(es) => {
                    assert forall|j: int| 0 <= j < es.len() implies shut(#[trigger] es[j]) by {
                        assert(spliced(tys)[n + j] == es[j]);
                    }
                },
                x => {
                    assert(spliced(tys)[n as int] == x);
                },
            }
        }
        assert forall|i: int| 0 <= i < tys.len() implies shut(#[trigger] tys[i]) by {
            if i < init.len() {
                assert(tys[i] == init[i]);
            }
        }
    }
}

proof fn lemma_nested_shut(elem: TyV, dims: Seq<TyV>)
    requires
        shut(nested(elem, dims)),
    ensures
        shut(elem),
        forall|i: int| 0 <= i < dims.len() ==> shut(#[trigger] dims[i]),
    decreases dims.len(),
{
    if dims.len() > 0 {
        let rest = dims.subrange(1, dims.len() as int);
        assert(shut(nested(elem, rest)) && shut(dims[0]));
        lemma_nested_shut(elem, rest);
        assert forall|i: int| 0 <= i < dims.len() implies shut(#[trigger] dims[i]) by {
            if i > 0 {
                assert(dims[i] == rest[i - 1]);
            }
        }
    }
}

proof fn lemma_shut_items(t: TyV, items: Seq<TyV>)
    requires
        shut(t),
        t matches TyV::PackResolved(e) ==> e == items,
        t matches TyV::App(_, e) ==> e == items,
        t matches TyV::Fn(e, _) ==> e == items,
        t is PackResolved || t is App || t is Fn,
    ensures
        forall|i: int| 0 <= i < items.len() ==> shut(#[trigger] items[i]),
{
    assert forall|i: int| 0 <= i < items.len() implies shut(#[trigger] items[i]) by {
        match t {
            TyV::PackResolved(e) => {
                assert(shut(e[i]));
            },
            TyV::App(_, e) => {
                assert(shut(e[i]));
            },
            TyV::Fn(e, _) => {
                assert(shut(e[i]));
            },
            _ => {},
        }
    }
}

/// What holds no variable any more is left as it is by more bindings.
pub proof fn lemma_shut_stays(b: Seq<(u32, TyV)>, c: Seq<(u32, TyV)>, k: nat, t: TyV)
    requires
        starts_with(c, b),
        k <= b.len(),
        shut(applied_from(b, k, t)),
    ensures
        applied_from(c, k, t) == applied_from(b, k, t),
    decreases b.len() - k, t,
{
    match t {
        TyV::Var(v) => {
            lemma_bound_at(b, k, v);
            lemma_bound_at(c, k, v);
            let i = bound_at(b, k, v)->0;
            lemma_same_place(b, c, k, v);
            assert(c[i as int] == b[i as int]);
            lemma_shut_stays(b, c, i + 1, b[i as int].1);
        },
        TyV::Pack(v) => {
            lemma_bound_at(b, k, v);
            lemma_bound_at(c, k, v);
            let i = bound_at(b, k, v)->0;
            lemma_same_place(b, c, k, v);
            assert(c[i as int] == b[i as int]);
            lemma_shut_stays(b, c, i + 1, b[i as int].1);
        },
        TyV::PackResolved(elems) => {
            let parts = applied_all_from(b, k, elems);
            lemma_shut_items(applied_from(b, k, t), parts);
            lemma_shut_stay(b, c, k, elems);
        },
        TyV::PackLen(v) => lemma_length_stays(b, c, 0, v),
        TyV::App(_, args) => {
            let parts = spliced(applied_all_from(b, k, args));
            lemma_shut_items(applied_from(b, k, t), parts);
            lemma_spliced_shut(applied_all_from(b, k, args));
            lemma_shut_stay(b, c, k, args);
        },
        TyV::Fn(params, ret) => {
            let parts = applied_all_from(b, k, params);
            lemma_shut_items(applied_from(b, k, t), parts);
            lemma_shut_stay(b, c, k, params);
            lemma_shut_stays(b, c, k, *ret);
        },
        TyV::Array(elem, size) => {
            if let TyV::PackResolved(dims) = applied_from(b, k, *size) {
                lemma_nested_shut(applied_from(b, k, *elem), dims);
                assert(shut(applied_from(b, k, *size)));
            }
            lemma_shut_stays(b, c, k, *elem);
            lemma_shut_stays(b, c, k, *size);
        },
        TyV::ConstExpr(_, x, y) => {
            lemma_shut_stays(b, c, k, *x);
            lemma_shut_stays(b, c, k, *y);
        },
        _ => {},
    }
}

proof fn lemma_shut_stay(b: Seq<(u32, TyV)>, c: Seq<(u32, TyV)>, k: nat, tys: Seq<TyV>)
    requires
        starts_with(c, b),
        k <= b.len(),
        forall|i: int|
            0 <= i < tys.len() ==> shut(#[trigger] applied_all_from(b, k, tys)[i]),
    ensures
        applied_all_from(c, k, tys) == applied_all_from(b, k, tys),
    decreases b.len() - k, tys,
{
    let l = applied_all_from(c, k, tys);
    let r = applied_all_from(b, k, tys);
    assert forall|i: int| 0 <= i < tys.len() implies l[i] == r[i] by {
        assert(shut(r[i]));
        lemma_shut_stays(b, c, k, tys[i]);
    }
    assert(l =~= r);
}

// ---- replacing by a map ----

/// Whether the bindings are those of a map, each variable bound once.
pub open spec fn made_of(b: Seq<(u32, TyV)>, m: Map<u32, TyV>) -> bool {
    &&& forall|i: int|
        0 <= i < b.len() ==> m.contains_key((#[trigger] b[i]).0) && m[b[i].0] == b[i].1
    &&& forall|v: u32| #[trigger] m.contains_key(v) ==> bound_at(b, 0, v) is Some
}

/// A type that holds no variable and has nothing left to compute is left as it is by any
/// bindings.
proof fn lemma_shut_applied(b: Seq<(u32, TyV)>, k: nat, u: TyV)
    requires
        shut(u),
        applied_from(Seq::empty(), 0, u) == u,
        k <= b.len(),
    ensures
        applied_from(b, k, u) == u,
{
    let none = Seq::<(u32, TyV)>::empty();
    lemma_shut_stays(none, b, 0, u);
    assert forall|v: u32| !#[trigger] links(u, v) by {
        lemma_shut_links(u, v);
    }
    lemma_place_free(b, b, k, u);
}

proof fn lemma_shut_links(u: TyV, v: u32)
    requires
        shut(u),
    ensures
        !links(u, v),
    decreases u,
{
    match u {
        TyV::PackResolved(elems) => lemma_shut_links_first(elems, elems.len(), v),
        TyV::App(_, args) => lemma_shut_links_first(args, args.len(), v),
        TyV::Fn(params, ret) => {
            lemma_shut_links_first(params, params.len(), v);
            lemma_shut_links(*ret, v);
        },
        TyV::Array(elem, size) => {
            lemma_shut_links(*elem, v);
            lemma_shut_links(*size, v);
        },
        TyV::ConstExpr(_, x, y) => {
            lemma_shut_links(*x, v);
            lemma_shut_links(*y, v);
        },
        _ => {},
    }
}

proof fn lemma_shut_links_first(tys: Seq<TyV>, n: nat, v: u32)
    requires
        forall|i: int| 0 <= i < tys.len() ==> shut(#[trigger] tys[i]),
    ensures
        !crate::subst::links_first(tys, n, v),
    decreases tys, n,
{
    if 0 < n <= tys.len() {
        lemma_shut_links(tys[n - 1], v);
        lemma_shut_links_first(tys, (n - 1) as nat, v);
    }
}

/// Replacing variables by a map is applying the substitution that the map is. What the map
/// gives holds no variable and has nothing left to compute.
pub proof fn lemma_substitute_is_apply(t: TyV, m: Map<u32, TyV>, s: SubstV)
    requires
        made_of(s.bindings, m),
        forall|v: u32| #[trigger]
            m.contains_key(v) ==> shut(m[v]) && applied_from(Seq::empty(), 0, m[v]) == m[v],
    ensures
        substituted(t, m) == applied(s, t),
    decreases t,
{
    let b = s.bindings;
    match t {
        TyV::Var(v) => lemma_replaced_var(b, m, v),
        TyV::Pack(v) => lemma_replaced_var(b, m, v),
        TyV::PackResolved(elems) => lemma_substitute_all(elems, m, s),
        TyV::PackLen(v) => {
            lemma_bound_at(b, 0, v);
            if let Some(i) = bound_at(b, 0, v) {
                assert(m.contains_key(b[i as int].0));
                assert(shut(m[v]));
            } else {
                assert(!m.contains_key(v));
            }
        },
        TyV::App(_, args) => lemma_substitute_all(args, m, s),
        TyV::Fn(params, ret) => {
            lemma_substitute_all(params, m, s);
            lemma_substitute_is_apply(*ret, m, s);
        },
        TyV::Array(elem, size) => {
            lemma_substitute_is_apply(*elem, m, s);
            lemma_substitute_is_apply(*size, m, s);
        },
        TyV::ConstExpr(_, x, y) => {
            lemma_substitute_is_apply(*x, m, s);
            lemma_substitute_is_apply(*y, m, s);
        },
        _ => {},
    }
}

proof fn lemma_replaced_var(b: Seq<(u32, TyV)>, m: Map<u32, TyV>, v: u32)
    requires
        made_of(b, m),
        forall|v: u32| #[trigger]
            m.contains_key(v) ==> shut(m[v]) && applied_from(Seq::empty(), 0, m[v]) == m[v],
    ensures
        m.contains_key(v) ==> applied_from(b, 0, TyV::Var(v)) == m[v] && applied_from(
            b,
            0,
            TyV::Pack(v),
        ) == m[v],
        !m.contains_key(v) ==> applied_from(b, 0, TyV::Var(v)) == TyV::Var(v) && applied_from(
            b,
            0,
            TyV::Pack(v),
        ) == TyV::Pack(v),
{
    lemma_bound_at(b, 0, v);
    if let Some(i) = bound_at(b, 0, v) {
        assert(m.contains_key(b[i as int].0));
        lemma_shut_applied(b, i + 1, b[i as int].1);
    }
}

proof fn lemma_substitute_all(tys: Seq<TyV>, m: Map<u32, TyV>, s: SubstV)
    requires
        made_of(s.bindings, m),
        forall|v: u32| #[trigger]
            m.contains_key(v) ==> shut(m[v]) && applied_from(Seq::empty(), 0, m[v]) == m[v],
    ensures
        substituted_all(tys, m) == applied_all_from(s.bindings, 0, tys),
    decreases tys,
{
    let l = substituted_all(tys, m);
    let r = applied_all_from(s.bindings, 0, tys);
    assert forall|i: int| 0 <= i < tys.len() implies l[i] == r[i] by {
        lemma_substitute_is_apply(tys[i], m, s);
    }
    assert(l =~= r);
}

} // verus!
