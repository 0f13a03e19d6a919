//! What holds of every substitution.

use vstd::prelude::*;

use crate::subst::{
    applied_all_from, applied_from, bound, bound_at, lemma_bound_at, links, links_first,
    triangular,
};
use crate::ty::TyV;
use crate::types::{nested, spliced};

verus! {

// ---- which variables a type links to ----

pub proof fn lemma_links_at(tys: Seq<TyV>, n: nat, i: int, v: u32)
    requires
        0 <= i < n <= tys.len(),
        links(tys[i], v),
    ensures
        links_first(tys, n, v),
    decreases n,
{
    if i < n - 1 {
        lemma_links_at(tys, (n - 1) as nat, i, v);
    }
}

pub proof fn lemma_links_witness(tys: Seq<TyV>, n: nat, v: u32) -> (i: int)
    requires
        links_first(tys, n, v),
    ensures
        0 <= i < n <= tys.len(),
        links(tys[i], v),
    decreases n,
{
    if links(tys[n - 1], v) {
        n - 1
    } else {
        lemma_links_witness(tys, (n - 1) as nat, v)
    }
}

proof fn lemma_links_spliced(tys: Seq<TyV>, v: u32)
    requires
        links_first(spliced(tys), spliced(tys).len(), v),
    ensures
        links_first(tys, tys.len(), v),
    decreases tys.len(),
{
    let i = lemma_links_witness(spliced(tys), spliced(tys).len(), v);
    if tys.len() > 0 {
        let init = tys.drop_last();
        let n = spliced(init).len();
        if i < n {
            assert(spliced(tys)[i] == spliced(init)[i]);
            lemma_links_at(spliced(init), n, i, v);
            lemma_links_spliced(init, v);
            let j = lemma_links_witness(init, init.len(), v);
            assert(tys[j] == init[j]);
            lemma_links_at(tys, tys.len(), j, v);
        } else {
            match tys.last() {
                TyV::PackResolved(elems) => {
                    assert(spliced(tys)[i] == elems[i - n]);
                    lemma_links_at(elems, elems.len(), i - n, v);
                },
                other => {
                    assert(spliced(tys)[i] == other);
                },
            }
            assert(links(tys[tys.len() - 1], v));
        }
    }
}

proof fn lemma_links_nested(elem: TyV, dims: Seq<TyV>, v: u32)
    requires
        links(nested(elem, dims), v),
    ensures
        links(elem, v) || links_first(dims, dims.len(), v),
    decreases dims.len(),
{
    if dims.len() > 0 {
        let rest = dims.subrange(1, dims.len() as int);
        if links(dims[0], v) {
            lemma_links_at(dims, dims.len(), 0, v);
        } else {
            lemma_links_nested(elem, rest, v);
            if !links(elem, v) {
                let j = lemma_links_witness(rest, rest.len(), v);
                assert(rest[j] == dims[j + 1]);
                lemma_links_at(dims, dims.len(), j + 1, v);
            }
        }
    }
}

/// Whether no variable that the type links to is bound.
pub open spec fn settled(b: Seq<(u32, TyV)>, t: TyV) -> bool {
    forall|v: u32| #[trigger] links(t, v) ==> !bound(b, v)
}

/// Whether the variables that the type links to are not bound before the `k`th
/// place.
pub open spec fn not_before(b: Seq<(u32, TyV)>, k: nat, t: TyV) -> bool {
    forall|v: u32, j: int|
        #![trigger links(t, v), b[j]]
        0 <= j < k && j < b.len() && links(t, v) ==> b[j].0 != v
}

/// Applying a substitution leaves no bound variable in a type.
pub proof fn lemma_applied_settled(b: Seq<(u32, TyV)>, k: nat, t: TyV)
    requires
        triangular(b),
        not_before(b, k, t),
    ensures
        settled(b, applied_from(b, k, t)),
    decreases b.len() - k, t, 1nat,
{
    let r = applied_from(b, k, t);
    match t {
        TyV::Var(v) => lemma_applied_settled_var(b, k, t, v),
        TyV::Pack(v) => lemma_applied_settled_var(b, k, t, v),
        TyV::PackResolved(elems) => {
            let parts = applied_all_from(b, k, elems);
            assert forall|v: u32| #[trigger] links(r, v) implies !bound(b, v) by {
                let i = lemma_links_witness(parts, parts.len(), v);
                lemma_applied_settled_item(b, k, t, elems, i);
            }
        },
        TyV::App(name, args) => {
            let parts = applied_all_from(b, k, args);
            assert forall|v: u32| #[trigger] links(r, v) implies !bound(b, v) by {
                lemma_links_spliced(parts, v);
                let i = lemma_links_witness(parts, parts.len(), v);
                lemma_applied_settled_item(b, k, t, args, i);
            }
        },
        TyV::Fn(params, ret) => {
            let parts = applied_all_from(b, k, params);
            assert(not_before(b, k, *ret)) by {
                assert forall|v: u32, j: int|
                    #![trigger links(*ret, v), b[j]]
                    0 <= j < k && j < b.len() && links(*ret, v) implies b[j].0 != v by {
                    assert(links(t, v));
                }
            }
            lemma_applied_settled(b, k, *ret);
            assert forall|v: u32| #[trigger] links(r, v) implies !bound(b, v) by {
                if links(applied_from(b, k, *ret), v) {
                } else {
                    let i = lemma_links_witness(parts, parts.len(), v);
                    lemma_applied_settled_item(b, k, t, params, i);
                }
            }
        },
        TyV::Array(elem, size) => {
            lemma_not_before_part(b, k, t, *elem);
            lemma_not_before_part(b, k, t, *size);
            lemma_applied_settled(b, k, *elem);
            lemma_applied_settled(b, k, *size);
            assert forall|v: u32| #[trigger] links(r, v) implies !bound(b, v) by {
                let e = applied_from(b, k, *elem);
                match applied_from(b, k, *size) {
                    TyV::PackResolved(dims) => {
                        lemma_links_nested(e, dims, v);
                        assert(links(e, v) || links(applied_from(b, k, *size), v));
                    },
                    s => {
                        assert(links(e, v) || links(s, v));
                    },
                }
            }
        },
        TyV::ConstExpr(op, x, y) => {
            lemma_not_before_part(b, k, t, *x);
            lemma_not_before_part(b, k, t, *y);
            lemma_applied_settled(b, k, *x);
            lemma_applied_settled(b, k, *y);
            assert forall|v: u32| #[trigger] links(r, v) implies !bound(b, v) by {
                assert(links(applied_from(b, k, *x), v) || links(applied_from(b, k, *y), v));
            }
        },
        _ => {},
    }
}

proof fn lemma_not_before_part(b: Seq<(u32, TyV)>, k: nat, t: TyV, part: TyV)
    requires
        not_before(b, k, t),
        forall|v: u32| #[trigger] links(part, v) ==> links(t, v),
    ensures
        not_before(b, k, part),
{
    assert forall|v: u32, j: int|
        #![trigger links(part, v), b[j]]
        0 <= j < k && j < b.len() && links(part, v) implies b[j].0 != v by {
        assert(links(t, v));
    }
}

proof fn lemma_applied_settled_var(b: Seq<(u32, TyV)>, k: nat, t: TyV, v: u32)
    requires
        triangular(b),
        not_before(b, k, t),
        t == TyV::Var(v) || t == TyV::Pack(v),
    ensures
        settled(b, applied_from(b, k, t)),
    decreases b.len() - k, t, 0nat,
{
    lemma_bound_at(b, k, v);
    match bound_at(b, k, v) {
        Some(i) => {
            let next = b[i as int].1;
            assert forall|w: u32, j: int|
                #![trigger links(next, w), b[j]]
                0 <= j < i + 1 && j < b.len() && links(next, w) implies b[j].0 != w by {
                assert(!links(b[i as int].1, b[j].0));
            }
            lemma_applied_settled(b, i + 1, next);
        },
        None => {
            assert forall|w: u32| #[trigger] links(t, w) implies !bound(b, w) by {
                lemma_bound_at(b, 0, w);
                assert(links(t, v));
            }
        },
    }
}

proof fn lemma_applied_settled_item(
    b: Seq<(u32, TyV)>,
    k: nat,
    t: TyV,
    items: Seq<TyV>,
    i: int,
)
    requires
        triangular(b),
        not_before(b, k, t),
        0 <= i < items.len(),
        t matches TyV::PackResolved(e) ==> e == items,
        t matches TyV::App(_, e) ==> e == items,
        t matches TyV::Fn(e, _) ==> e == items,
        t is PackResolved || t is App || t is Fn,
    ensures
        settled(b, applied_all_from(b, k, items)[i]),
    decreases b.len() - k, items, 1nat,
{
    assert forall|v: u32| #[trigger] links(items[i], v) implies links(t, v) by {
        lemma_links_at(items, items.len(), i, v);
    }
    lemma_not_before_part(b, k, t, items[i]);
    lemma_applied_settled(b, k, items[i]);
}

// ---- binding keeps the order ----

pub proof fn lemma_bound_iff(b: Seq<(u32, TyV)>, v: u32)
    ensures
        bound(b, v) <==> exists|j: int| 0 <= j < b.len() && (#[trigger] b[j]).0 == v,
{
    lemma_bound_at(b, 0, v);
}

proof fn lemma_triangular_push_entry(b: Seq<(u32, TyV)>, e: (u32, TyV))
    requires
        triangular(b),
        forall|j: int|
            0 <= j < b.len() ==> (#[trigger] b[j]).0 != e.0 && !links(e.1, b[j].0),
        !links(e.1, e.0),
    ensures
        triangular(b.push(e)),
{
    let r = b.push(e);
    assert forall|i: int, j: int|
        #![trigger r[i], r[j]]
        0 <= j < i < r.len() implies r[i].0 != r[j].0 by {
        assert(r[j] == b[j]);
        if i < b.len() {
            assert(r[i] == b[i]);
        }
    }
    assert forall|i: int, j: int|
        #![trigger r[i], r[j]]
        0 <= j <= i < r.len() implies !links(r[i].1, r[j].0) by {
        if j < b.len() {
            assert(r[j] == b[j]);
        }
        if i < b.len() {
            assert(r[i] == b[i]);
        }
    }
}

/// Binding an unbound variable to a type without bound variables and without
/// itself keeps the bindings in order.
pub proof fn lemma_triangular_push(b: Seq<(u32, TyV)>, v: u32, t: TyV)
    requires
        triangular(b),
        !bound(b, v),
        settled(b, t),
        !links(t, v),
    ensures
        triangular(b.push((v, t))),
{
    lemma_bound_iff(b, v);
    assert forall|j: int| 0 <= j < b.len() implies (#[trigger] b[j]).0 != v && !links(
        t,
        b[j].0,
    ) by {
        lemma_bound_iff(b, b[j].0);
    }
    lemma_triangular_push_entry(b, (v, t));
}

/// There are no more bindings than variables.
pub proof fn lemma_bindings_len(b: Seq<(u32, TyV)>)
    requires
        triangular(b),
    ensures
        b.len() <= 0x1_0000_0000,
{
    let keys = Seq::new(b.len(), |i: int| b[i].0 as int);
    assert(keys.no_duplicates()) by {
        assert forall|i: int, j: int|
            0 <= i < keys.len() && 0 <= j < keys.len() && i != j implies keys[i] != keys[j] by {
            if i < j {
                assert(b[j].0 != b[i].0);
            } else {
                assert(b[i].0 != b[j].0);
            }
        }
    }
    keys.unique_seq_to_set();
    vstd::set_lib::lemma_int_range(0, 0x1_0000_0000);
    let range = vstd::set_lib::set_int_range(0, 0x1_0000_0000);
    assert(keys.to_set().subset_of(range)) by {
        assert forall|x: int| keys.to_set().contains(x) implies range.contains(x) by {
            let i = choose|i: int| 0 <= i < keys.len() && keys[i] == x;
            assert(keys[i] == b[i].0 as int);
        }
    }
    vstd::set_lib::lemma_len_subset(keys.to_set(), range);
}

// ---- the size of a type ----

/// A size that applying a substitution does not enlarge where it replaces
/// nothing.
pub open spec fn size_of(t: TyV) -> nat
    decreases t, 0nat,
{
    match t {
        TyV::PackResolved(elems) => 1 + size_first(elems, elems.len()),
        TyV::App(_, args) => 1 + size_first(args, args.len()),
        TyV::Fn(params, ret) => 1 + size_first(params, params.len()) + size_of(*ret),
        TyV::Array(elem, size) => 1 + size_of(*elem) + size_of(*size),
        TyV::ConstExpr(_, a, b) => 1 + size_of(*a) + size_of(*b),
        _ => 1,
    }
}

pub open spec fn size_first(tys: Seq<TyV>, n: nat) -> nat
    decreases tys, n,
{
    if n == 0 || n > tys.len() {
        0
    } else {
        1 + size_of(tys[n - 1]) + size_first(tys, (n - 1) as nat)
    }
}

pub proof fn lemma_size_at(tys: Seq<TyV>, n: nat, i: int)
    requires
        0 <= i < n <= tys.len(),
    ensures
        size_of(tys[i]) < size_first(tys, n),
    decreases n,
{
    if i < n - 1 {
        lemma_size_at(tys, (n - 1) as nat, i);
    }
}

proof fn lemma_size_first_prefix(a: Seq<TyV>, b: Seq<TyV>, n: nat)
    requires
        n <= a.len(),
        n <= b.len(),
        forall|i: int| 0 <= i < n ==> a[i] == b[i],
    ensures
        size_first(a, n) == size_first(b, n),
    decreases n,
{
    if n > 0 {
        lemma_size_first_prefix(a, b, (n - 1) as nat);
    }
}

proof fn lemma_size_first_add(a: Seq<TyV>, b: Seq<TyV>, n: nat)
    requires
        n <= b.len(),
    ensures
        size_first(a + b, a.len() + n) == size_first(a, a.len()) + size_first(b, n),
    decreases n,
{
    if n == 0 {
        lemma_size_first_prefix(a, a + b, a.len());
    } else {
        lemma_size_first_add(a, b, (n - 1) as nat);
        assert((a + b)[a.len() + n - 1] == b[n - 1]);
    }
}

proof fn lemma_size_spliced(tys: Seq<TyV>)
    ensures
        size_first(spliced(tys), spliced(tys).len()) <= size_first(tys, tys.len()),
    decreases tys.len(),
{
    reveal_with_fuel(size_first, 2);
    if tys.len() > 0 {
        let init = tys.drop_last();
        lemma_size_spliced(init);
        lemma_size_first_prefix(init, tys, init.len());
        match tys.last() {
            TyV::PackResolved(elems) => {
                lemma_size_first_add(spliced(init), elems, elems.len());
                assert(spliced(tys).len() == spliced(init).len() + elems.len());
                assert(size_of(tys[tys.len() - 1]) == 1 + size_first(elems, elems.len()));
            },
            other => {
                let r = spliced(tys);
                lemma_size_first_prefix(spliced(init), r, spliced(init).len());
                assert(r[r.len() - 1] == other);
            },
        }
    }
}

proof fn lemma_size_first_tail(dims: Seq<TyV>, n: nat)
    requires
        0 < n <= dims.len(),
    ensures
        size_first(dims, n) == 1 + size_of(dims[0]) + size_first(
            dims.subrange(1, dims.len() as int),
            (n - 1) as nat,
        ),
    decreases n,
{
    reveal_with_fuel(size_first, 2);
    if n > 1 {
        lemma_size_first_tail(dims, (n - 1) as nat);
        assert(dims.subrange(1, dims.len() as int)[n - 2] == dims[n - 1]);
    }
}

proof fn lemma_size_nested(elem: TyV, dims: Seq<TyV>)
    ensures
        size_of(nested(elem, dims)) == size_of(elem) + size_first(dims, dims.len()),
    decreases dims.len(),
{
    if dims.len() > 0 {
        lemma_size_nested(elem, dims.subrange(1, dims.len() as int));
        lemma_size_first_tail(dims, dims.len());
    }
}

/// Where a type links to no bound variable, applying the substitution does not
/// enlarge it.
pub proof fn lemma_size_applied(b: Seq<(u32, TyV)>, t: TyV)
    requires
        settled(b, t),
    ensures
        size_of(applied_from(b, 0, t)) <= size_of(t),
    decreases t, 0nat,
{
    match t {
        TyV::Var(v) => {
            assert(links(t, v));
        },
        TyV::Pack(v) => {
            assert(links(t, v));
        },
        TyV::PackResolved(elems) => {
            assert forall|i: int| 0 <= i < elems.len() implies settled(
                b,
                #[trigger] elems[i],
            ) by {
                lemma_settled_item(b, t, elems, i);
            }
            lemma_size_applied_first(b, elems, elems.len());
        },
        TyV::App(_, args) => {
            assert forall|i: int| 0 <= i < args.len() implies settled(b, #[trigger] args[i]) by {
                lemma_settled_item(b, t, args, i);
            }
            lemma_size_applied_first(b, args, args.len());
            lemma_size_spliced(applied_all_from(b, 0, args));
        },
        TyV::Fn(params, ret) => {
            assert forall|i: int| 0 <= i < params.len() implies settled(
                b,
                #[trigger] params[i],
            ) by {
                lemma_settled_item(b, t, params, i);
            }
            lemma_size_applied_first(b, params, params.len());
            lemma_settled_part(b, t, *ret);
            lemma_size_applied(b, *ret);
        },
        TyV::Array(elem, size) => {
            lemma_settled_part(b, t, *elem);
            lemma_settled_part(b, t, *size);
            lemma_size_applied(b, *elem);
            lemma_size_applied(b, *size);
            match applied_from(b, 0, *size) {
                TyV::PackResolved(dims) => {
                    lemma_size_nested(applied_from(b, 0, *elem), dims);
                },
                _ => {},
            }
        },
        TyV::ConstExpr(_, x, y) => {
            lemma_settled_part(b, t, *x);
            lemma_settled_part(b, t, *y);
            lemma_size_applied(b, *x);
            lemma_size_applied(b, *y);
        },
        _ => {},
    }
}

proof fn lemma_size_applied_first(b: Seq<(u32, TyV)>, tys: Seq<TyV>, n: nat)
    requires
        n <= tys.len(),
        forall|i: int| 0 <= i < tys.len() ==> settled(b, #[trigger] tys[i]),
    ensures
        size_first(applied_all_from(b, 0, tys), n) <= size_first(tys, n),
    decreases tys, n,
{
    if n > 0 {
        lemma_size_applied_first(b, tys, (n - 1) as nat);
        lemma_size_applied(b, tys[n - 1]);
    }
}

pub proof fn lemma_settled_part(b: Seq<(u32, TyV)>, t: TyV, part: TyV)
    requires
        settled(b, t),
        forall|v: u32| #[trigger] links(part, v) ==> links(t, v),
    ensures
        settled(b, part),
{
    assert forall|v: u32| #[trigger] links(part, v) implies !bound(b, v) by {
        assert(links(t, v));
    }
}

pub proof fn lemma_settled_item(b: Seq<(u32, TyV)>, t: TyV, items: Seq<TyV>, i: int)
    requires
        settled(b, t),
        0 <= i < items.len(),
        t matches TyV::PackResolved(e) ==> e == items,
        t matches TyV::App(_, e) ==> e == items,
        t matches TyV::Fn(e, _) ==> e == items,
        t is PackResolved || t is App || t is Fn,
    ensures
        settled(b, items[i]),
{
    assert forall|v: u32| #[trigger] links(items[i], v) implies links(t, v) by {
        lemma_links_at(items, items.len(), i, v);
    }
    lemma_settled_part(b, t, items[i]);
}

} // verus!
