//! Unification: finding what the variables of two types must stand for so that
//! the types agree.

use vstd::prelude::*;

use crate::const_eval::ConstValue;
use crate::subst::{
    applied, applied_all, bind, bind_pack, bound, extends, links, links_first, triangular, Subst,
    SubstV,
};
use crate::subst_laws::{
    lemma_applied_settled, lemma_bindings_len, lemma_links_at, lemma_settled_item,
    lemma_settled_part, lemma_size_applied, lemma_size_at, lemma_triangular_push, settled, size_of,
};
use crate::table::{dup_tail, group_views, views, Dup};
use crate::text::same;
use crate::ty::{group_ty, lemma_ty_view, Ty, TyV, TyVar};
use crate::types::{mentions, mentions_first};

verus! {

broadcast use {group_views, group_ty};

/// Why two types do not agree.
#[derive(PartialEq, Eq, Debug)]
pub enum UnifyError {
    Mismatch(Ty, Ty),
    /// The variable would have to stand for a type that holds it.
    Occurs(TyVar, Ty),
}

#[verifier::ext_equal]
pub enum UnifyErrorV {
    Mismatch(TyV, TyV),
    Occurs(u32, TyV),
}

impl View for UnifyError {
    type V = UnifyErrorV;

    open spec fn view(&self) -> UnifyErrorV {
        match self {
            UnifyError::Mismatch(a, b) => UnifyErrorV::Mismatch(a@, b@),
            UnifyError::Occurs(v, t) => UnifyErrorV::Occurs(v.0, t@),
        }
    }
}

impl Dup for UnifyError {
    fn dup(&self) -> (r: Self) {
        match self {
            UnifyError::Mismatch(a, b) => UnifyError::Mismatch(a.dup(), b.dup()),
            UnifyError::Occurs(v, t) => UnifyError::Occurs(*v, t.dup()),
        }
    }
}

pub open spec fn failure(r: Result<(), UnifyError>) -> Option<UnifyErrorV> {
    match r {
        Ok(_) => None,
        Err(e) => Some(e@),
    }
}

/// The names of the integer types that a constant can have.
pub open spec fn int_type_name(name: Seq<char>) -> bool {
    name == "i8"@ || name == "i16"@ || name == "i32"@ || name == "i64"@
}

/// Whether a constant can have the type of that name.
pub open spec fn const_has_type(c: ConstValue, name: Seq<char>) -> bool {
    match c {
        ConstValue::Int(_) => int_type_name(name),
        ConstValue::Bool(_) => name == "bool"@,
    }
}

/// Whether two types agree as they stand: the same name, constant, variable or
/// pack, or a constant beside a type that it can have.
pub open spec fn agree_now(a: TyV, b: TyV) -> bool {
    match (a, b) {
        (TyV::Con(x), TyV::Con(y)) => x == y,
        (TyV::Const(x), TyV::Const(y)) => x == y,
        (TyV::Const(c), TyV::Con(n)) => const_has_type(c, n),
        (TyV::Con(n), TyV::Const(c)) => const_has_type(c, n),
        (TyV::Var(x), TyV::Var(y)) => x == y,
        (TyV::Pack(x), TyV::Pack(y)) => x == y,
        _ => false,
    }
}

/// The pack that a list of arguments ends in.
pub open spec fn trailing_pack(args: Seq<TyV>) -> Option<u32> {
    if args.len() == 0 {
        None
    } else {
        match args.last() {
            TyV::Pack(v) => Some(v),
            _ => None,
        }
    }
}

/// How many more variables can be bound.
pub open spec fn room(s: SubstV) -> nat {
    if s.bindings.len() <= 0x1_0000_0000 {
        (0x1_0000_0000 - s.bindings.len()) as nat
    } else {
        0
    }
}

/// The size of a pair of types as they are known.
pub open spec fn weight(s: SubstV, a: TyV, b: TyV) -> nat {
    size_of(applied(s, a)) + size_of(applied(s, b))
}

/// The substitution and the failure, if any, that come of unifying two types.
pub open spec fn unified(s: SubstV, a: TyV, b: TyV) -> (SubstV, Option<UnifyErrorV>)
    decreases room(s), weight(s, a, b), 1nat, 0nat,
{
    let x = applied(s, a);
    let y = applied(s, b);
    let m = (room(s), weight(s, a, b));
    let mismatch = (s, Some(UnifyErrorV::Mismatch(x, y)));
    if agree_now(x, y) {
        (s, None)
    } else {
        match (x, y) {
            (TyV::Var(v), _) => if mentions(y, v) {
                (s, Some(UnifyErrorV::Occurs(v, y)))
            } else {
                (bind(s, v, y), None)
            },
            (_, TyV::Var(v)) => if mentions(x, v) {
                (s, Some(UnifyErrorV::Occurs(v, x)))
            } else {
                (bind(s, v, x), None)
            },
            (TyV::Fn(p1, r1), TyV::Fn(p2, r2)) => if p1.len() != p2.len() {
                mismatch
            } else {
                let (s1, e) = unified_first(m.0, m.1, s, p1, p2, 0, p1.len());
                if e is Some {
                    (s1, e)
                } else {
                    unified_part(m.0, m.1, s1, *r1, *r2)
                }
            },
            (TyV::App(n1, a1), TyV::App(n2, a2)) => if n1 != n2 {
                mismatch
            } else {
                match (trailing_pack(a1), trailing_pack(a2)) {
                    (None, None) => if a1.len() != a2.len() {
                        mismatch
                    } else {
                        unified_first(m.0, m.1, s, a1, a2, 0, a1.len())
                    },
                    (Some(v1), Some(v2)) => if v1 != v2 || a1.len() != a2.len() {
                        mismatch
                    } else {
                        unified_first(m.0, m.1, s, a1, a2, 0, (a1.len() - 1) as nat)
                    },
                    (Some(v), None) => if a2.len() < a1.len() - 1 {
                        mismatch
                    } else {
                        let n = (a1.len() - 1) as nat;
                        let (s1, e) = unified_first(m.0, m.1, s, a1, a2, 0, n);
                        if e is Some {
                            (s1, e)
                        } else if bound(s1.bindings, v) {
                            unified_part(m.0, m.1, s1, x, y)
                        } else {
                            pack_taken(s1, v, a2.subrange(n as int, a2.len() as int))
                        }
                    },
                    (None, Some(v)) => if a1.len() < a2.len() - 1 {
                        mismatch
                    } else {
                        let n = (a2.len() - 1) as nat;
                        let (s1, e) = unified_first(m.0, m.1, s, a1, a2, 0, n);
                        if e is Some {
                            (s1, e)
                        } else if bound(s1.bindings, v) {
                            unified_part(m.0, m.1, s1, x, y)
                        } else {
                            pack_taken(s1, v, a1.subrange(n as int, a1.len() as int))
                        }
                    },
                }
            },
            (TyV::Array(e1, s1), TyV::Array(e2, s2)) => unified_two(
                m.0,
                m.1,
                s,
                *e1,
                *e2,
                *s1,
                *s2,
            ),
            (TyV::ConstExpr(o1, x1, y1), TyV::ConstExpr(o2, x2, y2)) => if o1 != o2 {
                mismatch
            } else {
                unified_two(m.0, m.1, s, *x1, *x2, *y1, *y2)
            },
            _ => mismatch,
        }
    }
}

/// The substitution and the failure that come of binding the pack `v` to what
/// is left of an argument list.
pub open spec fn pack_taken(s: SubstV, v: u32, rest: Seq<TyV>) -> (SubstV, Option<
    UnifyErrorV,
>) {
    let elems = applied_all(s, rest);
    let whole = TyV::PackResolved(elems);
    if links(whole, v) {
        (s, Some(UnifyErrorV::Occurs(v, whole)))
    } else {
        (bind_pack(s, v, elems), None)
    }
}

/// Unifies a pair that is smaller than the limit, or comes with less room.
pub open spec fn unified_part(r: nat, w: nat, s: SubstV, a: TyV, b: TyV) -> (SubstV, Option<
    UnifyErrorV,
>)
    decreases r, w, 0nat, 0nat,
{
    if room(s) < r || (room(s) == r && weight(s, a, b) < w) {
        unified(s, a, b)
    } else {
        (s, None)
    }
}

/// Unifies two pairs, one after the other.
pub open spec fn unified_two(
    r: nat,
    w: nat,
    s: SubstV,
    a1: TyV,
    b1: TyV,
    a2: TyV,
    b2: TyV,
) -> (SubstV, Option<UnifyErrorV>)
    decreases r, w, 0nat, 1nat,
{
    let (s1, e) = unified_part(r, w, s, a1, b1);
    if e is Some {
        (s1, e)
    } else {
        unified_part(r, w, s1, a2, b2)
    }
}

/// Unifies the pairs of two lists from the `i`th on, up to the `n`th.
pub open spec fn unified_first(
    r: nat,
    w: nat,
    s: SubstV,
    xs: Seq<TyV>,
    ys: Seq<TyV>,
    i: nat,
    n: nat,
) -> (SubstV, Option<UnifyErrorV>)
    decreases r, w, 0nat, n - i,
{
    if i >= n {
        (s, None)
    } else {
        let (s1, e) = unified_part(r, w, s, xs[i as int], ys[i as int]);
        if e is Some {
            (s1, e)
        } else {
            unified_first(r, w, s1, xs, ys, i + 1, n)
        }
    }
}

// ---- unification keeps the order of the bindings and ends ----

/// Whether each of the first `n` pairs is within the limit.
pub open spec fn fits(r: nat, w: nat, s: SubstV, xs: Seq<TyV>, ys: Seq<TyV>, n: nat) -> bool {
    room(s) < r || (room(s) == r && forall|i: int|
        0 <= i < n ==> weight(s, #[trigger] xs[i], ys[i]) < w)
}

/// Whether the pair is within the limit.
pub open spec fn fits_part(r: nat, w: nat, s: SubstV, a: TyV, b: TyV) -> bool {
    room(s) < r || (room(s) == r && weight(s, a, b) < w)
}

pub proof fn lemma_room(s: SubstV, t: SubstV)
    requires
        triangular(s.bindings),
        triangular(t.bindings),
        extends(t, s),
    ensures
        t.bindings == s.bindings || room(t) < room(s),
{
    if t.bindings.len() == s.bindings.len() {
        assert(t.bindings =~= s.bindings);
    }
    lemma_bindings_len(s.bindings);
    lemma_bindings_len(t.bindings);
}

pub proof fn lemma_links_mentioned(t: TyV, v: u32)
    ensures
        links(t, v) ==> mentions(t, v),
    decreases t, 0nat,
{
    match t {
        TyV::PackResolved(elems) => lemma_links_mentioned_first(elems, elems.len(), v),
        TyV::App(_, args) => lemma_links_mentioned_first(args, args.len(), v),
        TyV::Fn(params, ret) => {
            lemma_links_mentioned_first(params, params.len(), v);
            lemma_links_mentioned(*ret, v);
        },
        TyV::Array(elem, size) => {
            lemma_links_mentioned(*elem, v);
            lemma_links_mentioned(*size, v);
        },
        TyV::ConstExpr(_, a, b) => {
            lemma_links_mentioned(*a, v);
            lemma_links_mentioned(*b, v);
        },
        _ => {},
    }
}

proof fn lemma_links_mentioned_first(tys: Seq<TyV>, n: nat, v: u32)
    ensures
        links_first(tys, n, v) ==> mentions_first(tys, n, v),
    decreases tys, n,
{
    if 0 < n && n <= tys.len() {
        lemma_links_mentioned(tys[n - 1], v);
        lemma_links_mentioned_first(tys, (n - 1) as nat, v);
    }
}

pub proof fn lemma_applied_is_settled(s: SubstV, t: TyV)
    requires
        triangular(s.bindings),
    ensures
        settled(s.bindings, applied(s, t)),
{
    lemma_applied_settled(s.bindings, 0, t);
}

/// The parts of two applied types are within the limit that the types set.
proof fn lemma_fit_item(s: SubstV, x: TyV, y: TyV, xs: Seq<TyV>, ys: Seq<TyV>, n: nat)
    requires
        settled(s.bindings, x),
        settled(s.bindings, y),
        n <= xs.len(),
        n <= ys.len(),
        x matches TyV::App(_, e) ==> e == xs,
        x matches TyV::Fn(e, _) ==> e == xs,
        x is App || x is Fn,
        y matches TyV::App(_, e) ==> e == ys,
        y matches TyV::Fn(e, _) ==> e == ys,
        y is App || y is Fn,
    ensures
        fits(room(s), size_of(x) + size_of(y), s, xs, ys, n),
{
    assert forall|i: int| 0 <= i < n implies weight(s, #[trigger] xs[i], ys[i]) < size_of(x)
        + size_of(y) by {
        lemma_settled_item(s.bindings, x, xs, i);
        lemma_settled_item(s.bindings, y, ys, i);
        lemma_size_applied(s.bindings, xs[i]);
        lemma_size_applied(s.bindings, ys[i]);
        lemma_size_at(xs, xs.len(), i);
        lemma_size_at(ys, ys.len(), i);
    }
}

proof fn lemma_fit_part(s: SubstV, x: TyV, y: TyV, px: TyV, py: TyV)
    requires
        settled(s.bindings, x),
        settled(s.bindings, y),
        forall|v: u32| #[trigger] links(px, v) ==> links(x, v),
        forall|v: u32| #[trigger] links(py, v) ==> links(y, v),
        size_of(px) < size_of(x),
        size_of(py) < size_of(y),
    ensures
        fits_part(room(s), size_of(x) + size_of(y), s, px, py),
{
    lemma_settled_part(s.bindings, x, px);
    lemma_settled_part(s.bindings, y, py);
    lemma_size_applied(s.bindings, px);
    lemma_size_applied(s.bindings, py);
}

proof fn lemma_applied_all_settled(s: SubstV, rest: Seq<TyV>)
    requires
        triangular(s.bindings),
    ensures
        settled(s.bindings, TyV::PackResolved(applied_all(s, rest))),
{
    lemma_applied_is_settled(s, TyV::PackResolved(rest));
}

pub proof fn lemma_pack_taken(s: SubstV, v: u32, rest: Seq<TyV>)
    requires
        triangular(s.bindings),
        !bound(s.bindings, v),
    ensures
        triangular(pack_taken(s, v, rest).0.bindings),
        extends(pack_taken(s, v, rest).0, s),
{
    lemma_applied_all_settled(s, rest);
    let elems = applied_all(s, rest);
    if !links(TyV::PackResolved(elems), v) {
        lemma_triangular_push(s.bindings, v, TyV::PackResolved(elems));
    }
}

pub proof fn lemma_extends_more(s: SubstV, t: SubstV, u: SubstV)
    requires
        extends(t, s),
        extends(u, t),
    ensures
        extends(u, s),
{
    assert forall|i: int| 0 <= i < s.bindings.len() implies u.bindings[i] == #[trigger]
        s.bindings[i] by {
        assert(t.bindings[i] == s.bindings[i]);
        assert(u.bindings[i] == t.bindings[i]);
    }
    assert forall|v: u32| #[trigger] s.widths.contains_key(v) implies u.widths.contains_key(v)
        && u.widths[v] == s.widths[v] by {
        assert(t.widths.contains_key(v));
    }
}

pub proof fn lemma_bind(s: SubstV, v: u32, t: TyV)
    requires
        triangular(s.bindings),
        !bound(s.bindings, v),
        settled(s.bindings, t),
        !mentions(t, v),
    ensures
        triangular(bind(s, v, t).bindings),
        extends(bind(s, v, t), s),
{
    lemma_links_mentioned(t, v);
    lemma_triangular_push(s.bindings, v, t);
}

/// Unification extends a substitution and keeps its bindings in order, whether it succeeds or
/// fails: nothing that is bound is bound to anything else, and no width is lost.
pub proof fn lemma_unified(s: SubstV, a: TyV, b: TyV)
    requires
        triangular(s.bindings),
    ensures
        triangular(unified(s, a, b).0.bindings),
        extends(unified(s, a, b).0, s),
    decreases room(s), weight(s, a, b), 1nat, 0nat,
{
    let x = applied(s, a);
    let y = applied(s, b);
    let r = room(s);
    let w = weight(s, a, b);
    lemma_applied_is_settled(s, a);
    lemma_applied_is_settled(s, b);
    if !agree_now(x, y) {
        match (x, y) {
            (TyV::Var(v), _) => {
                assert(links(x, v));
                if !mentions(y, v) {
                    lemma_bind(s, v, y);
                }
            },
            (_, TyV::Var(v)) => {
                assert(links(y, v));
                if !mentions(x, v) {
                    lemma_bind(s, v, x);
                }
            },
            (TyV::Fn(p1, r1), TyV::Fn(p2, r2)) => {
                if p1.len() == p2.len() {
                    lemma_fit_item(s, x, y, p1, p2, p1.len());
                    lemma_unified_first(r, w, s, p1, p2, 0, p1.len());
                    let (s1, e) = unified_first(r, w, s, p1, p2, 0, p1.len());
                    if e is None {
                        lemma_fit_part(s, x, y, *r1, *r2);
                        lemma_room(s, s1);
                        lemma_unified_part(r, w, s1, *r1, *r2);
                        lemma_extends_more(s, s1, unified_part(r, w, s1, *r1, *r2).0);
                    }
                }
            },
            (TyV::App(n1, a1), TyV::App(n2, a2)) => {
                if n1 == n2 {
                    match (trailing_pack(a1), trailing_pack(a2)) {
                        (None, None) => {
                            if a1.len() == a2.len() {
                                lemma_fit_item(s, x, y, a1, a2, a1.len());
                                lemma_unified_first(r, w, s, a1, a2, 0, a1.len());
                            }
                        },
                        (Some(v1), Some(v2)) => {
                            if v1 == v2 && a1.len() == a2.len() {
                                let n = (a1.len() - 1) as nat;
                                lemma_fit_item(s, x, y, a1, a2, n);
                                lemma_unified_first(r, w, s, a1, a2, 0, n);
                            }
                        },
                        (Some(v), None) => {
                            if a2.len() >= a1.len() - 1 {
                                let n = (a1.len() - 1) as nat;
                                lemma_fit_item(s, x, y, a1, a2, n);
                                lemma_unified_first(r, w, s, a1, a2, 0, n);
                                let s1 = unified_first(r, w, s, a1, a2, 0, n).0;
                                lemma_links_at(a1, a1.len(), a1.len() - 1, v);
                                assert(links(x, v));
                                let rest = a2.subrange(n as int, a2.len() as int);
                                if bound(s1.bindings, v) {
                                    lemma_unified_part(r, w, s1, x, y);
                                    lemma_extends_more(s, s1, unified_part(r, w, s1, x, y).0);
                                } else {
                                    lemma_pack_taken(s1, v, rest);
                                    lemma_extends_more(s, s1, pack_taken(s1, v, rest).0);
                                }
                            }
                        },
                        (None, Some(v)) => {
                            if a1.len() >= a2.len() - 1 {
                                let n = (a2.len() - 1) as nat;
                                lemma_fit_item(s, x, y, a1, a2, n);
                                lemma_unified_first(r, w, s, a1, a2, 0, n);
                                let s1 = unified_first(r, w, s, a1, a2, 0, n).0;
                                lemma_links_at(a2, a2.len(), a2.len() - 1, v);
                                assert(links(y, v));
                                let rest = a1.subrange(n as int, a1.len() as int);
                                if bound(s1.bindings, v) {
                                    lemma_unified_part(r, w, s1, x, y);
                                    lemma_extends_more(s, s1, unified_part(r, w, s1, x, y).0);
                                } else {
                                    lemma_pack_taken(s1, v, rest);
                                    lemma_extends_more(s, s1, pack_taken(s1, v, rest).0);
                                }
                            }
                        },
                    }
                }
            },
            (TyV::Array(e1, s1), TyV::Array(e2, s2)) => {
                lemma_fit_part(s, x, y, *e1, *e2);
                lemma_fit_part(s, x, y, *s1, *s2);
                lemma_unified_two(r, w, s, *e1, *e2, *s1, *s2);
            },
            (TyV::ConstExpr(o1, x1, y1), TyV::ConstExpr(o2, x2, y2)) => {
                if o1 == o2 {
                    lemma_fit_part(s, x, y, *x1, *x2);
                    lemma_fit_part(s, x, y, *y1, *y2);
                    lemma_unified_two(r, w, s, *x1, *x2, *y1, *y2);
                }
            },
            _ => {},
        }
    }
}

pub proof fn lemma_unified_part(r: nat, w: nat, s: SubstV, a: TyV, b: TyV)
    requires
        triangular(s.bindings),
    ensures
        triangular(unified_part(r, w, s, a, b).0.bindings),
        extends(unified_part(r, w, s, a, b).0, s),
    decreases r, w, 0nat, 0nat,
{
    if room(s) < r || (room(s) == r && weight(s, a, b) < w) {
        lemma_unified(s, a, b);
    }
}

proof fn lemma_unified_two(r: nat, w: nat, s: SubstV, a1: TyV, b1: TyV, a2: TyV, b2: TyV)
    requires
        triangular(s.bindings),
    ensures
        triangular(unified_two(r, w, s, a1, b1, a2, b2).0.bindings),
        extends(unified_two(r, w, s, a1, b1, a2, b2).0, s),
    decreases r, w, 0nat, 1nat,
{
    lemma_unified_part(r, w, s, a1, b1);
    let s1 = unified_part(r, w, s, a1, b1).0;
    lemma_unified_part(r, w, s1, a2, b2);
    lemma_extends_more(s, s1, unified_part(r, w, s1, a2, b2).0);
}

pub proof fn lemma_unified_first(
    r: nat,
    w: nat,
    s: SubstV,
    xs: Seq<TyV>,
    ys: Seq<TyV>,
    i: nat,
    n: nat,
)
    requires
        triangular(s.bindings),
    ensures
        triangular(unified_first(r, w, s, xs, ys, i, n).0.bindings),
        extends(unified_first(r, w, s, xs, ys, i, n).0, s),
    decreases r, w, 0nat, n - i,
{
    if i < n {
        lemma_unified_part(r, w, s, xs[i as int], ys[i as int]);
        let s1 = unified_part(r, w, s, xs[i as int], ys[i as int]).0;
        lemma_unified_first(r, w, s1, xs, ys, i + 1, n);
        lemma_extends_more(s, s1, unified_first(r, w, s1, xs, ys, i + 1, n).0);
    }
}

// ---- execution ----

/// Whether the variable stands anywhere in the type.
pub fn occurs_in(ty: &Ty, v: u32) -> (r: bool)
    ensures
        r == mentions(ty@, v),
    decreases ty,
{
    proof {
        lemma_ty_view(*ty);
    }
    match ty {
        Ty::Var(w) => w.0 == v,
        Ty::Pack(w) => w.0 == v,
        Ty::PackResolved(elems) => occurs_in_any(elems, v),
        Ty::PackLen(w) => w.0 == v,
        Ty::Con(_) | Ty::Const(_) => false,
        Ty::App(_, args) => occurs_in_any(args, v),
        Ty::Fn(params, ret) => occurs_in_any(params, v) || occurs_in(ret, v),
        Ty::Array(elem, size) => occurs_in(elem, v) || occurs_in(size, v),
        Ty::ConstExpr(_, a, b) => occurs_in(a, v) || occurs_in(b, v),
    }
}

fn occurs_in_any(tys: &Vec<Ty>, v: u32) -> (r: bool)
    ensures
        r == mentions_first(views(tys@), tys@.len(), v),
    decreases tys,
{
    let mut i: usize = tys.len();
    while i > 0
        invariant
            i <= tys.len(),
            mentions_first(views(tys@), tys@.len(), v) == mentions_first(
                views(tys@),
                i as nat,
                v,
            ),
        decreases i,
    {
        if occurs_in(&tys[i - 1], v) {
            return true;
        }
        i = i - 1;
    }
    false
}

/// Whether the variable stands in the type for a type or a pack of types.
fn links_to(ty: &Ty, v: u32) -> (r: bool)
    ensures
        r == links(ty@, v),
    decreases ty,
{
    proof {
        lemma_ty_view(*ty);
    }
    match ty {
        Ty::Var(w) => w.0 == v,
        Ty::Pack(w) => w.0 == v,
        Ty::PackResolved(elems) => any_links_to(elems, v),
        Ty::PackLen(_) | Ty::Con(_) | Ty::Const(_) => false,
        Ty::App(_, args) => any_links_to(args, v),
        Ty::Fn(params, ret) => any_links_to(params, v) || links_to(ret, v),
        Ty::Array(elem, size) => links_to(elem, v) || links_to(size, v),
        Ty::ConstExpr(_, a, b) => links_to(a, v) || links_to(b, v),
    }
}

fn any_links_to(tys: &Vec<Ty>, v: u32) -> (r: bool)
    ensures
        r == links_first(views(tys@), tys@.len(), v),
    decreases tys,
{
    let mut i: usize = tys.len();
    while i > 0
        invariant
            i <= tys.len(),
            links_first(views(tys@), tys@.len(), v) == links_first(views(tys@), i as nat, v),
        decreases i,
    {
        if links_to(&tys[i - 1], v) {
            return true;
        }
        i = i - 1;
    }
    false
}

/// Whether the name is that of an integer type.
pub fn names_int(name: &str) -> (r: bool)
    ensures
        r == int_type_name(name@),
{
    same(name, "i8") || same(name, "i16") || same(name, "i32") || same(name, "i64")
}

fn can_have_type(c: ConstValue, name: &str) -> (r: bool)
    ensures
        r == const_has_type(c, name@),
{
    match c {
        ConstValue::Int(_) => names_int(name),
        ConstValue::Bool(_) => same(name, "bool"),
    }
}

fn agree_as_they_stand(a: &Ty, b: &Ty) -> (r: bool)
    ensures
        r == agree_now(a@, b@),
{
    proof {
        lemma_ty_view(*a);
        lemma_ty_view(*b);
    }
    match (a, b) {
        (Ty::Con(x), Ty::Con(y)) => *x == *y,
        (Ty::Const(x), Ty::Const(y)) => *x == *y,
        (Ty::Const(c), Ty::Con(n)) => can_have_type(*c, n.as_str()),
        (Ty::Con(n), Ty::Const(c)) => can_have_type(*c, n.as_str()),
        (Ty::Var(x), Ty::Var(y)) => x.0 == y.0,
        (Ty::Pack(x), Ty::Pack(y)) => x.0 == y.0,
        _ => false,
    }
}

fn last_pack(args: &Vec<Ty>) -> (r: Option<u32>)
    ensures
        r == trailing_pack(views(args@)),
{
    if args.len() == 0 {
        return None;
    }
    proof {
        lemma_ty_view(args@[args.len() - 1]);
    }
    match &args[args.len() - 1] {
        Ty::Pack(v) => Some(v.0),
        _ => None,
    }
}

fn take_pack(subst: &mut Subst, v: u32, args: &Vec<Ty>, from: usize) -> (r: Result<
    (),
    UnifyError,
>)
    requires
        from <= args.len(),
        !bound(old(subst)@.bindings, v),
    ensures
        pack_taken(
            old(subst)@,
            v,
            views(args@).subrange(from as int, args@.len() as int),
        ) == (final(subst)@, failure(r)),
{
    proof {
        use_type_invariant(&*subst);
        lemma_applied_all_settled(
            subst@,
            views(args@).subrange(from as int, args@.len() as int),
        );
    }
    let rest: Vec<Ty> = dup_tail(args, from);
    let elems: Vec<Ty> = subst.apply_all(&rest);
    if any_links_to(&elems, v) {
        return Err(UnifyError::Occurs(TyVar(v), Ty::PackResolved(elems)));
    }
    subst.bind_pack(v, elems);
    Ok(())
}

fn bind_var(subst: &mut Subst, v: u32, ty: Ty) -> (r: Result<(), UnifyError>)
    requires
        !bound(old(subst)@.bindings, v),
        settled(old(subst)@.bindings, ty@),
    ensures
        (if mentions(ty@, v) {
            (old(subst)@, Some(UnifyErrorV::Occurs(v, ty@)))
        } else {
            (bind(old(subst)@, v, ty@), None)
        }) == (final(subst)@, failure(r)),
{
    if occurs_in(&ty, v) {
        return Err(UnifyError::Occurs(TyVar(v), ty));
    }
    proof {
        lemma_links_mentioned(ty@, v);
    }
    subst.bind(v, ty);
    Ok(())
}

fn unify_first(
    subst: &mut Subst,
    xs: &Vec<Ty>,
    ys: &Vec<Ty>,
    n: usize,
    Ghost(r): Ghost<nat>,
    Ghost(w): Ghost<nat>,
) -> (out: Result<(), UnifyError>)
    requires
        n <= xs.len(),
        n <= ys.len(),
        fits(r, w, old(subst)@, views(xs@), views(ys@), n as nat),
    ensures
        unified_first(r, w, old(subst)@, views(xs@), views(ys@), 0, n as nat) == (
            final(subst)@,
            failure(out),
        ),
    decreases r, w, 0nat, 0nat,
{
    let mut i: usize = 0;
    while i < n
        invariant
            i <= n,
            n <= xs.len(),
            n <= ys.len(),
            fits(r, w, subst@, views(xs@), views(ys@), n as nat),
            unified_first(r, w, old(subst)@, views(xs@), views(ys@), 0, n as nat)
                == unified_first(r, w, subst@, views(xs@), views(ys@), i as nat, n as nat),
        decreases n - i,
    {
        let ghost before = subst@;
        proof {
            use_type_invariant(&*subst);
            let x = views(xs@)[i as int];
            let y = views(ys@)[i as int];
            assert(fits_part(r, w, subst@, x, y));
            lemma_unified(subst@, x, y);
            assert(unified_part(r, w, subst@, x, y) == unified(subst@, x, y));
        }
        let step = unify(subst, &xs[i], &ys[i]);
        assert(unified_part(r, w, before, views(xs@)[i as int], views(ys@)[i as int]) == (
            subst@,
            failure(step),
        ));
        if step.is_err() {
            return step;
        }
        proof {
            use_type_invariant(&*subst);
            lemma_room(before, subst@);
        }
        i = i + 1;
    }
    Ok(())
}

fn unify_two(
    subst: &mut Subst,
    a1: &Ty,
    b1: &Ty,
    a2: &Ty,
    b2: &Ty,
    Ghost(r): Ghost<nat>,
    Ghost(w): Ghost<nat>,
) -> (out: Result<(), UnifyError>)
    requires
        fits_part(r, w, old(subst)@, a1@, b1@),
        fits_part(r, w, old(subst)@, a2@, b2@),
    ensures
        unified_two(r, w, old(subst)@, a1@, b1@, a2@, b2@) == (final(subst)@, failure(out)),
    decreases r, w, 0nat, 0nat,
{
    proof {
        use_type_invariant(&*subst);
        lemma_unified(subst@, a1@, b1@);
    }
    let first = unify(subst, a1, b1);
    if first.is_err() {
        return first;
    }
    proof {
        use_type_invariant(&*subst);
        lemma_room(old(subst)@, subst@);
    }
    unify(subst, a2, b2)
}

/// Unifies two types.
pub fn unify(subst: &mut Subst, a: &Ty, b: &Ty) -> (r: Result<(), UnifyError>)
    ensures
        unified(old(subst)@, a@, b@) == (final(subst)@, failure(r)),
    decreases room(old(subst)@), weight(old(subst)@, a@, b@), 1nat, 0nat,
{
    let x: Ty = subst.apply(a);
    let y: Ty = subst.apply(b);
    let ghost room0 = room(subst@);
    let ghost weight0 = weight(subst@, a@, b@);
    proof {
        use_type_invariant(&*subst);
        lemma_applied_is_settled(subst@, a@);
        lemma_applied_is_settled(subst@, b@);
        lemma_ty_view(x);
        lemma_ty_view(y);
    }
    if agree_as_they_stand(&x, &y) {
        return Ok(());
    }
    match (&x, &y) {
        (Ty::Var(v), _) => {
            assert(links(x@, v.0));
            return bind_var(subst, v.0, y);
        },
        (_, Ty::Var(v)) => {
            assert(links(y@, v.0));
            return bind_var(subst, v.0, x);
        },
        (Ty::Fn(p1, r1), Ty::Fn(p2, r2)) => {
            if p1.len() == p2.len() {
                proof {
                    lemma_fit_item(subst@, x@, y@, views(p1@), views(p2@), p1@.len());
                    lemma_fit_part(subst@, x@, y@, r1@, r2@);
                    lemma_unified_first(
                        room0,
                        weight0,
                        subst@,
                        views(p1@),
                        views(p2@),
                        0,
                        p1@.len(),
                    );
                }
                let first = unify_first(subst, p1, p2, p1.len(), Ghost(room0), Ghost(weight0));
                if first.is_err() {
                    return first;
                }
                proof {
                    use_type_invariant(&*subst);
                    lemma_room(old(subst)@, subst@);
                }
                return unify(subst, r1, r2);
            }
        },
        (Ty::App(n1, a1), Ty::App(n2, a2)) => {
            if *n1 == *n2 {
                match (last_pack(a1), last_pack(a2)) {
                    (None, None) => {
                        if a1.len() == a2.len() {
                            proof {
                                lemma_fit_item(
                                    subst@,
                                    x@,
                                    y@,
                                    views(a1@),
                                    views(a2@),
                                    a1@.len(),
                                );
                            }
                            return unify_first(
                                subst,
                                a1,
                                a2,
                                a1.len(),
                                Ghost(room0),
                                Ghost(weight0),
                            );
                        }
                    },
                    (Some(v1), Some(v2)) => {
                        if v1 == v2 && a1.len() == a2.len() {
                            let n: usize = a1.len() - 1;
                            proof {
                                lemma_fit_item(
                                    subst@,
                                    x@,
                                    y@,
                                    views(a1@),
                                    views(a2@),
                                    n as nat,
                                );
                            }
                            return unify_first(subst, a1, a2, n, Ghost(room0), Ghost(weight0));
                        }
                    },
                    (Some(v), None) => {
                        let n: usize = a1.len() - 1;
                        if a2.len() >= n {
                            proof {
                                lemma_fit_item(
                                    subst@,
                                    x@,
                                    y@,
                                    views(a1@),
                                    views(a2@),
                                    n as nat,
                                );
                            }
                            proof {
                                lemma_unified_first(
                                    room0,
                                    weight0,
                                    subst@,
                                    views(a1@),
                                    views(a2@),
                                    0,
                                    n as nat,
                                );
                            }
                            let first = unify_first(
                                subst,
                                a1,
                                a2,
                                n,
                                Ghost(room0),
                                Ghost(weight0),
                            );
                            if first.is_err() {
                                return first;
                            }
                            if subst.has(v) {
                                proof {
                                    use_type_invariant(&*subst);
                                    lemma_links_at(
                                        views(a1@),
                                        a1@.len(),
                                        a1@.len() - 1,
                                        v,
                                    );
                                    assert(links(x@, v));
                                    lemma_room(old(subst)@, subst@);
                                }
                                return unify(subst, &x, &y);
                            }
                            return take_pack(subst, v, a2, n);
                        }
                    },
                    (None, Some(v)) => {
                        let n: usize = a2.len() - 1;
                        if a1.len() >= n {
                            proof {
                                lemma_fit_item(
                                    subst@,
                                    x@,
                                    y@,
                                    views(a1@),
                                    views(a2@),
                                    n as nat,
                                );
                            }
                            proof {
                                lemma_unified_first(
                                    room0,
                                    weight0,
                                    subst@,
                                    views(a1@),
                                    views(a2@),
                                    0,
                                    n as nat,
                                );
                            }
                            let first = unify_first(
                                subst,
                                a1,
                                a2,
                                n,
                                Ghost(room0),
                                Ghost(weight0),
                            );
                            if first.is_err() {
                                return first;
                            }
                            if subst.has(v) {
                                proof {
                                    use_type_invariant(&*subst);
                                    lemma_links_at(
                                        views(a2@),
                                        a2@.len(),
                                        a2@.len() - 1,
                                        v,
                                    );
                                    assert(links(y@, v));
                                    lemma_room(old(subst)@, subst@);
                                }
                                return unify(subst, &x, &y);
                            }
                            return take_pack(subst, v, a1, n);
                        }
                    },
                }
            }
        },
        (Ty::Array(e1, s1), Ty::Array(e2, s2)) => {
            proof {
                lemma_fit_part(subst@, x@, y@, e1@, e2@);
                lemma_fit_part(subst@, x@, y@, s1@, s2@);
            }
            return unify_two(subst, e1, e2, s1, s2, Ghost(room0), Ghost(weight0));
        },
        (Ty::ConstExpr(o1, x1, y1), Ty::ConstExpr(o2, x2, y2)) => {
            if *o1 == *o2 {
                proof {
                    lemma_fit_part(subst@, x@, y@, x1@, x2@);
                    lemma_fit_part(subst@, x@, y@, y1@, y2@);
                }
                return unify_two(subst, x1, x2, y1, y2, Ghost(room0), Ghost(weight0));
            }
        },
        _ => {},
    }
    Err(UnifyError::Mismatch(x, y))
}

} // verus!
