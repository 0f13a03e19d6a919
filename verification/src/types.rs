//! The operations on types that need no substitution.

use vstd::prelude::*;

use crate::ty::{group_ty, lemma_ty_view, Ty, TyV};
use crate::const_eval::{binop_value, eval_binop, ConstValue};
use crate::table::{
    ascending, group_views, lemma_with_number, put_number, views, with_number, Dup, Table,
};
use crate::text::{decimal, decimal_text, glued, join, joined, same, starts_with_char};

verus! {

broadcast use {group_views, group_ty};

impl Dup for Ty {
    fn dup(&self) -> (r: Self)
        decreases self,
    {
        proof {
            lemma_ty_view(*self);
        }
        match self {
            Ty::Var(v) => Ty::Var(*v),
            Ty::Pack(v) => Ty::Pack(*v),
            Ty::PackResolved(elems) => Ty::PackResolved(dup_tys(elems)),
            Ty::PackLen(v) => Ty::PackLen(*v),
            Ty::Con(name) => Ty::Con(name.clone()),
            Ty::App(name, args) => Ty::App(name.clone(), dup_tys(args)),
            Ty::Fn(params, ret) => Ty::Fn(dup_tys(params), Box::new((**ret).dup())),
            Ty::Array(elem, size) => Ty::Array(Box::new((**elem).dup()), Box::new((**size).dup())),
            Ty::Const(c) => Ty::Const(*c),
            Ty::ConstExpr(op, a, b) => Ty::ConstExpr(
                op.clone(),
                Box::new((**a).dup()),
                Box::new((**b).dup()),
            ),
        }
    }
}

impl Clone for Ty {
    fn clone(&self) -> (r: Self)
        ensures
            r@ == self@,
    {
        self.dup()
    }
}

/// A list of types with the same views.
pub fn dup_tys(tys: &Vec<Ty>) -> (r: Vec<Ty>)
    ensures
        views(r@) == views(tys@),
        r.len() == tys.len(),
    decreases tys,
{
    let mut out: Vec<Ty> = Vec::new();
    let mut i: usize = 0;
    while i < tys.len()
        invariant
            i <= tys.len(),
            out.len() == i,
            forall|j: int| 0 <= j < i ==> (#[trigger] out@[j])@ == tys@[j]@,
        decreases tys.len() - i,
    {
        out.push(tys[i].dup());
        i = i + 1;
    }
    assert(views(out@) =~= views(tys@));
    out
}

/// Whether the two types are the same.
pub fn same_ty(a: &Ty, b: &Ty) -> (r: bool)
    ensures
        r == (a@ == b@),
    decreases a,
{
    proof {
        lemma_ty_view(*a);
        lemma_ty_view(*b);
    }
    match (a, b) {
        (Ty::Var(x), Ty::Var(y)) => x.0 == y.0,
        (Ty::Pack(x), Ty::Pack(y)) => x.0 == y.0,
        (Ty::PackResolved(x), Ty::PackResolved(y)) => same_tys(x, y),
        (Ty::PackLen(x), Ty::PackLen(y)) => x.0 == y.0,
        (Ty::Con(x), Ty::Con(y)) => *x == *y,
        (Ty::App(n, x), Ty::App(m, y)) => *n == *m && same_tys(x, y),
        (Ty::Fn(p, x), Ty::Fn(q, y)) => same_tys(p, q) && same_ty(x, y),
        (Ty::Array(e, x), Ty::Array(f, y)) => same_ty(e, f) && same_ty(x, y),
        (Ty::Const(x), Ty::Const(y)) => *x == *y,
        (Ty::ConstExpr(o, x1, x2), Ty::ConstExpr(p, y1, y2)) => *o == *p && same_ty(x1, y1)
            && same_ty(x2, y2),
        _ => false,
    }
}

/// Whether the two lists hold the same types.
pub fn same_tys(a: &Vec<Ty>, b: &Vec<Ty>) -> (r: bool)
    ensures
        r == (views(a@) == views(b@)),
    decreases a,
{
    if a.len() != b.len() {
        assert(views(a@).len() != views(b@).len());
        return false;
    }
    let mut i: usize = 0;
    while i < a.len()
        invariant
            i <= a.len(),
            a.len() == b.len(),
            forall|j: int| 0 <= j < i ==> (#[trigger] a@[j])@ == b@[j]@,
        decreases a.len() - i,
    {
        if !same_ty(&a[i], &b[i]) {
            assert(views(a@)[i as int] != views(b@)[i as int]);
            return false;
        }
        i = i + 1;
    }
    assert(views(a@) =~= views(b@));
    true
}

// ---- text ----

/// How a constant is written.
pub open spec fn const_text(c: ConstValue) -> Seq<char> {
    match c {
        ConstValue::Int(n) => decimal(n as nat),
        ConstValue::Bool(b) => if b {
            "true"@
        } else {
            "false"@
        },
    }
}

/// How a type is written.
pub open spec fn ty_text(t: TyV) -> Seq<char>
    decreases t,
{
    match t {
        TyV::Con(name) => name,
        TyV::Var(v) => "'t"@ + decimal(v as nat),
        TyV::Pack(v) => "'t"@ + decimal(v as nat) + "..."@,
        TyV::PackResolved(elems) => joined(ty_texts(elems), ", "@),
        TyV::PackLen(v) => "'t"@ + decimal(v as nat) + "...len()"@,
        TyV::App(name, args) => name + "<"@ + joined(ty_texts(args), ", "@) + ">"@,
        TyV::Fn(params, ret) => "("@ + joined(ty_texts(params), ", "@) + ") -> "@ + ty_text(*ret),
        TyV::Array(elem, size) => "["@ + ty_text(*elem) + "; "@ + ty_text(*size) + "]"@,
        TyV::Const(c) => const_text(c),
        TyV::ConstExpr(op, a, b) => op + "("@ + ty_text(*a) + ", "@ + ty_text(*b) + ")"@,
    }
}

/// The texts of a list of types.
pub open spec fn ty_texts(tys: Seq<TyV>) -> Seq<Seq<char>>
    decreases tys,
{
    Seq::new(
        tys.len(),
        |i: int|
            if 0 <= i < tys.len() {
                ty_text(tys[i])
            } else {
                arbitrary()
            },
    )
}

/// The texts of a list of types, with commas between them.
pub open spec fn tys_text(tys: Seq<TyV>) -> Seq<char> {
    joined(ty_texts(tys), ", "@)
}

impl ConstValue {
    /// How the constant is written.
    pub fn to_text(&self) -> (r: String)
        ensures
            r@ == const_text(*self),
    {
        match self {
            ConstValue::Int(n) => decimal_text(*n),
            ConstValue::Bool(b) => if *b {
                "true".to_owned()
            } else {
                "false".to_owned()
            },
        }
    }
}

impl Ty {
    /// How the type is written.
    pub fn to_text(&self) -> (r: String)
        ensures
            r@ == ty_text(self@),
        decreases self, 0nat,
    {
        proof {
            lemma_ty_view(*self);
        }
        match self {
            Ty::Con(name) => name.clone(),
            Ty::Var(v) => glued("'t", decimal_text(v.0 as u64).as_str()),
            Ty::Pack(v) => {
                let mut out: String = glued("'t", decimal_text(v.0 as u64).as_str());
                out.append("...");
                out
            },
            Ty::PackResolved(elems) => list_text(elems),
            Ty::PackLen(v) => {
                let mut out: String = glued("'t", decimal_text(v.0 as u64).as_str());
                out.append("...len()");
                out
            },
            Ty::App(name, args) => {
                let mut out: String = name.clone();
                let inner: String = list_text(args);
                out.append("<");
                out.append(inner.as_str());
                out.append(">");
                out
            },
            Ty::Fn(params, ret) => {
                let mut out: String = "(".to_owned();
                let inner: String = list_text(params);
                let result: String = ret.to_text();
                out.append(inner.as_str());
                out.append(") -> ");
                out.append(result.as_str());
                out
            },
            Ty::Array(elem, size) => {
                let mut out: String = "[".to_owned();
                let e: String = elem.to_text();
                let s: String = size.to_text();
                out.append(e.as_str());
                out.append("; ");
                out.append(s.as_str());
                out.append("]");
                out
            },
            Ty::Const(c) => c.to_text(),
            Ty::ConstExpr(op, a, b) => {
                let mut out: String = op.clone();
                let x: String = a.to_text();
                let y: String = b.to_text();
                out.append("(");
                out.append(x.as_str());
                out.append(", ");
                out.append(y.as_str());
                out.append(")");
                out
            },
        }
    }
}

/// The texts of a list of types.
pub fn list_texts(tys: &Vec<Ty>) -> (r: Vec<String>)
    ensures
        views(r@) == ty_texts(views(tys@)),
    decreases tys, 0nat,
{
    let mut parts: Vec<String> = Vec::new();
    let mut i: usize = 0;
    while i < tys.len()
        invariant
            i <= tys.len(),
            parts.len() == i,
            forall|j: int| 0 <= j < i ==> (#[trigger] parts@[j])@ == ty_text(tys@[j]@),
        decreases tys.len() - i,
    {
        parts.push(tys[i].to_text());
        i = i + 1;
    }
    assert(views(parts@) =~= ty_texts(views(tys@)));
    parts
}

/// The texts of a list of types, with commas between them.
pub fn list_text(tys: &Vec<Ty>) -> (r: String)
    ensures
        r@ == tys_text(views(tys@)),
    decreases tys, 1nat,
{
    let parts: Vec<String> = list_texts(tys);
    join(&parts, ", ")
}

// ---- constants ----

/// An operation on two constants: its value where both are known and it has
/// one, else the operation itself.
pub open spec fn folded(op: Seq<char>, a: TyV, b: TyV) -> TyV {
    match (a, b) {
        (TyV::Const(x), TyV::Const(y)) => match binop_value(op, x, y) {
            Some(v) => TyV::Const(v),
            None => TyV::ConstExpr(op, Box::new(a), Box::new(b)),
        },
        _ => TyV::ConstExpr(op, Box::new(a), Box::new(b)),
    }
}

/// Evaluates an operation on two constants where it can.
pub fn fold_const_expr(op: &str, a: Ty, b: Ty) -> (r: Ty)
    ensures
        r@ == folded(op@, a@, b@),
{
    proof {
        lemma_ty_view(a);
        lemma_ty_view(b);
    }
    if let (Ty::Const(x), Ty::Const(y)) = (&a, &b) {
        if let Some(v) = eval_binop(op, *x, *y) {
            return Ty::Const(v);
        }
    }
    Ty::ConstExpr(op.to_owned(), Box::new(a), Box::new(b))
}

// ---- packs in lists and array sizes ----

/// A list with the items of each resolved pack in the pack's place.
pub open spec fn spliced(tys: Seq<TyV>) -> Seq<TyV>
    decreases tys.len(),
{
    if tys.len() == 0 {
        Seq::empty()
    } else {
        match tys.last() {
            TyV::PackResolved(elems) => spliced(tys.drop_last()) + elems,
            other => spliced(tys.drop_last()).push(other),
        }
    }
}

/// An array of arrays with the sizes `dims`, the first one outermost.
pub open spec fn nested(elem: TyV, dims: Seq<TyV>) -> TyV
    decreases dims.len(),
{
    if dims.len() == 0 {
        elem
    } else {
        TyV::Array(
            Box::new(nested(elem, dims.subrange(1, dims.len() as int))),
            Box::new(dims[0]),
        )
    }
}

/// An array type whose size may be a resolved pack of sizes.
pub open spec fn array_with(elem: TyV, size: TyV) -> TyV {
    match size {
        TyV::PackResolved(dims) => nested(elem, dims),
        _ => TyV::Array(Box::new(elem), Box::new(size)),
    }
}

/// Puts the items of each resolved pack in the pack's place.
pub fn splice_packs(tys: &Vec<Ty>) -> (r: Vec<Ty>)
    ensures
        views(r@) == spliced(views(tys@)),
{
    let mut out: Vec<Ty> = Vec::new();
    let mut i: usize = 0;
    let ghost all = views(tys@);
    while i < tys.len()
        invariant
            i <= tys.len(),
            all == views(tys@),
            views(out@) == spliced(all.subrange(0, i as int)),
        decreases tys.len() - i,
    {
        proof {
            lemma_ty_view(tys@[i as int]);
            let upto = all.subrange(0, i + 1);
            assert(upto.drop_last() =~= all.subrange(0, i as int));
            assert(upto.last() == tys@[i as int]@);
        }
        match &tys[i] {
            Ty::PackResolved(elems) => {
                let mut more: Vec<Ty> = dup_tys(elems);
                out.append(&mut more);
            },
            other => {
                out.push(other.dup());
            },
        }
        i = i + 1;
    }
    assert(all.subrange(0, i as int) =~= all);
    out
}

/// An array of arrays with the sizes `dims`, the first one outermost.
pub fn nest_array(elem: Ty, dims: &Vec<Ty>) -> (r: Ty)
    ensures
        r@ == nested(elem@, views(dims@)),
{
    let mut i: usize = dims.len();
    let ghost first = elem@;
    let ghost all = views(dims@);
    let mut acc: Ty = elem;
    while i > 0
        invariant
            i <= dims.len(),
            all == views(dims@),
            acc@ == nested(first, all.subrange(i as int, all.len() as int)),
        decreases i,
    {
        proof {
            let from = all.subrange(i - 1, all.len() as int);
            assert(from.subrange(1, from.len() as int) =~= all.subrange(
                i as int,
                all.len() as int,
            ));
            assert(from[0] == dims@[i - 1]@);
        }
        i = i - 1;
        acc = Ty::Array(Box::new(acc), Box::new(dims[i].dup()));
    }
    assert(all.subrange(0, all.len() as int) =~= all);
    acc
}

/// An array type whose size may be a resolved pack of sizes.
pub fn sized_array(elem: Ty, size: Ty) -> (r: Ty)
    ensures
        r@ == array_with(elem@, size@),
{
    proof {
        lemma_ty_view(size);
    }
    match &size {
        Ty::PackResolved(dims) => nest_array(elem, dims),
        _ => Ty::Array(Box::new(elem), Box::new(size)),
    }
}

// ---- free variables ----

/// The variables of a type put into an ascending list.
pub open spec fn with_free(t: TyV, out: Seq<u32>) -> Seq<u32>
    decreases t, 0nat,
{
    match t {
        TyV::Var(v) => with_number(out, v),
        TyV::Pack(v) => with_number(out, v),
        TyV::PackResolved(elems) => with_free_first(elems, elems.len(), out),
        TyV::PackLen(v) => with_number(out, v),
        TyV::Con(_) => out,
        TyV::Const(_) => out,
        TyV::App(_, args) => with_free_first(args, args.len(), out),
        TyV::Fn(params, ret) => with_free(*ret, with_free_first(params, params.len(), out)),
        TyV::Array(elem, size) => with_free(*size, with_free(*elem, out)),
        TyV::ConstExpr(_, a, b) => with_free(*b, with_free(*a, out)),
    }
}

/// The variables of the first `n` types put into an ascending list.
pub open spec fn with_free_first(tys: Seq<TyV>, n: nat, out: Seq<u32>) -> Seq<u32>
    decreases tys, n,
{
    if n == 0 || n > tys.len() {
        out
    } else {
        with_free(tys[n - 1], with_free_first(tys, (n - 1) as nat, out))
    }
}

/// The variables of a list of types, ascending.
pub open spec fn free_of(tys: Seq<TyV>) -> Seq<u32> {
    with_free_first(tys, tys.len(), Seq::empty())
}

/// Whether the variable stands anywhere in the type.
pub open spec fn mentions(t: TyV, v: u32) -> bool
    decreases t, 0nat,
{
    match t {
        TyV::Var(w) => v == w,
        TyV::Pack(w) => v == w,
        TyV::PackResolved(elems) => mentions_first(elems, elems.len(), v),
        TyV::PackLen(w) => v == w,
        TyV::Con(_) => false,
        TyV::Const(_) => false,
        TyV::App(_, args) => mentions_first(args, args.len(), v),
        TyV::Fn(params, ret) => mentions_first(params, params.len(), v) || mentions(*ret, v),
        TyV::Array(elem, size) => mentions(*elem, v) || mentions(*size, v),
        TyV::ConstExpr(_, a, b) => mentions(*a, v) || mentions(*b, v),
    }
}

/// Whether the variable stands in one of the first `n` types.
pub open spec fn mentions_first(tys: Seq<TyV>, n: nat, v: u32) -> bool
    decreases tys, n,
{
    0 < n && n <= tys.len() && (mentions(tys[n - 1], v) || mentions_first(
        tys,
        (n - 1) as nat,
        v,
    ))
}

/// Puts the variables of a type into an ascending list.
pub fn free_vars(ty: &Ty, out: &mut Vec<u32>)
    ensures
        final(out)@ == with_free(ty@, old(out)@),
    decreases ty,
{
    proof {
        lemma_ty_view(*ty);
    }
    match ty {
        Ty::Var(v) => put_number(out, v.0),
        Ty::Pack(v) => put_number(out, v.0),
        Ty::PackResolved(elems) => free_vars_all(elems, out),
        Ty::PackLen(v) => put_number(out, v.0),
        Ty::Con(_) | Ty::Const(_) => {},
        Ty::App(_, args) => free_vars_all(args, out),
        Ty::Fn(params, ret) => {
            free_vars_all(params, out);
            free_vars(ret, out);
        },
        Ty::Array(elem, size) => {
            free_vars(elem, out);
            free_vars(size, out);
        },
        Ty::ConstExpr(_, a, b) => {
            free_vars(a, out);
            free_vars(b, out);
        },
    }
}

/// Puts the variables of each type of a list into an ascending list.
pub fn free_vars_all(tys: &Vec<Ty>, out: &mut Vec<u32>)
    ensures
        final(out)@ == with_free_first(views(tys@), tys@.len(), old(out)@),
    decreases tys,
{
    let mut i: usize = 0;
    while i < tys.len()
        invariant
            i <= tys.len(),
            out@ == with_free_first(views(tys@), i as nat, old(out)@),
        decreases tys.len() - i,
    {
        free_vars(&tys[i], out);
        i = i + 1;
    }
}

/// What [`free_vars`] puts in is each variable that the type mentions, and no
/// other; the list stays ascending.
pub proof fn lemma_free_vars(t: TyV, out: Seq<u32>)
    ensures
        forall|x: u32| #[trigger]
            with_free(t, out).contains(x) <==> out.contains(x) || mentions(t, x),
        ascending(out) ==> ascending(with_free(t, out)),
    decreases t, 0nat,
{
    match t {
        TyV::Var(v) => lemma_with_number(out, v),
        TyV::Pack(v) => lemma_with_number(out, v),
        TyV::PackLen(v) => lemma_with_number(out, v),
        TyV::PackResolved(elems) => {
            lemma_free_vars_first(elems, elems.len(), out);
            assert(with_free(t, out) == with_free_first(elems, elems.len(), out));
        },
        TyV::App(_, args) => {
            lemma_free_vars_first(args, args.len(), out);
            assert(with_free(t, out) == with_free_first(args, args.len(), out));
        },
        TyV::Fn(params, ret) => {
            let inner = with_free_first(params, params.len(), out);
            lemma_free_vars_first(params, params.len(), out);
            lemma_free_vars(*ret, inner);
            assert(with_free(t, out) == with_free(*ret, inner));
            assert forall|x: u32| #[trigger]
                with_free(t, out).contains(x) <==> out.contains(x) || mentions(t, x) by {
                assert(with_free(*ret, inner).contains(x) <==> inner.contains(x) || mentions(
                    *ret,
                    x,
                ));
            }
        },
        TyV::Array(elem, size) => {
            lemma_free_vars(*elem, out);
            lemma_free_vars(*size, with_free(*elem, out));
            let inner = with_free(*elem, out);
            assert(with_free(t, out) == with_free(*size, inner));
            assert forall|x: u32| #[trigger]
                with_free(t, out).contains(x) <==> out.contains(x) || mentions(t, x) by {
                assert(inner.contains(x) <==> out.contains(x) || mentions(*elem, x));
                assert(with_free(*size, inner).contains(x) <==> inner.contains(x) || mentions(
                    *size,
                    x,
                ));
            }
        },
        TyV::ConstExpr(_, a, b) => {
            lemma_free_vars(*a, out);
            lemma_free_vars(*b, with_free(*a, out));
            let inner = with_free(*a, out);
            assert(with_free(t, out) == with_free(*b, inner));
            assert forall|x: u32| #[trigger]
                with_free(t, out).contains(x) <==> out.contains(x) || mentions(t, x) by {
                assert(inner.contains(x) <==> out.contains(x) || mentions(*a, x));
                assert(with_free(*b, inner).contains(x) <==> inner.contains(x) || mentions(*b, x));
            }
        },
        _ => {},
    }
}

proof fn lemma_free_vars_first(tys: Seq<TyV>, n: nat, out: Seq<u32>)
    requires
        n <= tys.len(),
    ensures
        forall|x: u32| #[trigger]
            with_free_first(tys, n, out).contains(x) <==> out.contains(x) || mentions_first(
                tys,
                n,
                x,
            ),
        ascending(out) ==> ascending(with_free_first(tys, n, out)),
    decreases tys, n,
{
    if n > 0 {
        let before = with_free_first(tys, (n - 1) as nat, out);
        lemma_free_vars_first(tys, (n - 1) as nat, out);
        lemma_free_vars(tys[n - 1], before);
        assert(with_free_first(tys, n, out) == with_free(tys[n - 1], before));
        assert forall|x: u32| #[trigger]
            with_free_first(tys, n, out).contains(x) <==> out.contains(x) || mentions_first(
                tys,
                n,
                x,
            ) by {
            assert(with_free(tys[n - 1], before).contains(x) <==> before.contains(x) || mentions(
                tys[n - 1],
                x,
            ));
        }
    }
}

// ---- renaming ----

/// The length of the pack that `m` gives for `v`, directly or through one more
/// variable.
pub open spec fn mapped_pack_len(m: Map<u32, TyV>, v: u32) -> Option<nat> {
    if !m.contains_key(v) {
        None
    } else {
        match m[v] {
            TyV::PackResolved(elems) => Some(elems.len()),
            TyV::Var(w) => direct_pack_len(m, w),
            TyV::Pack(w) => direct_pack_len(m, w),
            _ => None,
        }
    }
}

pub open spec fn direct_pack_len(m: Map<u32, TyV>, v: u32) -> Option<nat> {
    if !m.contains_key(v) {
        None
    } else {
        match m[v] {
            TyV::PackResolved(elems) => Some(elems.len()),
            _ => None,
        }
    }
}

/// A type with each variable replaced by what `m` gives for it.
pub open spec fn substituted(t: TyV, m: Map<u32, TyV>) -> TyV
    decreases t,
{
    match t {
        TyV::Var(v) => if m.contains_key(v) {
            m[v]
        } else {
            t
        },
        TyV::Pack(v) => if m.contains_key(v) {
            m[v]
        } else {
            t
        },
        TyV::PackResolved(elems) => TyV::PackResolved(substituted_all(elems, m)),
        TyV::PackLen(v) => match mapped_pack_len(m, v) {
            Some(n) => TyV::Const(ConstValue::Int(n as u64)),
            None => t,
        },
        TyV::Con(_) => t,
        TyV::Const(_) => t,
        TyV::App(name, args) => TyV::App(name, spliced(substituted_all(args, m))),
        TyV::Fn(params, ret) => TyV::Fn(
            substituted_all(params, m),
            Box::new(substituted(*ret, m)),
        ),
        TyV::Array(elem, size) => array_with(substituted(*elem, m), substituted(*size, m)),
        TyV::ConstExpr(op, a, b) => folded(op, substituted(*a, m), substituted(*b, m)),
    }
}

pub open spec fn substituted_all(tys: Seq<TyV>, m: Map<u32, TyV>) -> Seq<TyV>
    decreases tys,
{
    Seq::new(
        tys.len(),
        |i: int|
            if 0 <= i < tys.len() {
                substituted(tys[i], m)
            } else {
                arbitrary()
            },
    )
}

fn pack_len_of(ty: &Ty) -> (r: Option<u64>)
    ensures
        r == (match ty@ {
            TyV::PackResolved(elems) => Some(elems.len() as u64),
            _ => None,
        }),
{
    proof {
        lemma_ty_view(*ty);
    }
    match ty {
        Ty::PackResolved(elems) => Some(elems.len() as u64),
        _ => None,
    }
}

/// Replaces each variable of a type by what the table gives for it.
pub fn substitute(ty: &Ty, mapping: &Table<u32, Ty>) -> (r: Ty)
    ensures
        r@ == substituted(ty@, mapping@),
    decreases ty,
{
    proof {
        lemma_ty_view(*ty);
    }
    match ty {
        Ty::Var(v) | Ty::Pack(v) => match mapping.get(&v.0) {
            Some(t) => t.dup(),
            None => ty.dup(),
        },
        Ty::PackResolved(elems) => Ty::PackResolved(substitute_all(elems, mapping)),
        Ty::PackLen(v) => {
            let found: Option<u64> = match mapping.get(&v.0) {
                None => None,
                Some(t) => {
                    proof {
                        lemma_ty_view(*t);
                    }
                    match t {
                        Ty::Var(w) | Ty::Pack(w) => match mapping.get(&w.0) {
                            Some(u) => pack_len_of(u),
                            None => None,
                        },
                        _ => pack_len_of(t),
                    }
                },
            };
            match found {
                Some(n) => Ty::Const(ConstValue::Int(n)),
                None => ty.dup(),
            }
        },
        Ty::Con(_) | Ty::Const(_) => ty.dup(),
        Ty::App(name, args) => {
            let parts: Vec<Ty> = substitute_all(args, mapping);
            Ty::App(name.clone(), splice_packs(&parts))
        },
        Ty::Fn(params, ret) => Ty::Fn(
            substitute_all(params, mapping),
            Box::new(substitute(ret, mapping)),
        ),
        Ty::Array(elem, size) => sized_array(substitute(elem, mapping), substitute(size, mapping)),
        Ty::ConstExpr(op, a, b) => fold_const_expr(
            op.as_str(),
            substitute(a, mapping),
            substitute(b, mapping),
        ),
    }
}

/// Replaces the variables of each type of a list.
pub fn substitute_all(tys: &Vec<Ty>, mapping: &Table<u32, Ty>) -> (r: Vec<Ty>)
    ensures
        views(r@) == substituted_all(views(tys@), mapping@),
    decreases tys,
{
    let mut out: Vec<Ty> = Vec::new();
    let mut i: usize = 0;
    while i < tys.len()
        invariant
            i <= tys.len(),
            out.len() == i,
            forall|j: int| 0 <= j < i ==> (#[trigger] out@[j])@ == substituted(tys@[j]@, mapping@),
        decreases tys.len() - i,
    {
        out.push(substitute(&tys[i], mapping));
        i = i + 1;
    }
    assert(views(out@) =~= substituted_all(views(tys@), mapping@));
    out
}

// ---- kinds of types ----

/// Whether a name stands for a type that is not known.
pub open spec fn placeholder_name(name: Seq<char>) -> bool {
    name.len() > 0 && name[0] == '<'
}

/// Whether a type stands for one that is not known.
pub open spec fn placeholder(t: TyV) -> bool {
    t matches TyV::Con(name) && placeholder_name(name)
}

/// Whether a type holds no variable.
pub open spec fn concrete(t: TyV) -> bool
    decreases t, 0nat,
{
    match t {
        TyV::Var(_) => false,
        TyV::Pack(_) => false,
        TyV::PackResolved(elems) => concrete_first(elems, elems.len()),
        TyV::PackLen(_) => false,
        TyV::Con(_) => true,
        TyV::Const(_) => true,
        TyV::App(_, args) => concrete_first(args, args.len()),
        TyV::Fn(params, ret) => concrete_first(params, params.len()) && concrete(*ret),
        TyV::Array(elem, size) => concrete(*elem) && concrete(*size),
        TyV::ConstExpr(_, a, b) => concrete(*a) && concrete(*b),
    }
}

/// Whether the first `n` types hold no variable.
pub open spec fn concrete_first(tys: Seq<TyV>, n: nat) -> bool
    decreases tys, n,
{
    n == 0 || n > tys.len() || (concrete(tys[n - 1]) && concrete_first(tys, (n - 1) as nat))
}

/// Whether every type of the list holds no variable.
pub open spec fn all_concrete(tys: Seq<TyV>) -> bool {
    concrete_first(tys, tys.len())
}

/// The name of the first placeholder in a type.
pub open spec fn placeholder_in(t: TyV) -> Option<Seq<char>>
    decreases t, 0nat,
{
    match t {
        TyV::Con(name) => if placeholder_name(name) {
            Some(name)
        } else {
            None
        },
        TyV::PackResolved(elems) => placeholder_from(elems, 0),
        TyV::App(_, args) => placeholder_from(args, 0),
        TyV::Fn(params, ret) => match placeholder_from(params, 0) {
            Some(name) => Some(name),
            None => placeholder_in(*ret),
        },
        TyV::Array(elem, size) => match placeholder_in(*elem) {
            Some(name) => Some(name),
            None => placeholder_in(*size),
        },
        TyV::ConstExpr(_, a, b) => match placeholder_in(*a) {
            Some(name) => Some(name),
            None => placeholder_in(*b),
        },
        _ => None,
    }
}

/// The name of the first placeholder in a list, from the `i`th type on.
pub open spec fn placeholder_from(tys: Seq<TyV>, i: nat) -> Option<Seq<char>>
    decreases tys, tys.len() - i,
{
    if i >= tys.len() {
        None
    } else {
        match placeholder_in(tys[i as int]) {
            Some(name) => Some(name),
            None => placeholder_from(tys, i + 1),
        }
    }
}

/// The view of a name that may be missing.
pub open spec fn name_view(name: Option<String>) -> Option<Seq<char>> {
    match name {
        Some(n) => Some(n@),
        None => None,
    }
}

pub fn is_unit(ty: &Ty) -> (r: bool)
    ensures
        r == (ty@ == TyV::Con("()"@)),
{
    proof {
        lemma_ty_view(*ty);
    }
    match ty {
        Ty::Con(name) => same(name.as_str(), "()"),
        _ => false,
    }
}

pub fn is_placeholder(ty: &Ty) -> (r: bool)
    ensures
        r == placeholder(ty@),
{
    proof {
        lemma_ty_view(*ty);
    }
    match ty {
        Ty::Con(name) => starts_with_char(name.as_str(), '<'),
        _ => false,
    }
}

pub fn is_var(ty: &Ty) -> (r: bool)
    ensures
        r == (ty@ is Var),
{
    proof {
        lemma_ty_view(*ty);
    }
    match ty {
        Ty::Var(_) => true,
        _ => false,
    }
}

/// Whether a type holds no variable.
pub fn is_fully_concrete(ty: &Ty) -> (r: bool)
    ensures
        r == concrete(ty@),
    decreases ty,
{
    proof {
        lemma_ty_view(*ty);
    }
    match ty {
        Ty::Var(_) | Ty::Pack(_) | Ty::PackLen(_) => false,
        Ty::PackResolved(elems) => are_fully_concrete(elems),
        Ty::Con(_) | Ty::Const(_) => true,
        Ty::App(_, args) => are_fully_concrete(args),
        Ty::Fn(params, ret) => are_fully_concrete(params) && is_fully_concrete(ret),
        Ty::Array(elem, size) => is_fully_concrete(elem) && is_fully_concrete(size),
        Ty::ConstExpr(_, a, b) => is_fully_concrete(a) && is_fully_concrete(b),
    }
}

/// Whether no type of the list holds a variable.
pub fn are_fully_concrete(tys: &Vec<Ty>) -> (r: bool)
    ensures
        r == all_concrete(views(tys@)),
    decreases tys,
{
    let mut i: usize = tys.len();
    while i > 0
        invariant
            i <= tys.len(),
            all_concrete(views(tys@)) == concrete_first(views(tys@), i as nat),
        decreases i,
    {
        if !is_fully_concrete(&tys[i - 1]) {
            return false;
        }
        i = i - 1;
    }
    true
}

/// A type holds no variable exactly if it mentions none.
pub proof fn lemma_concrete_mentions_nothing(t: TyV)
    ensures
        concrete(t) <==> forall|v: u32| !#[trigger] mentions(t, v),
{
    lemma_concrete(t);
    if !concrete(t) {
        assert(mentions(t, some_var(t)));
    }
}

/// A variable that the type mentions, if it mentions any.
spec fn some_var(t: TyV) -> u32 {
    choose|v: u32| #[trigger] mentions(t, v)
}

spec fn some_var_first(tys: Seq<TyV>, n: nat) -> u32 {
    choose|v: u32| #[trigger] mentions_first(tys, n, v)
}

proof fn lemma_concrete(t: TyV)
    ensures
        concrete(t) ==> forall|v: u32| !#[trigger] mentions(t, v),
        !concrete(t) ==> mentions(t, some_var(t)),
    decreases t, 0nat,
{
    if concrete(t) {
        assert forall|v: u32| !#[trigger] mentions(t, v) by {
            match t {
                TyV::PackResolved(elems) => {
                    lemma_concrete_first(elems, elems.len());
                    assert(!mentions_first(elems, elems.len(), v));
                },
                TyV::App(_, args) => {
                    lemma_concrete_first(args, args.len());
                    assert(!mentions_first(args, args.len(), v));
                },
                TyV::Fn(params, ret) => {
                    lemma_concrete_first(params, params.len());
                    lemma_concrete(*ret);
                    assert(!mentions_first(params, params.len(), v));
                    assert(!mentions(*ret, v));
                },
                TyV::Array(elem, size) => {
                    lemma_concrete(*elem);
                    lemma_concrete(*size);
                    assert(!mentions(*elem, v) && !mentions(*size, v));
                },
                TyV::ConstExpr(_, a, b) => {
                    lemma_concrete(*a);
                    lemma_concrete(*b);
                    assert(!mentions(*a, v) && !mentions(*b, v));
                },
                _ => {},
            }
        }
    } else {
        let v: u32 = match t {
            TyV::Var(v) => v,
            TyV::Pack(v) => v,
            TyV::PackLen(v) => v,
            TyV::PackResolved(elems) => {
                lemma_concrete_first(elems, elems.len());
                some_var_first(elems, elems.len())
            },
            TyV::App(_, args) => {
                lemma_concrete_first(args, args.len());
                some_var_first(args, args.len())
            },
            TyV::Fn(params, ret) => {
                lemma_concrete_first(params, params.len());
                lemma_concrete(*ret);
                if concrete(*ret) {
                    some_var_first(params, params.len())
                } else {
                    some_var(*ret)
                }
            },
            TyV::Array(elem, size) => {
                lemma_concrete(*elem);
                lemma_concrete(*size);
                if concrete(*elem) {
                    some_var(*size)
                } else {
                    some_var(*elem)
                }
            },
            TyV::ConstExpr(_, a, b) => {
                lemma_concrete(*a);
                lemma_concrete(*b);
                if concrete(*a) {
                    some_var(*b)
                } else {
                    some_var(*a)
                }
            },
            _ => 0,
        };
        assert(mentions(t, v));
    }
}

proof fn lemma_concrete_first(tys: Seq<TyV>, n: nat)
    requires
        n <= tys.len(),
    ensures
        concrete_first(tys, n) ==> forall|v: u32| !#[trigger] mentions_first(tys, n, v),
        !concrete_first(tys, n) ==> mentions_first(tys, n, some_var_first(tys, n)),
    decreases tys, n,
{
    if n > 0 {
        lemma_concrete(tys[n - 1]);
        lemma_concrete_first(tys, (n - 1) as nat);
        if concrete_first(tys, n) {
            assert forall|v: u32| !#[trigger] mentions_first(tys, n, v) by {
                assert(!mentions(tys[n - 1], v));
                assert(!mentions_first(tys, (n - 1) as nat, v));
            }
        } else if !concrete(tys[n - 1]) {
            assert(mentions_first(tys, n, some_var(tys[n - 1])));
        } else {
            assert(mentions_first(tys, n, some_var_first(tys, (n - 1) as nat)));
        }
    }
}

/// The name of the first placeholder in a type.
pub fn find_placeholder_name(ty: &Ty) -> (r: Option<String>)
    ensures
        name_view(r) == placeholder_in(ty@),
    decreases ty,
{
    proof {
        lemma_ty_view(*ty);
    }
    match ty {
        Ty::Con(name) => if starts_with_char(name.as_str(), '<') {
            Some(name.clone())
        } else {
            None
        },
        Ty::Var(_) | Ty::Const(_) | Ty::Pack(_) | Ty::PackLen(_) => None,
        Ty::PackResolved(elems) => find_placeholder_in_list(elems),
        Ty::App(_, args) => find_placeholder_in_list(args),
        Ty::Fn(params, ret) => match find_placeholder_in_list(params) {
            Some(name) => Some(name),
            None => find_placeholder_name(ret),
        },
        Ty::Array(elem, size) => match find_placeholder_name(elem) {
            Some(name) => Some(name),
            None => find_placeholder_name(size),
        },
        Ty::ConstExpr(_, a, b) => match find_placeholder_name(a) {
            Some(name) => Some(name),
            None => find_placeholder_name(b),
        },
    }
}

/// The name of the first placeholder in a list of types.
pub fn find_placeholder_in_list(tys: &Vec<Ty>) -> (r: Option<String>)
    ensures
        name_view(r) == placeholder_from(views(tys@), 0),
    decreases tys,
{
    let mut i: usize = 0;
    while i < tys.len()
        invariant
            i <= tys.len(),
            placeholder_from(views(tys@), 0) == placeholder_from(views(tys@), i as nat),
        decreases tys.len() - i,
    {
        let found = find_placeholder_name(&tys[i]);
        if found.is_some() {
            return found;
        }
        i = i + 1;
    }
    None
}

} // verus!
