//! Substitutions: what is known so far of each type variable.

use vstd::prelude::*;

use crate::const_eval::ConstValue;
use crate::subst_laws::{lemma_triangular_push, settled};
use crate::table::{group_views, views, Dup, Table};
use crate::ty::{group_ty, lemma_ty_view, Ty, TyV};
use crate::types::{array_with, fold_const_expr, folded, sized_array, splice_packs, spliced};

verus! {

broadcast use {group_views, group_ty};

/// What is known of type variables. The bindings stand in the order in which
/// they were made; a binding may speak of variables that are bound after it.
#[verifier::ext_equal]
pub struct SubstV {
    pub bindings: Seq<(u32, TyV)>,
    /// The integer type that a constant variable has when it is used as a value.
    pub widths: Map<u32, TyV>,
}

/// The place of the first binding of `v` from the `k`th on.
pub open spec fn bound_at(b: Seq<(u32, TyV)>, k: nat, v: u32) -> Option<nat>
    decreases b.len() - k,
{
    if k >= b.len() {
        None
    } else if b[k as int].0 == v {
        Some(k)
    } else {
        bound_at(b, k + 1, v)
    }
}

/// Whether `v` is bound.
pub open spec fn bound(b: Seq<(u32, TyV)>, v: u32) -> bool {
    bound_at(b, 0, v) is Some
}

pub proof fn lemma_bound_at(b: Seq<(u32, TyV)>, k: nat, v: u32)
    ensures
        match bound_at(b, k, v) {
            Some(i) => k <= i < b.len() && b[i as int].0 == v && forall|j: int|
                k <= j < i ==> (#[trigger] b[j]).0 != v,
            None => forall|j: int| k <= j < b.len() ==> (#[trigger] b[j]).0 != v,
        },
    decreases b.len() - k,
{
    if k < b.len() && b[k as int].0 != v {
        lemma_bound_at(b, k + 1, v);
    }
}

/// The length of the pack that the bindings from the `k`th on give for `v`.
pub open spec fn known_pack_len(b: Seq<(u32, TyV)>, k: nat, v: u32) -> Option<nat>
    decreases b.len() - k,
{
    proof {
        lemma_bound_at(b, k, v);
    }
    match bound_at(b, k, v) {
        None => None,
        Some(i) => match b[i as int].1 {
            TyV::PackResolved(elems) => Some(elems.len()),
            TyV::Var(w) => known_pack_len(b, i + 1, w),
            TyV::Pack(w) => known_pack_len(b, i + 1, w),
            _ => None,
        },
    }
}

/// A type with each variable that is bound at the `k`th place or later replaced
/// by what its binding says, itself read with the bindings after it.
pub open spec fn applied_from(b: Seq<(u32, TyV)>, k: nat, t: TyV) -> TyV
    decreases b.len() - k, t,
{
    match t {
        TyV::Var(v) => {
            proof {
                lemma_bound_at(b, k, v);
            }
            match bound_at(b, k, v) {
                Some(i) => applied_from(b, i + 1, b[i as int].1),
                None => t,
            }
        },
        TyV::Pack(v) => {
            proof {
                lemma_bound_at(b, k, v);
            }
            match bound_at(b, k, v) {
                Some(i) => applied_from(b, i + 1, b[i as int].1),
                None => t,
            }
        },
        TyV::PackResolved(elems) => TyV::PackResolved(applied_all_from(b, k, elems)),
        TyV::PackLen(v) => match known_pack_len(b, 0, v) {
            Some(n) => TyV::Const(ConstValue::Int(n as u64)),
            None => t,
        },
        TyV::Con(_) => t,
        TyV::Const(_) => t,
        TyV::App(name, args) => TyV::App(name, spliced(applied_all_from(b, k, args))),
        TyV::Fn(params, ret) => TyV::Fn(
            applied_all_from(b, k, params),
            Box::new(applied_from(b, k, *ret)),
        ),
        TyV::Array(elem, size) => array_with(
            applied_from(b, k, *elem),
            applied_from(b, k, *size),
        ),
        TyV::ConstExpr(op, x, y) => folded(op, applied_from(b, k, *x), applied_from(b, k, *y)),
    }
}

pub open spec fn applied_all_from(b: Seq<(u32, TyV)>, k: nat, tys: Seq<TyV>) -> Seq<TyV>
    decreases b.len() - k, tys,
{
    Seq::new(
        tys.len(),
        |i: int|
            if 0 <= i < tys.len() {
                applied_from(b, k, tys[i])
            } else {
                arbitrary()
            },
    )
}

/// A type with each bound variable replaced.
pub open spec fn applied(s: SubstV, t: TyV) -> TyV {
    applied_from(s.bindings, 0, t)
}

/// Each type of a list with each bound variable replaced.
pub open spec fn applied_all(s: SubstV, tys: Seq<TyV>) -> Seq<TyV> {
    applied_all_from(s.bindings, 0, tys)
}

/// Whether the variable stands in the type for a type or a pack of types. That
/// the length of a pack is asked for does not count.
pub open spec fn links(t: TyV, v: u32) -> bool
    decreases t, 0nat,
{
    match t {
        TyV::Var(w) => v == w,
        TyV::Pack(w) => v == w,
        TyV::PackResolved(elems) => links_first(elems, elems.len(), v),
        TyV::App(_, args) => links_first(args, args.len(), v),
        TyV::Fn(params, ret) => links_first(params, params.len(), v) || links(*ret, v),
        TyV::Array(elem, size) => links(*elem, v) || links(*size, v),
        TyV::ConstExpr(_, a, b) => links(*a, v) || links(*b, v),
        _ => false,
    }
}

pub open spec fn links_first(tys: Seq<TyV>, n: nat, v: u32) -> bool
    decreases tys, n,
{
    0 < n && n <= tys.len() && (links(tys[n - 1], v) || links_first(tys, (n - 1) as nat, v))
}

/// Whether each variable is bound once, and no binding speaks of its own
/// variable or of one that is bound before it.
pub open spec fn triangular(b: Seq<(u32, TyV)>) -> bool {
    &&& forall|i: int, j: int|
        #![trigger b[i], b[j]]
        0 <= j < i < b.len() ==> b[i].0 != b[j].0
    &&& forall|i: int, j: int|
        #![trigger b[i], b[j]]
        0 <= j <= i < b.len() ==> !links(b[i].1, b[j].0)
}

/// The width of `v`: its own, or that of the variable that it is bound to at the `k`th place
/// or later.
pub open spec fn width_from(s: SubstV, k: nat, v: u32) -> Option<TyV>
    decreases s.bindings.len() - k,
{
    proof {
        lemma_bound_at(s.bindings, k, v);
    }
    if s.widths.contains_key(v) {
        Some(s.widths[v])
    } else {
        match bound_at(s.bindings, k, v) {
            Some(i) => match s.bindings[i as int].1 {
                TyV::Var(w) => width_from(s, i + 1, w),
                _ => None,
            },
            None => None,
        }
    }
}

/// The width of a variable, or of what it was merged into.
pub open spec fn width_of(s: SubstV, v: u32) -> Option<TyV> {
    width_from(s, 0, v)
}

/// The widths after `v` is bound to `t`: a variable takes over the width of
/// the one that is bound to it, unless it has one.
pub open spec fn widths_after(s: SubstV, v: u32, t: TyV) -> Map<u32, TyV> {
    match t {
        TyV::Var(w) => if s.widths.contains_key(v) && !s.widths.contains_key(w) {
            s.widths.insert(w, s.widths[v])
        } else {
            s.widths
        },
        _ => s.widths,
    }
}

/// The substitution after `v` is bound to `t`. A variable with a width stands
/// for a constant, so that a plain type name leaves it unbound.
pub open spec fn bind(s: SubstV, v: u32, t: TyV) -> SubstV {
    let widths = widths_after(s, v, t);
    if widths.contains_key(v) && t is Con {
        SubstV { bindings: s.bindings, widths }
    } else {
        SubstV { bindings: s.bindings.push((v, t)), widths }
    }
}

/// Whether the second list of bindings starts with the first.
pub open spec fn starts_with(c: Seq<(u32, TyV)>, b: Seq<(u32, TyV)>) -> bool {
    b.len() <= c.len() && forall|i: int| 0 <= i < b.len() ==> c[i] == #[trigger] b[i]
}

/// Whether one substitution extends another: what was bound stays bound to the same, and
/// every width stays.
pub open spec fn extends(t: SubstV, s: SubstV) -> bool {
    &&& starts_with(t.bindings, s.bindings)
    &&& forall|v: u32| #[trigger]
        s.widths.contains_key(v) ==> t.widths.contains_key(v) && t.widths[v] == s.widths[v]
}

/// Whether all that one substitution binds is bound so in another, and what stands for a
/// constant in one does in the other.
pub open spec fn grows(t: SubstV, s: SubstV) -> bool {
    &&& starts_with(t.bindings, s.bindings)
    &&& forall|v: u32| #[trigger] s.widths.contains_key(v) ==> t.widths.contains_key(v)
}

/// The substitution after the pack `v` is bound to a list of types.
pub open spec fn bind_pack(s: SubstV, v: u32, elems: Seq<TyV>) -> SubstV {
    bind(s, v, TyV::PackResolved(elems))
}

/// What is known so far of each type variable.
pub struct Subst {
    bindings: Vec<(u32, Ty)>,
    const_widths: Table<u32, Ty>,
}

impl View for Subst {
    type V = SubstV;

    closed spec fn view(&self) -> SubstV {
        SubstV { bindings: views(self.bindings@), widths: self.const_widths@ }
    }
}

impl Subst {
    /// The bindings are in order.
    #[verifier::type_invariant]
    pub open spec fn in_order(&self) -> bool {
        triangular(self@.bindings)
    }

    /// Nothing is known.
    pub fn new() -> (r: Self)
        ensures
            r@ == (SubstV { bindings: Seq::empty(), widths: Map::empty() }),
    {
        Subst { bindings: Vec::new(), const_widths: Table::new() }
    }

    fn find_from(&self, k: usize, v: u32) -> (r: Option<usize>)
        ensures
            match r {
                Some(i) => bound_at(self@.bindings, k as nat, v) == Some(i as nat) && i
                    < self.bindings.len(),
                None => bound_at(self@.bindings, k as nat, v) is None,
            },
    {
        let mut i: usize = k;
        while i < self.bindings.len()
            invariant
                k <= i,
                i <= self.bindings.len() || i == k,
                bound_at(self@.bindings, k as nat, v) == bound_at(self@.bindings, i as nat, v),
            decreases self.bindings.len() - i,
        {
            if self.bindings[i].0 == v {
                return Some(i);
            }
            i = i + 1;
        }
        None
    }

    /// Whether a variable is bound.
    pub fn has(&self, v: u32) -> (r: bool)
        ensures
            r == bound(self@.bindings, v),
    {
        self.find_from(0, v).is_some()
    }

    fn pack_len_from(&self, k: usize, v: u32) -> (r: Option<u64>)
        ensures
            match r {
                Some(n) => match known_pack_len(self@.bindings, k as nat, v) {
                    Some(m) => n == m as u64,
                    None => false,
                },
                None => known_pack_len(self@.bindings, k as nat, v) is None,
            },
        decreases self.bindings.len() - k,
    {
        proof {
            lemma_bound_at(self@.bindings, k as nat, v);
        }
        match self.find_from(k, v) {
            None => None,
            Some(i) => {
                proof {
                    lemma_ty_view(self.bindings@[i as int].1);
                }
                match &self.bindings[i].1 {
                    Ty::PackResolved(elems) => Some(elems.len() as u64),
                    Ty::Var(w) => self.pack_len_from(i + 1, w.0),
                    Ty::Pack(w) => self.pack_len_from(i + 1, w.0),
                    _ => None,
                }
            },
        }
    }

    fn apply_from(&self, k: usize, ty: &Ty) -> (r: Ty)
        ensures
            r@ == applied_from(self@.bindings, k as nat, ty@),
        decreases self.bindings.len() - k, ty,
    {
        proof {
            lemma_ty_view(*ty);
        }
        match ty {
            Ty::Var(v) | Ty::Pack(v) => {
                proof {
                    lemma_bound_at(self@.bindings, k as nat, v.0);
                }
                match self.find_from(k, v.0) {
                    Some(i) => self.apply_from(i + 1, &self.bindings[i].1),
                    None => ty.dup(),
                }
            },
            Ty::PackResolved(elems) => Ty::PackResolved(self.apply_all_from(k, elems)),
            Ty::PackLen(v) => match self.pack_len_from(0, v.0) {
                Some(n) => Ty::Const(ConstValue::Int(n)),
                None => ty.dup(),
            },
            Ty::Con(_) | Ty::Const(_) => ty.dup(),
            Ty::App(name, args) => {
                let parts: Vec<Ty> = self.apply_all_from(k, args);
                Ty::App(name.clone(), splice_packs(&parts))
            },
            Ty::Fn(params, ret) => Ty::Fn(
                self.apply_all_from(k, params),
                Box::new(self.apply_from(k, ret)),
            ),
            Ty::Array(elem, size) => sized_array(
                self.apply_from(k, elem),
                self.apply_from(k, size),
            ),
            Ty::ConstExpr(op, a, b) => fold_const_expr(
                op.as_str(),
                self.apply_from(k, a),
                self.apply_from(k, b),
            ),
        }
    }

    fn apply_all_from(&self, k: usize, tys: &Vec<Ty>) -> (r: Vec<Ty>)
        ensures
            views(r@) == applied_all_from(self@.bindings, k as nat, views(tys@)),
            r.len() == tys.len(),
        decreases self.bindings.len() - k, tys,
    {
        let mut out: Vec<Ty> = Vec::new();
        let mut i: usize = 0;
        while i < tys.len()
            invariant
                i <= tys.len(),
                out.len() == i,
                forall|j: int|
                    0 <= j < i ==> (#[trigger] out@[j])@ == applied_from(
                        self@.bindings,
                        k as nat,
                        tys@[j]@,
                    ),
            decreases tys.len() - i,
        {
            out.push(self.apply_from(k, &tys[i]));
            i = i + 1;
        }
        assert(views(out@) =~= applied_all_from(self@.bindings, k as nat, views(tys@)));
        out
    }

    /// Binds a variable.
    pub(crate) fn bind(&mut self, v: u32, ty: Ty)
        requires
            !bound(old(self)@.bindings, v),
            settled(old(self)@.bindings, ty@),
            !links(ty@, v),
        ensures
            final(self)@ == bind(old(self)@, v, ty@),
    {
        proof {
            use_type_invariant(&*self);
            lemma_ty_view(ty);
            lemma_triangular_push(self@.bindings, v, ty@);
        }
        let mut bindings: Vec<(u32, Ty)> = Vec::new();
        std::mem::swap(&mut bindings, &mut self.bindings);
        let mut widths: Table<u32, Ty> = Table::new();
        std::mem::swap(&mut widths, &mut self.const_widths);
        let ghost before = SubstV { bindings: views(bindings@), widths: widths@ };
        if let Ty::Var(w) = &ty {
            let passed: Option<Ty> = match widths.get(&v) {
                Some(width) => Some(width.dup()),
                None => None,
            };
            if let Some(width) = passed {
                if !widths.has(&w.0) {
                    widths.insert(w.0, width);
                }
            }
        }
        let named: bool = match &ty {
            Ty::Con(_) => true,
            _ => false,
        };
        if !(named && widths.has(&v)) {
            bindings.push((v, ty));
        }
        *self = Subst { bindings, const_widths: widths };
    }

    /// Binds a pack to a list of types.
    pub(crate) fn bind_pack(&mut self, v: u32, elems: Vec<Ty>)
        requires
            !bound(old(self)@.bindings, v),
            settled(old(self)@.bindings, TyV::PackResolved(views(elems@))),
            !links(TyV::PackResolved(views(elems@)), v),
        ensures
            final(self)@ == bind_pack(old(self)@, v, views(elems@)),
    {
        let whole: Ty = Ty::PackResolved(elems);
        proof {
            lemma_ty_view(whole);
        }
        self.bind(v, whole);
    }

    fn width_place(&self, k: usize, v: u32) -> (r: Option<Ty>)
        ensures
            match r {
                Some(t) => width_from(self@, k as nat, v) == Some(t@),
                None => width_from(self@, k as nat, v) is None,
            },
        decreases self.bindings.len() - k,
    {
        proof {
            lemma_bound_at(self@.bindings, k as nat, v);
        }
        if let Some(t) = self.const_widths.get(&v) {
            return Some(t.dup());
        }
        match self.find_from(k, v) {
            None => None,
            Some(i) => {
                proof {
                    lemma_ty_view(self.bindings@[i as int].1);
                }
                match &self.bindings[i].1 {
                    Ty::Var(w) => self.width_place(i + 1, w.0),
                    _ => None,
                }
            },
        }
    }

    /// The width of a variable, or of what it was merged into.
    pub fn const_width(&self, v: u32) -> (r: Option<Ty>)
        ensures
            match r {
                Some(t) => width_of(self@, v) == Some(t@),
                None => width_of(self@, v) is None,
            },
    {
        self.width_place(0, v)
    }

    /// Gives a variable a width.
    pub fn set_const_width(&mut self, v: u32, width: Ty)
        ensures
            final(self)@ == (SubstV {
                bindings: old(self)@.bindings,
                widths: old(self)@.widths.insert(v, width@),
            }),
    {
        proof {
            use_type_invariant(&*self);
        }
        let mut bindings: Vec<(u32, Ty)> = Vec::new();
        std::mem::swap(&mut bindings, &mut self.bindings);
        let mut widths: Table<u32, Ty> = Table::new();
        std::mem::swap(&mut widths, &mut self.const_widths);
        widths.insert(v, width);
        *self = Subst { bindings, const_widths: widths };
    }

    /// The table of widths.
    pub(crate) fn widths(&self) -> (r: &Table<u32, Ty>)
        ensures
            r@ == self@.widths,
    {
        &self.const_widths
    }

    /// Replaces each bound variable of a type.
    pub fn apply(&self, ty: &Ty) -> (r: Ty)
        ensures
            r@ == applied(self@, ty@),
    {
        self.apply_from(0, ty)
    }

    /// Replaces each bound variable of each type of a list.
    pub fn apply_all(&self, tys: &Vec<Ty>) -> (r: Vec<Ty>)
        ensures
            views(r@) == applied_all(self@, views(tys@)),
            r.len() == tys.len(),
    {
        self.apply_all_from(0, tys)
    }
}

impl Dup for Subst {
    fn dup(&self) -> (r: Self) {
        proof {
            use_type_invariant(self);
        }
        let mut bindings: Vec<(u32, Ty)> = Vec::new();
        let mut i: usize = 0;
        while i < self.bindings.len()
            invariant
                i <= self.bindings.len(),
                bindings.len() == i,
                forall|j: int| 0 <= j < i ==> (#[trigger] bindings@[j])@ == self.bindings@[j]@,
            decreases self.bindings.len() - i,
        {
            bindings.push((self.bindings[i].0, self.bindings[i].1.dup()));
            i = i + 1;
        }
        assert(views(bindings@) =~= views(self.bindings@));
        Subst { bindings, const_widths: self.const_widths.dup() }
    }
}

impl Default for Subst {
    fn default() -> (r: Self)
        ensures
            r@ == (SubstV { bindings: Seq::empty(), widths: Map::empty() }),
    {
        Subst::new()
    }
}

} // verus!
