//! What inference put off, taken up again.

use vstd::prelude::*;

use crate::ast::Span;
use crate::const_eval::ConstValue;
use crate::errors::{error_at, TypeError, TypeErrorKind, TypeErrorKindV, TypeErrorV};
use crate::infer_calls::{
    all_gates_concrete, field_type, gates_concrete, index_type, method_call_type, missing_impl,
    not_inferred, not_inferred_ty,
};
use crate::infer_impls::{dispatched, impl_found, unified_at};
use crate::infer_state::{
    demanding, unit_result, Constraint, ConstraintV, Infer, InferV, NumberDefault,
    PendingCallV, PendingFieldAccess, PendingFieldV, PendingIndex, PendingIndexV,
    PendingMethodCall,
};
use crate::subst::{applied, applied_all, width_of};
use crate::table::{group_views, holds_number, views, Dup};
use crate::text::same;
use crate::ty::{group_ty, lemma_ty_view, Ty, TyV, TyVar};
use crate::types::{
    all_concrete, are_fully_concrete, dup_tys, is_placeholder, is_var, list_text, placeholder,
};
use crate::unify::{unified, unify};

verus! {

broadcast use {group_views, group_ty};

// ---- defaults of numbers ----

/// The type that a number has by default.
pub open spec fn default_type(d: NumberDefault) -> TyV {
    match d {
        NumberDefault::Int => TyV::Con("i32"@),
        NumberDefault::Float => TyV::Con("f32"@),
        NumberDefault::Complex => TyV::App("Complex"@, seq![TyV::Con("f32"@)]),
    }
}

/// The state after a number whose type nothing fixed got its default.
pub open spec fn default_given(st: InferV, v: u32, d: NumberDefault) -> InferV {
    match applied(st.subst, TyV::Var(v)) {
        TyV::Var(root) => if st.quantified.contains(root) || width_of(st.subst, root) is Some {
            st
        } else {
            InferV { subst: unified(st.subst, TyV::Var(root), default_type(d)).0, ..st }
        },
        _ => st,
    }
}

/// The state after the numbers from the `i`th on got their defaults: only the
/// complex ones, or only the others.
pub open spec fn defaults_from(
    st: InferV,
    defaults: Seq<(u32, NumberDefault)>,
    i: nat,
    complex: bool,
) -> InferV
    decreases defaults.len() - i,
{
    if i >= defaults.len() {
        st
    } else {
        let (v, d) = defaults[i as int];
        let st1 = if (d == NumberDefault::Complex) == complex {
            default_given(st, v, d)
        } else {
            st
        };
        defaults_from(st1, defaults, i + 1, complex)
    }
}

/// The state after all numbers got their defaults, complex ones first.
pub open spec fn defaults_applied(st: InferV) -> InferV {
    let st0 = InferV { defaults: Seq::empty(), ..st };
    defaults_from(defaults_from(st0, st.defaults, 0, true), st.defaults, 0, false)
}

// ---- constraints ----

/// Whether one of the first `n` types is a quantified variable.
pub open spec fn quantified_among(st: InferV, tys: Seq<TyV>, n: nat) -> bool
    decreases n,
{
    0 < n && n <= tys.len() && ((tys[n - 1] matches TyV::Var(v) && st.quantified.contains(v))
        || quantified_among(st, tys, (n - 1) as nat))
}

/// Whether one of the first `n` types is a placeholder.
pub open spec fn placeholder_among(tys: Seq<TyV>, n: nat) -> bool
    decreases n,
{
    0 < n && n <= tys.len() && (placeholder(tys[n - 1]) || placeholder_among(
        tys,
        (n - 1) as nat,
    ))
}

/// The type that a constant is checked as: the width of its variable, or the
/// type that such a constant has by itself.
pub open spec fn checkable_type(st: InferV, known: TyV, written: TyV) -> TyV {
    match known {
        TyV::Const(c) => {
            let own = match c {
                ConstValue::Int(_) => TyV::Con("i32"@),
                ConstValue::Bool(_) => TyV::Con("bool"@),
            };
            match written {
                TyV::Var(v) => match width_of(st.subst, v) {
                    Some(width) => width,
                    None => own,
                },
                _ => own,
            }
        },
        _ => known,
    }
}

/// The types that a constraint is checked on.
pub open spec fn checkable_types(st: InferV, known: Seq<TyV>, written: Seq<TyV>, n: nat) -> Seq<
    TyV,
>
    decreases n,
{
    if n == 0 || n > known.len() || n > written.len() {
        Seq::empty()
    } else {
        checkable_types(st, known, written, (n - 1) as nat).push(
            checkable_type(st, known[n - 1], written[n - 1]),
        )
    }
}

/// Whether a number literal was used as a complex number.
pub open spec fn widened(algebra: Seq<char>, tys: Seq<TyV>) -> bool {
    (algebra == "Int"@ || algebra == "Float"@) && tys.len() == 1 && (
    tys[0] matches TyV::App(name, _) && name == "Complex"@)
}

/// What comes of checking a constraint: it is met, it is kept, or it fails.
pub open spec fn constraint_checked(st: InferV, c: ConstraintV) -> (InferV, Result<
    (),
    TypeErrorV,
>) {
    let known = applied_all(st.subst, c.tys);
    if !st.registry.declares_algebra(c.algebra) || quantified_among(st, known, known.len())
        || placeholder_among(known, known.len()) {
        (st, Ok(()))
    } else if !gates_concrete(known, c.gating, c.gating.len()) {
        (demanding(st, c), Ok(()))
    } else if !all_concrete(known) {
        if st.active != Map::<Seq<char>, TyV>::empty() {
            (demanding(st, c), Ok(()))
        } else {
            let (st1, r) = dispatched(st, c.algebra, known, c.span);
            match r {
                Err(e) => (st1, Err(e)),
                Ok(found) => if found {
                    (st1, Ok(()))
                } else {
                    (st1, Err(missing_impl(c.algebra, known, c.span)))
                },
            }
        }
    } else {
        let tys = checkable_types(st, known, c.tys, known.len());
        if widened(c.algebra, tys) {
            (st, Ok(()))
        } else {
            let (st1, found) = impl_found(st, c.algebra, tys);
            if found {
                (st1, Ok(()))
            } else {
                (st1, Err(missing_impl(c.algebra, tys, c.span)))
            }
        }
    }
}

/// What comes of checking the constraints from the `i`th on.
pub open spec fn constraints_from(st: InferV, cs: Seq<ConstraintV>, i: nat) -> (InferV, Result<
    (),
    TypeErrorV,
>)
    decreases cs.len() - i,
{
    if i >= cs.len() {
        (st, Ok(()))
    } else {
        let (st1, r) = constraint_checked(st, cs[i as int]);
        match r {
            Err(e) => (st1, Err(e)),
            Ok(_) => constraints_from(st1, cs, i + 1),
        }
    }
}

/// What comes of checking all constraints.
pub open spec fn constraints_checked(st: InferV) -> (InferV, Result<(), TypeErrorV>) {
    constraints_from(InferV { constraints: Seq::empty(), ..st }, st.constraints, 0)
}

// ---- names and divisions ----

/// The error of the first algebra that was used as a type.
pub open spec fn type_names_checked(st: InferV) -> (InferV, Result<(), TypeErrorV>) {
    let st1 = InferV { type_names: Seq::empty(), ..st };
    if st.type_names.len() == 0 {
        (st1, Ok(()))
    } else {
        let (name, span) = st.type_names[0];
        (st1, Err(error_at(span, TypeErrorKindV::TypeNameIsAnAlgebra { name })))
    }
}

/// The error of the first division by zero in a type.
pub open spec fn divs_checked(st: InferV) -> (InferV, Result<(), TypeErrorV>) {
    let st1 = InferV { divs: Seq::empty(), ..st };
    if st.divs.len() == 0 {
        (st1, Ok(()))
    } else {
        let (dividend, span) = st.divs[0];
        (st1, Err(error_at(span, TypeErrorKindV::ConstDivByZero { dividend })))
    }
}

// ---- field accesses, method calls, indices ----

/// What comes of a field access that was put off.
pub open spec fn field_taken_up(st: InferV, p: PendingFieldV) -> (InferV, Result<
    (),
    TypeErrorV,
>) {
    let base = applied(st.subst, p.base);
    let (st1, r) = if base is Var || placeholder(base) {
        (st, Ok(not_inferred()))
    } else {
        field_type(st, base, p.field, p.span)
    };
    match r {
        Err(e) => (st1, Err(e)),
        Ok(t) => unified_at(st1, p.span, TyV::Var(p.result), t),
    }
}

/// What comes of the field accesses from the `i`th on.
pub open spec fn fields_from(st: InferV, ps: Seq<PendingFieldV>, i: nat) -> (InferV, Result<
    (),
    TypeErrorV,
>)
    decreases ps.len() - i,
{
    if i >= ps.len() {
        (st, Ok(()))
    } else {
        let (st1, r) = field_taken_up(st, ps[i as int]);
        match r {
            Err(e) => (st1, Err(e)),
            Ok(_) => fields_from(st1, ps, i + 1),
        }
    }
}

pub open spec fn fields_checked(st: InferV) -> (InferV, Result<(), TypeErrorV>) {
    fields_from(InferV { fields: Seq::empty(), ..st }, st.fields, 0)
}

/// What comes of a method call that was put off.
pub open spec fn call_taken_up(st: InferV, p: PendingCallV) -> (InferV, Result<(), TypeErrorV>) {
    let base = applied(st.subst, p.base);
    let (st1, r) = if base is Var || placeholder(base) {
        (st, Ok(not_inferred()))
    } else {
        method_call_type(
            st,
            base,
            p.method,
            p.arg_tys,
            p.arg_spans,
            p.base_span,
            p.call_span,
        )
    };
    match r {
        Err(e) => (st1, Err(e)),
        Ok(t) => unified_at(st1, p.call_span, TyV::Var(p.result), t),
    }
}

/// What comes of the method calls from the `i`th on.
pub open spec fn calls_from(st: InferV, ps: Seq<PendingCallV>, i: nat) -> (InferV, Result<
    (),
    TypeErrorV,
>)
    decreases ps.len() - i,
{
    if i >= ps.len() {
        (st, Ok(()))
    } else {
        let (st1, r) = call_taken_up(st, ps[i as int]);
        match r {
            Err(e) => (st1, Err(e)),
            Ok(_) => calls_from(st1, ps, i + 1),
        }
    }
}

pub open spec fn calls_checked(st: InferV) -> (InferV, Result<(), TypeErrorV>) {
    calls_from(InferV { calls: Seq::empty(), ..st }, st.calls, 0)
}

/// What comes of an index that was put off: it stays so while nothing is known
/// of what is indexed.
pub open spec fn index_taken_up(st: InferV, p: PendingIndexV) -> (InferV, Result<
    (),
    TypeErrorV,
>) {
    let base = applied(st.subst, p.base);
    if base is Var {
        (InferV { indices: st.indices.push(p), ..st }, Ok(()))
    } else {
        let (st1, r) = if placeholder(base) {
            (st, Ok(not_inferred()))
        } else {
            index_type(st, base, p.index_tys, p.index_spans, p.base_span, p.span)
        };
        match r {
            Err(e) => (st1, Err(e)),
            Ok(t) => unified_at(st1, p.span, TyV::Var(p.result), t),
        }
    }
}

/// What comes of the indices from the `i`th on.
pub open spec fn indices_from(st: InferV, ps: Seq<PendingIndexV>, i: nat) -> (InferV, Result<
    (),
    TypeErrorV,
>)
    decreases ps.len() - i,
{
    if i >= ps.len() {
        (st, Ok(()))
    } else {
        let (st1, r) = index_taken_up(st, ps[i as int]);
        match r {
            Err(e) => (st1, Err(e)),
            Ok(_) => indices_from(st1, ps, i + 1),
        }
    }
}

pub open spec fn indices_checked(st: InferV) -> (InferV, Result<(), TypeErrorV>) {
    indices_from(InferV { indices: Seq::empty(), ..st }, st.indices, 0)
}

/// What comes of the indices from the `i`th on that will never be known.
pub open spec fn indices_given_up(st: InferV, ps: Seq<PendingIndexV>, i: nat) -> (
    InferV,
    Result<(), TypeErrorV>,
)
    decreases ps.len() - i,
{
    if i >= ps.len() {
        (st, Ok(()))
    } else {
        let p = ps[i as int];
        let (st1, r) = unified_at(st, p.span, TyV::Var(p.result), not_inferred());
        match r {
            Err(e) => (st1, Err(e)),
            Ok(_) => indices_given_up(st1, ps, i + 1),
        }
    }
}

/// What comes of checking constraints and indices in turn for as long as that
/// leaves fewer of them.
pub open spec fn demands_checked(st: InferV) -> (InferV, Result<(), TypeErrorV>)
    decreases st.constraints.len() + st.indices.len(),
{
    let (st1, r1) = constraints_checked(st);
    match r1 {
        Err(e) => (st1, Err(e)),
        Ok(_) => {
            let (st2, r2) = indices_checked(st1);
            let left = st2.constraints.len() + st2.indices.len();
            match r2 {
                Err(e) => (st2, Err(e)),
                Ok(_) => if left == 0 {
                    (st2, Ok(()))
                } else if left >= st.constraints.len() + st.indices.len() {
                    indices_given_up(
                        InferV { indices: Seq::empty(), ..st2 },
                        st2.indices,
                        0,
                    )
                } else {
                    demands_checked(st2)
                },
            }
        },
    }
}

fn default_ty(d: NumberDefault) -> (r: Ty)
    ensures
        r@ == default_type(d),
{
    match d {
        NumberDefault::Int => Ty::Con("i32".to_owned()),
        NumberDefault::Float => Ty::Con("f32".to_owned()),
        NumberDefault::Complex => {
            let mut args: Vec<Ty> = Vec::new();
            args.push(Ty::Con("f32".to_owned()));
            assert(views(args@) =~= seq![TyV::Con("f32"@)]);
            Ty::App("Complex".to_owned(), args)
        },
    }
}

fn any_placeholder(tys: &Vec<Ty>) -> (r: bool)
    ensures
        r == placeholder_among(views(tys@), tys@.len()),
{
    let mut i: usize = tys.len();
    while i > 0
        invariant
            i <= tys.len(),
            placeholder_among(views(tys@), tys@.len()) == placeholder_among(
                views(tys@),
                i as nat,
            ),
        decreases i,
    {
        if is_placeholder(&tys[i - 1]) {
            return true;
        }
        i = i - 1;
    }
    false
}

impl<'r> Infer<'r> {
    fn give_default(&mut self, v: u32, d: NumberDefault)
        ensures
            final(self)@ == default_given(old(self)@, v, d),
    {
        let known: Ty = self.subst.apply(&Ty::Var(TyVar(v)));
        proof {
            lemma_ty_view(known);
        }
        if let Ty::Var(root) = &known {
            if holds_number(&self.quantified, root.0) || self.subst.const_width(root.0).is_some() {
                return;
            }
            let ty: Ty = default_ty(d);
            let _ = unify(&mut self.subst, &known, &ty);
        }
    }

    fn give_defaults(&mut self, defaults: &Vec<(u32, NumberDefault)>, complex: bool)
        ensures
            final(self)@ == defaults_from(old(self)@, defaults@, 0, complex),
    {
        let mut i: usize = 0;
        while i < defaults.len()
            invariant
                i <= defaults.len(),
                defaults_from(old(self)@, defaults@, 0, complex) == defaults_from(
                    self@,
                    defaults@,
                    i as nat,
                    complex,
                ),
            decreases defaults.len() - i,
        {
            let (v, d) = defaults[i];
            if (d == NumberDefault::Complex) == complex {
                self.give_default(v, d);
            }
            i = i + 1;
        }
    }

    /// Gives each number whose type nothing fixed its default.
    pub(crate) fn apply_defaults(&mut self)
        ensures
            final(self)@ == defaults_applied(old(self)@),
    {
        let mut defaults: Vec<(u32, NumberDefault)> = Vec::new();
        std::mem::swap(&mut defaults, &mut self.pending_defaults);
        self.give_defaults(&defaults, true);
        self.give_defaults(&defaults, false);
    }

    fn any_quantified(&self, tys: &Vec<Ty>) -> (r: bool)
        ensures
            r == quantified_among(self@, views(tys@), tys@.len()),
    {
        let mut i: usize = tys.len();
        while i > 0
            invariant
                i <= tys.len(),
                quantified_among(self@, views(tys@), tys@.len()) == quantified_among(
                    self@,
                    views(tys@),
                    i as nat,
                ),
            decreases i,
        {
            proof {
                lemma_ty_view(tys@[i - 1]);
            }
            if let Ty::Var(v) = &tys[i - 1] {
                if holds_number(&self.quantified, v.0) {
                    return true;
                }
            }
            i = i - 1;
        }
        false
    }

    fn checkable(&self, known: &Ty, written: &Ty) -> (r: Ty)
        ensures
            r@ == checkable_type(self@, known@, written@),
    {
        proof {
            lemma_ty_view(*known);
            lemma_ty_view(*written);
        }
        match known {
            Ty::Const(c) => {
                if let Ty::Var(v) = written {
                    if let Some(width) = self.subst.const_width(v.0) {
                        return width;
                    }
                }
                match c {
                    ConstValue::Int(_) => Ty::Con("i32".to_owned()),
                    ConstValue::Bool(_) => Ty::Con("bool".to_owned()),
                }
            },
            _ => known.dup(),
        }
    }

    fn list_checkable(&self, known: &Vec<Ty>, written: &Vec<Ty>) -> (r: Vec<Ty>)
        requires
            known.len() == written.len(),
        ensures
            views(r@) == checkable_types(self@, views(known@), views(written@), known@.len()),
    {
        let mut out: Vec<Ty> = Vec::new();
        let mut i: usize = 0;
        while i < known.len()
            invariant
                i <= known.len(),
                known.len() == written.len(),
                views(out@) == checkable_types(self@, views(known@), views(written@), i as nat),
            decreases known.len() - i,
        {
            out.push(self.checkable(&known[i], &written[i]));
            i = i + 1;
        }
        out
    }

    fn check_constraint(&mut self, c: &Constraint) -> (r: Result<(), TypeError>)
        ensures
            constraint_checked(old(self)@, c@) == (final(self)@, unit_result(r)),
    {
        let known: Vec<Ty> = self.subst.apply_all(&c.tys);
        if !self.registry.has_algebra(c.algebra.as_str()) || self.any_quantified(&known)
            || any_placeholder(&known) {
            return Ok(());
        }
        if !all_gates_concrete(&known, &c.gating_indices) {
            self.demand(c.dup());
            return Ok(());
        }
        if !are_fully_concrete(&known) {
            if !self.active_generics.is_empty() {
                self.demand(c.dup());
                return Ok(());
            }
            let found: bool = self.dispatch_algebra_call(&c.algebra, &known, c.span)?;
            if !found {
                return Err(
                    TypeError {
                        span: c.span,
                        kind: TypeErrorKind::MissingImpl {
                            algebra: c.algebra.clone(),
                            ty: list_text(&known),
                        },
                    },
                );
            }
            return Ok(());
        }
        let tys: Vec<Ty> = self.list_checkable(&known, &c.tys);
        if is_widened(&c.algebra, &tys) {
            return Ok(());
        }
        if self.has_matching_impl(&c.algebra, &tys) {
            return Ok(());
        }
        Err(
            TypeError {
                span: c.span,
                kind: TypeErrorKind::MissingImpl {
                    algebra: c.algebra.clone(),
                    ty: list_text(&tys),
                },
            },
        )
    }

    /// Checks all constraints.
    pub(crate) fn check_pending_constraints(&mut self) -> (r: Result<(), TypeError>)
        ensures
            constraints_checked(old(self)@) == (final(self)@, unit_result(r)),
    {
        let mut list: Vec<Constraint> = Vec::new();
        std::mem::swap(&mut list, &mut self.constraints);
        let ghost start = self@;
        let mut i: usize = 0;
        while i < list.len()
            invariant
                i <= list.len(),
                constraints_from(start, views(list@), 0) == constraints_from(
                    self@,
                    views(list@),
                    i as nat,
                ),
                constraints_checked(old(self)@) == constraints_from(start, views(list@), 0),
            decreases list.len() - i,
        {
            assert(views(list@)[i as int] == list@[i as int]@);
            self.check_constraint(&list[i])?;
            i = i + 1;
        }
        Ok(())
    }

    /// Fails if an algebra was used as a type.
    pub(crate) fn check_pending_type_names(&mut self) -> (r: Result<(), TypeError>)
        ensures
            type_names_checked(old(self)@) == (final(self)@, unit_result(r)),
    {
        let mut list: Vec<(String, Span)> = Vec::new();
        std::mem::swap(&mut list, &mut self.pending_type_name_checks);
        if list.len() == 0 {
            return Ok(());
        }
        assert(views(list@)[0] == list@[0]@);
        Err(
            TypeError {
                span: list[0].1,
                kind: TypeErrorKind::TypeNameIsAnAlgebra { name: list[0].0.clone() },
            },
        )
    }

    /// Fails if a type divides by zero.
    pub(crate) fn check_pending_div_by_zero(&mut self) -> (r: Result<(), TypeError>)
        ensures
            divs_checked(old(self)@) == (final(self)@, unit_result(r)),
    {
        let mut list: Vec<(u64, Span)> = Vec::new();
        std::mem::swap(&mut list, &mut self.pending_div_by_zero_checks);
        if list.len() == 0 {
            return Ok(());
        }
        Err(
            TypeError {
                span: list[0].1,
                kind: TypeErrorKind::ConstDivByZero { dividend: list[0].0 },
            },
        )
    }

    fn take_up_field(&mut self, p: &PendingFieldAccess) -> (r: Result<(), TypeError>)
        ensures
            field_taken_up(old(self)@, p@) == (final(self)@, unit_result(r)),
    {
        let base: Ty = self.subst.apply(&p.base);
        let ty: Ty = if is_var(&base) || is_placeholder(&base) {
            not_inferred_ty()
        } else {
            self.resolve_field_access(&base, &p.field, p.span)?
        };
        self.unify_at(p.span, &Ty::Var(TyVar(p.result)), &ty)
    }

    /// Takes up the field accesses that were put off.
    pub(crate) fn check_pending_field_accesses(&mut self) -> (r: Result<(), TypeError>)
        ensures
            fields_checked(old(self)@) == (final(self)@, unit_result(r)),
    {
        let mut list: Vec<PendingFieldAccess> = Vec::new();
        std::mem::swap(&mut list, &mut self.pending_field_accesses);
        let ghost start = self@;
        let mut i: usize = 0;
        while i < list.len()
            invariant
                i <= list.len(),
                fields_from(start, views(list@), 0) == fields_from(self@, views(list@), i as nat),
                fields_checked(old(self)@) == fields_from(start, views(list@), 0),
            decreases list.len() - i,
        {
            assert(views(list@)[i as int] == list@[i as int]@);
            self.take_up_field(&list[i])?;
            i = i + 1;
        }
        Ok(())
    }

    fn take_up_call(&mut self, p: &PendingMethodCall) -> (r: Result<(), TypeError>)
        ensures
            call_taken_up(old(self)@, p@) == (final(self)@, unit_result(r)),
    {
        let base: Ty = self.subst.apply(&p.base);
        let ty: Ty = if is_var(&base) || is_placeholder(&base) {
            not_inferred_ty()
        } else {
            self.resolve_method_call(
                &base,
                &p.method,
                &p.arg_tys,
                &p.arg_spans,
                p.base_span,
                p.call_span,
            )?
        };
        self.unify_at(p.call_span, &Ty::Var(TyVar(p.result)), &ty)
    }

    /// Takes up the method calls that were put off.
    pub(crate) fn check_pending_method_calls(&mut self) -> (r: Result<(), TypeError>)
        ensures
            calls_checked(old(self)@) == (final(self)@, unit_result(r)),
    {
        let mut list: Vec<PendingMethodCall> = Vec::new();
        std::mem::swap(&mut list, &mut self.pending_method_calls);
        let ghost start = self@;
        let mut i: usize = 0;
        while i < list.len()
            invariant
                i <= list.len(),
                calls_from(start, views(list@), 0) == calls_from(self@, views(list@), i as nat),
                calls_checked(old(self)@) == calls_from(start, views(list@), 0),
            decreases list.len() - i,
        {
            assert(views(list@)[i as int] == list@[i as int]@);
            self.take_up_call(&list[i])?;
            i = i + 1;
        }
        Ok(())
    }

    fn take_up_index(&mut self, p: &PendingIndex) -> (r: Result<(), TypeError>)
        ensures
            index_taken_up(old(self)@, p@) == (final(self)@, unit_result(r)),
    {
        let base: Ty = self.subst.apply(&p.base);
        if is_var(&base) {
            self.pending_indices.push(
                PendingIndex {
                    base: p.base.dup(),
                    base_span: p.base_span,
                    index_tys: dup_tys(&p.index_tys),
                    index_spans: dup_spans(&p.index_spans),
                    result: p.result,
                    span: p.span,
                },
            );
            return Ok(());
        }
        let ty: Ty = if is_placeholder(&base) {
            not_inferred_ty()
        } else {
            self.resolve_index(base, &p.index_tys, &p.index_spans, p.base_span, p.span)?
        };
        self.unify_at(p.span, &Ty::Var(TyVar(p.result)), &ty)
    }

    /// Takes up the indices that were put off.
    pub(crate) fn check_pending_indices(&mut self) -> (r: Result<(), TypeError>)
        ensures
            indices_checked(old(self)@) == (final(self)@, unit_result(r)),
    {
        let mut list: Vec<PendingIndex> = Vec::new();
        std::mem::swap(&mut list, &mut self.pending_indices);
        let ghost start = self@;
        let mut i: usize = 0;
        while i < list.len()
            invariant
                i <= list.len(),
                indices_from(start, views(list@), 0) == indices_from(
                    self@,
                    views(list@),
                    i as nat,
                ),
                indices_checked(old(self)@) == indices_from(start, views(list@), 0),
            decreases list.len() - i,
        {
            assert(views(list@)[i as int] == list@[i as int]@);
            self.take_up_index(&list[i])?;
            i = i + 1;
        }
        Ok(())
    }

    fn give_up_indices(&mut self) -> (r: Result<(), TypeError>)
        ensures
            indices_given_up(
                InferV { indices: Seq::empty(), ..old(self)@ },
                old(self)@.indices,
                0,
            ) == (final(self)@, unit_result(r)),
    {
        let mut list: Vec<PendingIndex> = Vec::new();
        std::mem::swap(&mut list, &mut self.pending_indices);
        let ghost start = self@;
        let mut i: usize = 0;
        while i < list.len()
            invariant
                i <= list.len(),
                indices_given_up(start, views(list@), 0) == indices_given_up(
                    self@,
                    views(list@),
                    i as nat,
                ),
                indices_given_up(
                    InferV { indices: Seq::empty(), ..old(self)@ },
                    old(self)@.indices,
                    0,
                ) == indices_given_up(start, views(list@), 0),
            decreases list.len() - i,
        {
            assert(views(list@)[i as int] == list@[i as int]@);
            let ty: Ty = not_inferred_ty();
            self.unify_at(list[i].span, &Ty::Var(TyVar(list[i].result)), &ty)?;
            i = i + 1;
        }
        Ok(())
    }

    /// Checks constraints and indices in turn for as long as that leaves fewer.
    pub(crate) fn check_pending_constraints_and_indices(&mut self) -> (r: Result<(), TypeError>)
        ensures
            demands_checked(old(self)@) == (final(self)@, unit_result(r)),
        decreases old(self)@.constraints.len() + old(self)@.indices.len(),
    {
        let before: u128 = self.constraints.len() as u128 + self.pending_indices.len() as u128;
        self.check_pending_constraints()?;
        self.check_pending_indices()?;
        let left: u128 = self.constraints.len() as u128 + self.pending_indices.len() as u128;
        if left == 0 {
            return Ok(());
        }
        if left >= before {
            return self.give_up_indices();
        }
        self.check_pending_constraints_and_indices()
    }
}

fn is_widened(algebra: &String, tys: &Vec<Ty>) -> (r: bool)
    ensures
        r == widened(algebra@, views(tys@)),
{
    if !(same(algebra.as_str(), "Int") || same(algebra.as_str(), "Float")) || tys.len() != 1 {
        return false;
    }
    proof {
        lemma_ty_view(tys@[0]);
    }
    match &tys[0] {
        Ty::App(name, _) => same(name.as_str(), "Complex"),
        _ => false,
    }
}

/// A list of the same places.
pub(crate) fn dup_spans(v: &Vec<Span>) -> (r: Vec<Span>)
    ensures
        r@ == v@,
{
    let mut out: Vec<Span> = Vec::new();
    let mut i: usize = 0;
    while i < v.len()
        invariant
            i <= v.len(),
            out@ == v@.subrange(0, i as int),
        decreases v.len() - i,
    {
        out.push(v[i]);
        i = i + 1;
        assert(out@ =~= v@.subrange(0, i as int));
    }
    assert(v@.subrange(0, i as int) =~= v@);
    out
}

} // verus!
