//! Which impls apply to which types.

use vstd::prelude::*;

use crate::ast::{GenericParam, Span, Type};
use crate::errors::{error_at, TypeError, TypeErrorKind, TypeErrorKindV, TypeErrorV};
use crate::infer_state::{unit_result, Infer, InferV, Mapping, MappingV};
use crate::infer_types::{fresh_for, lemma_fresh_for_names, type_of};
use crate::listing::dup_names;
use crate::registry::{named_from, ImplEntry, Registry};
use crate::subst::{applied, applied_all, Subst, SubstV};
use crate::table::{group_views, holds_name, views, Dup};
use crate::text::same;
use crate::ty::{group_ty, Ty, TyV};
use crate::types::{list_text, same_tys, ty_text, tys_text};
use crate::unify::{unified, unify};

verus! {

broadcast use {group_views, group_ty};

/// How many impls deep the search for an impl may go.
pub const SEARCH_DEPTH: u32 = 0xFFFF_FFFF;

/// The state and the result of unifying two types on behalf of a place.
pub open spec fn unified_at(st: InferV, span: Span, a: TyV, b: TyV) -> (InferV, Result<
    (),
    TypeErrorV,
>) {
    let (s, e) = unified(st.subst, a, b);
    (
        InferV { subst: s, ..st },
        match e {
            None => Ok(()),
            Some(e) => Err(error_at(span, TypeErrorKindV::Unify(e))),
        },
    )
}

// ---- searching impls ----

/// Whether the targets from the `j`th on unify with the types in the same
/// places, and the substitution and the state after that.
pub open spec fn targets_match(
    st: InferV,
    targets: Vec<Type>,
    j: nat,
    query: Seq<TyV>,
    m: MappingV,
    trial: SubstV,
) -> (InferV, SubstV, bool)
    decreases targets@.len() - j,
{
    if j >= targets@.len() || j >= query.len() {
        (st, trial, true)
    } else {
        let (st1, pattern) = type_of(st, targets@[j as int], m);
        let (s, e) = unified(trial, pattern, query[j as int]);
        if e is Some {
            (st1, s, false)
        } else {
            targets_match(st1, targets, j + 1, query, m, s)
        }
    }
}

/// Whether the algebra has an impl for the types, of its own or by its bounds: an algebra
/// that names it among its bounds has one, or each of its own bounds, if it has several.
/// `asked` holds the algebras on whose behalf it is asked: that it has an impl if it has
/// one is no answer.
/// An impl that takes more than `d` further impls to apply does not count.
pub open spec fn impl_exists(
    d: nat,
    st: InferV,
    algebra: Seq<char>,
    tys: Seq<TyV>,
    asked: Seq<Seq<char>>,
) -> (InferV, bool)
    decreases d, 4nat, 0nat,
{
    if d == 0 || asked.contains(algebra) {
        (st, false)
    } else {
        let own = asked.push(algebra);
        let (st1, direct) = impl_direct(d, st, algebra, tys);
        if direct {
            (st1, true)
        } else {
            let (st2, inherited) = any_heir(
                d,
                st1,
                heirs_from(st.registry, 0, algebra),
                0,
                tys,
                own,
            );
            if inherited {
                (st2, true)
            } else {
                let bounds = st.registry.bounds_of(algebra);
                if bounds.len() < 2 {
                    (st2, false)
                } else {
                    every_bound(d, st2, bounds, 0, tys, own)
                }
            }
        }
    }
}

/// The algebras, from the `i`th on, that name the algebra among their bounds.
pub open spec fn heirs_from(r: Registry, i: nat, algebra: Seq<char>) -> Seq<Seq<char>>
    decreases r.algebras@.len() - i,
{
    if i >= r.algebras@.len() {
        Seq::empty()
    } else if views(r.algebras@[i as int].bounds@).contains(algebra) {
        seq![r.algebras@[i as int].name@] + heirs_from(r, i + 1, algebra)
    } else {
        heirs_from(r, i + 1, algebra)
    }
}

/// Whether one of the algebras from the `k`th on has an impl for the types.
pub open spec fn any_heir(
    d: nat,
    st: InferV,
    names: Seq<Seq<char>>,
    k: nat,
    tys: Seq<TyV>,
    asked: Seq<Seq<char>>,
) -> (InferV, bool)
    decreases d, 3nat, names.len() - k,
{
    if k >= names.len() || d == 0 {
        (st, false)
    } else {
        let (st1, found) = impl_exists((d - 1) as nat, st, names[k as int], tys, asked);
        if found {
            (st1, true)
        } else {
            any_heir(d, st1, names, k + 1, tys, asked)
        }
    }
}

/// Whether each of the algebras from the `k`th on has an impl for the types.
pub open spec fn every_bound(
    d: nat,
    st: InferV,
    names: Seq<Seq<char>>,
    k: nat,
    tys: Seq<TyV>,
    asked: Seq<Seq<char>>,
) -> (InferV, bool)
    decreases d, 3nat, names.len() - k,
{
    if k >= names.len() || d == 0 {
        (st, true)
    } else {
        let (st1, found) = impl_exists((d - 1) as nat, st, names[k as int], tys, asked);
        if !found {
            (st1, false)
        } else {
            every_bound(d, st1, names, k + 1, tys, asked)
        }
    }
}

/// Whether the algebra has an impl of its own for the types.
pub open spec fn impl_direct(d: nat, st: InferV, algebra: Seq<char>, tys: Seq<TyV>) -> (
    InferV,
    bool,
)
    decreases d, 3nat, 0nat,
{
    if tys.len() == 1 && named_from(st.registry, 0, algebra, ty_text(tys[0])) {
        (st, true)
    } else {
        let (st1, found) = matching_from(
            d,
            st.registry.impls@,
            st,
            0,
            algebra,
            tys,
            Seq::empty(),
        );
        (st1, found.len() > 0)
    }
}

/// The substitutions, after those of `acc`, under which the impls from the
/// `i`th on apply to the types.
pub open spec fn matching_from(
    d: nat,
    impls: Seq<ImplEntry>,
    st: InferV,
    i: nat,
    algebra: Seq<char>,
    query: Seq<TyV>,
    acc: Seq<SubstV>,
) -> (InferV, Seq<SubstV>)
    decreases d, 2nat, impls.len() - i,
{
    if i >= impls.len() {
        (st, acc)
    } else {
        let (st1, found) = impl_matches(d, st, impls[i as int], algebra, query);
        matching_from(
            d,
            impls,
            st1,
            i + 1,
            algebra,
            query,
            match found {
                Some(s) => acc.push(s),
                None => acc,
            },
        )
    }
}

/// The substitution under which an impl applies to the types, if it does.
pub open spec fn impl_matches(
    d: nat,
    st: InferV,
    entry: ImplEntry,
    algebra: Seq<char>,
    query: Seq<TyV>,
) -> (InferV, Option<SubstV>)
    decreases d, 1nat, 0nat,
{
    if entry.algebra@ != algebra || entry.targets@.len() != query.len() {
        (st, None)
    } else {
        let (st1, m) = fresh_for(st, entry.generics@, entry.generics@.len());
        let (st2, trial, all) = targets_match(st1, entry.targets, 0, query, m, st1.subst);
        if !all {
            (st2, None)
        } else {
            let (st3, met) = generics_met(d, st2, entry.generics@, 0, m, trial);
            (
                st3,
                if met {
                    Some(trial)
                } else {
                    None
                },
            )
        }
    }
}

/// Whether what the generics from the `i`th on stand for has the impls that
/// their bounds ask for.
pub open spec fn generics_met(
    d: nat,
    st: InferV,
    generics: Seq<GenericParam>,
    i: nat,
    m: MappingV,
    trial: SubstV,
) -> (InferV, bool)
    decreases d, 0nat, generics.len() - i,
{
    if i >= generics.len() || d == 0 {
        (st, true)
    } else {
        match generics[i as int] {
            GenericParam::Type { name, bounds, .. } => {
                let (st1, met) = bounds_met(
                    (d - 1) as nat,
                    st,
                    views(bounds@),
                    0,
                    applied(trial, m[name@]),
                );
                if !met {
                    (st1, false)
                } else {
                    generics_met(d, st1, generics, i + 1, m, trial)
                }
            },
            GenericParam::Const { .. } => generics_met(d, st, generics, i + 1, m, trial),
        }
    }
}

/// Whether the type has the impls that the bounds from the `k`th on ask for.
pub open spec fn bounds_met(d: nat, st: InferV, bounds: Seq<Seq<char>>, k: nat, ty: TyV) -> (
    InferV,
    bool,
)
    decreases d, 5nat, bounds.len() - k,
{
    if k >= bounds.len() {
        (st, true)
    } else {
        let (st1, found) = impl_exists(d, st, bounds[k as int], seq![ty], Seq::empty());
        if !found {
            (st1, false)
        } else {
            bounds_met(d, st1, bounds, k + 1, ty)
        }
    }
}

/// Whether the algebra has an impl for the types.
pub open spec fn impl_found(st: InferV, algebra: Seq<char>, tys: Seq<TyV>) -> (InferV, bool) {
    impl_exists(SEARCH_DEPTH as nat, st, algebra, tys, Seq::empty())
}

// ---- committing to an impl ----

/// What a candidate is called in a message.
pub open spec fn candidate_text(algebra: Seq<char>, tys: Seq<TyV>) -> Seq<char> {
    algebra + "<"@ + tys_text(tys) + ">"@
}

/// What the candidates from the `k`th on are called.
pub open spec fn candidate_texts(
    algebra: Seq<char>,
    found: Seq<SubstV>,
    n: nat,
    tys: Seq<TyV>,
) -> Seq<Seq<char>>
    decreases n,
{
    if n == 0 || n > found.len() {
        Seq::empty()
    } else {
        candidate_texts(algebra, found, (n - 1) as nat, tys).push(
            candidate_text(algebra, applied_all(found[n - 1], tys)),
        )
    }
}

/// Whether the candidates from the `k`th on make the types the same as the
/// first one does.
pub open spec fn candidates_agree(found: Seq<SubstV>, k: nat, tys: Seq<TyV>) -> bool
    decreases found.len() - k,
{
    k >= found.len() || (applied_all(found[k as int], tys) == applied_all(found[0], tys)
        && candidates_agree(found, k + 1, tys))
}

/// The impl that a call is dispatched to: the state takes over what it says of
/// the types. No impl gives `false`; impls that disagree are an error.
pub open spec fn dispatched(st: InferV, algebra: Seq<char>, tys: Seq<TyV>, span: Span) -> (
    InferV,
    Result<bool, TypeErrorV>,
) {
    if tys.len() == 1 && named_from(st.registry, 0, algebra, ty_text(tys[0])) {
        (st, Ok(true))
    } else {
        let (st1, found) = matching_from(
            SEARCH_DEPTH as nat,
            st.registry.impls@,
            st,
            0,
            algebra,
            tys,
            Seq::empty(),
        );
        if found.len() == 0 {
            (st1, Ok(false))
        } else if !candidates_agree(found, 1, tys) {
            (
                st1,
                Err(
                    error_at(
                        span,
                        TypeErrorKindV::AmbiguousDispatch {
                            algebra,
                            candidates: candidate_texts(algebra, found, found.len(), tys),
                        },
                    ),
                ),
            )
        } else {
            (InferV { subst: found[0], ..st1 }, Ok(true))
        }
    }
}

pub open spec fn bool_result(r: Result<bool, TypeError>) -> Result<bool, TypeErrorV> {
    match r {
        Ok(b) => Ok(b),
        Err(e) => Err(e@),
    }
}

impl<'r> Infer<'r> {
    /// Unifies two types on behalf of a place.
    pub(crate) fn unify_at(&mut self, span: Span, a: &Ty, b: &Ty) -> (r: Result<(), TypeError>)
        ensures
            unified_at(old(self)@, span, a@, b@) == (final(self)@, unit_result(r)),
    {
        match unify(&mut self.subst, a, b) {
            Ok(_) => Ok(()),
            Err(e) => Err(TypeError { span, kind: TypeErrorKind::Unify(e) }),
        }
    }

    fn match_targets(
        &mut self,
        targets: &Vec<Type>,
        query: &Vec<Ty>,
        mapping: &Mapping,
        trial: &mut Subst,
    ) -> (r: bool)
        ensures
            targets_match(
                old(self)@,
                *targets,
                0,
                views(query@),
                mapping@,
                old(trial)@,
            ) == (final(self)@, final(trial)@, r),
    {
        let mut j: usize = 0;
        while j < targets.len() && j < query.len()
            invariant
                j <= targets.len(),
                targets_match(
                    old(self)@,
                    *targets,
                    0,
                    views(query@),
                    mapping@,
                    old(trial)@,
                ) == targets_match(
                    self@,
                    *targets,
                    j as nat,
                    views(query@),
                    mapping@,
                    trial@,
                ),
            decreases targets.len() - j,
        {
            let pattern: Ty = self.ty_from_ast_mapped(&targets[j], mapping);
            if unify(trial, &pattern, &query[j]).is_err() {
                return false;
            }
            j = j + 1;
        }
        true
    }

    fn has_matching_impl_inherited(
        &mut self,
        depth: u32,
        algebra: &String,
        tys: &Vec<Ty>,
        asked: &Vec<String>,
    ) -> (r: bool)
        ensures
            impl_exists(
                depth as nat,
                old(self)@,
                algebra@,
                views(tys@),
                views(asked@),
            ) == (final(self)@, r),
        decreases depth, 4nat, 0nat,
    {
        if depth == 0 || holds_name(asked, algebra) {
            return false;
        }
        let mut own: Vec<String> = dup_names(asked);
        own.push(algebra.clone());
        let registry = self.registry;
        if self.match_impl(depth, algebra, tys) {
            return true;
        }
        let heirs: Vec<String> = algebras_bounded_by(registry, algebra);
        if self.any_heir_matches(depth, &heirs, tys, &own) {
            return true;
        }
        match registry.algebra(algebra.as_str()) {
            None => false,
            Some(entry) => {
                if entry.bounds.len() < 2 {
                    return false;
                }
                self.every_bound_matches(depth, &entry.bounds, tys, &own)
            },
        }
    }

    fn any_heir_matches(
        &mut self,
        depth: u32,
        names: &Vec<String>,
        tys: &Vec<Ty>,
        asked: &Vec<String>,
    ) -> (r: bool)
        requires
            depth > 0,
        ensures
            any_heir(
                depth as nat,
                old(self)@,
                views(names@),
                0,
                views(tys@),
                views(asked@),
            ) == (final(self)@, r),
        decreases depth, 3nat, 0nat,
    {
        let mut k: usize = 0;
        while k < names.len()
            invariant
                k <= names.len(),
                depth > 0,
                any_heir(
                    depth as nat,
                    old(self)@,
                    views(names@),
                    0,
                    views(tys@),
                    views(asked@),
                ) == any_heir(
                    depth as nat,
                    self@,
                    views(names@),
                    k as nat,
                    views(tys@),
                    views(asked@),
                ),
            decreases names.len() - k,
        {
            if self.has_matching_impl_inherited(depth - 1, &names[k], tys, asked) {
                return true;
            }
            k = k + 1;
        }
        false
    }

    fn every_bound_matches(
        &mut self,
        depth: u32,
        names: &Vec<String>,
        tys: &Vec<Ty>,
        asked: &Vec<String>,
    ) -> (r: bool)
        requires
            depth > 0,
        ensures
            every_bound(
                depth as nat,
                old(self)@,
                views(names@),
                0,
                views(tys@),
                views(asked@),
            ) == (final(self)@, r),
        decreases depth, 3nat, 0nat,
    {
        let mut k: usize = 0;
        while k < names.len()
            invariant
                k <= names.len(),
                depth > 0,
                every_bound(
                    depth as nat,
                    old(self)@,
                    views(names@),
                    0,
                    views(tys@),
                    views(asked@),
                ) == every_bound(
                    depth as nat,
                    self@,
                    views(names@),
                    k as nat,
                    views(tys@),
                    views(asked@),
                ),
            decreases names.len() - k,
        {
            if !self.has_matching_impl_inherited(depth - 1, &names[k], tys, asked) {
                return false;
            }
            k = k + 1;
        }
        true
    }

    fn match_impl(&mut self, depth: u32, algebra: &String, query: &Vec<Ty>) -> (r: bool)
        ensures
            impl_direct(depth as nat, old(self)@, algebra@, views(query@)) == (final(self)@, r),
        decreases depth, 3nat, 0nat,
    {
        if query.len() == 1 {
            let text: String = query[0].to_text();
            if self.registry.has_impl_named(algebra.as_str(), text.as_str()) {
                return true;
            }
        }
        let found: Vec<Subst> = self.matching_impls(depth, algebra, query);
        found.len() > 0
    }

    fn matching_impls(&mut self, depth: u32, algebra: &String, query: &Vec<Ty>) -> (r: Vec<Subst>)
        ensures
            matching_from(
                depth as nat,
                old(self)@.registry.impls@,
                old(self)@,
                0,
                algebra@,
                views(query@),
                Seq::empty(),
            ) == (final(self)@, views(r@)),
        decreases depth, 2nat, 0nat,
    {
        let registry = self.registry;
        let mut out: Vec<Subst> = Vec::new();
        let mut i: usize = 0;
        while i < registry.impls.len()
            invariant
                i <= registry.impls.len(),
                registry.impls@ == old(self)@.registry.impls@,
                matching_from(
                    depth as nat,
                    old(self)@.registry.impls@,
                    old(self)@,
                    0,
                    algebra@,
                    views(query@),
                    Seq::empty(),
                ) == matching_from(
                    depth as nat,
                    registry.impls@,
                    self@,
                    i as nat,
                    algebra@,
                    views(query@),
                    views(out@),
                ),
            decreases registry.impls.len() - i,
        {
            if let Some(trial) = self.impl_trial(depth, &registry.impls[i], algebra, query) {
                out.push(trial);
            }
            i = i + 1;
        }
        out
    }

    fn impl_trial(
        &mut self,
        depth: u32,
        entry: &ImplEntry,
        algebra: &String,
        query: &Vec<Ty>,
    ) -> (r: Option<Subst>)
        ensures
            match r {
                Some(s) => impl_matches(
                    depth as nat,
                    old(self)@,
                    *entry,
                    algebra@,
                    views(query@),
                ) == (final(self)@, Some(s@)),
                None => impl_matches(
                    depth as nat,
                    old(self)@,
                    *entry,
                    algebra@,
                    views(query@),
                ) == (final(self)@, None::<SubstV>),
            },
        decreases depth, 1nat, 0nat,
    {
        if entry.algebra != *algebra || entry.targets.len() != query.len() {
            return None;
        }
        let mapping: Mapping = self.fresh_vars_for_generics(entry.generics.as_slice());
        let ghost opened = old(self)@;
        let mut trial: Subst = self.subst.dup();
        if !self.match_targets(&entry.targets, query, &mapping, &mut trial) {
            return None;
        }
        if self.generics_are_met(depth, &entry.generics, &mapping, &trial, Ghost(opened)) {
            Some(trial)
        } else {
            None
        }
    }

    fn generics_are_met(
        &mut self,
        depth: u32,
        generics: &Vec<GenericParam>,
        mapping: &Mapping,
        trial: &Subst,
        Ghost(opened): Ghost<InferV>,
    ) -> (r: bool)
        requires
            mapping@ == fresh_for(opened, generics@, generics@.len()).1,
        ensures
            generics_met(depth as nat, old(self)@, generics@, 0, mapping@, trial@) == (
                final(self)@,
                r,
            ),
        decreases depth, 0nat, 0nat,
    {
        if depth == 0 {
            return true;
        }
        let mut i: usize = 0;
        while i < generics.len()
            invariant
                i <= generics.len(),
                depth > 0,
                mapping@ == fresh_for(opened, generics@, generics@.len()).1,
                generics_met(depth as nat, old(self)@, generics@, 0, mapping@, trial@)
                    == generics_met(
                    depth as nat,
                    self@,
                    generics@,
                    i as nat,
                    mapping@,
                    trial@,
                ),
            decreases generics.len() - i,
        {
            proof {
                lemma_fresh_for_names(opened, generics@, generics@.len(), i as int);
            }
            if let GenericParam::Type { name, bounds, .. } = &generics[i] {
                if let Some(arg) = mapping.get(name) {
                    let resolved: Ty = trial.apply(arg);
                    if !self.bounds_are_met(depth - 1, bounds, &resolved) {
                        return false;
                    }
                }
            }
            i = i + 1;
        }
        true
    }

    fn bounds_are_met(&mut self, depth: u32, bounds: &Vec<String>, ty: &Ty) -> (r: bool)
        ensures
            bounds_met(depth as nat, old(self)@, views(bounds@), 0, ty@) == (final(self)@, r),
        decreases depth, 5nat, 0nat,
    {
        let mut query: Vec<Ty> = Vec::new();
        query.push(ty.dup());
        assert(views(query@) =~= seq![ty@]);
        let mut k: usize = 0;
        while k < bounds.len()
            invariant
                k <= bounds.len(),
                views(query@) == seq![ty@],
                bounds_met(depth as nat, old(self)@, views(bounds@), 0, ty@) == bounds_met(
                    depth as nat,
                    self@,
                    views(bounds@),
                    k as nat,
                    ty@,
                ),
            decreases bounds.len() - k,
        {
            let asked: Vec<String> = Vec::new();
            if !self.has_matching_impl_inherited(depth, &bounds[k], &query, &asked) {
                return false;
            }
            k = k + 1;
        }
        true
    }

    /// Whether the algebra has an impl for the types.
    pub(crate) fn has_matching_impl(&mut self, algebra: &String, tys: &Vec<Ty>) -> (r: bool)
        ensures
            impl_found(old(self)@, algebra@, views(tys@)) == (final(self)@, r),
    {
        let asked: Vec<String> = Vec::new();
        self.has_matching_impl_inherited(SEARCH_DEPTH, algebra, tys, &asked)
    }

    /// Commits to the impl that a call is dispatched to.
    pub(crate) fn dispatch_algebra_call(&mut self, algebra: &String, tys: &Vec<Ty>, span: Span) -> (
    r: Result<bool, TypeError>)
        ensures
            dispatched(old(self)@, algebra@, views(tys@), span) == (final(self)@, bool_result(r)),
    {
        if tys.len() == 1 {
            let text: String = tys[0].to_text();
            if self.registry.has_impl_named(algebra.as_str(), text.as_str()) {
                return Ok(true);
            }
        }
        let mut found: Vec<Subst> = self.matching_impls(SEARCH_DEPTH, algebra, tys);
        if found.len() == 0 {
            return Ok(false);
        }
        if !all_candidates_agree(&found, tys) {
            let candidates: Vec<String> = list_candidates(algebra, &found, tys);
            return Err(
                TypeError {
                    span,
                    kind: TypeErrorKind::AmbiguousDispatch { algebra: algebra.clone(), candidates },
                },
            );
        }
        self.subst = found[0].dup();
        Ok(true)
    }
}

/// The algebras that name the algebra among their bounds.
fn algebras_bounded_by(registry: &Registry, algebra: &String) -> (r: Vec<String>)
    ensures
        views(r@) == heirs_from(*registry, 0, algebra@),
{
    let mut out: Vec<String> = Vec::new();
    let mut i: usize = 0;
    while i < registry.algebras.len()
        invariant
            i <= registry.algebras.len(),
            heirs_from(*registry, 0, algebra@) == views(out@) + heirs_from(
                *registry,
                i as nat,
                algebra@,
            ),
        decreases registry.algebras.len() - i,
    {
        let a = &registry.algebras[i];
        if holds_name(&a.bounds, algebra) {
            let ghost before = views(out@);
            out.push(a.name.clone());
            assert(before + (seq![a.name@] + heirs_from(*registry, (i + 1) as nat, algebra@))
                =~= views(out@) + heirs_from(*registry, (i + 1) as nat, algebra@));
        }
        i = i + 1;
    }
    out
}

fn all_candidates_agree(found: &Vec<Subst>, tys: &Vec<Ty>) -> (r: bool)
    requires
        found.len() > 0,
    ensures
        r == candidates_agree(views(found@), 1, views(tys@)),
{
    let first: Vec<Ty> = found[0].apply_all(tys);
    let mut k: usize = 1;
    while k < found.len()
        invariant
            1 <= k <= found.len(),
            views(first@) == applied_all(found@[0]@, views(tys@)),
            candidates_agree(views(found@), 1, views(tys@)) == candidates_agree(
                views(found@),
                k as nat,
                views(tys@),
            ),
        decreases found.len() - k,
    {
        let other: Vec<Ty> = found[k].apply_all(tys);
        if !same_tys(&other, &first) {
            return false;
        }
        k = k + 1;
    }
    true
}

fn list_candidates(algebra: &String, found: &Vec<Subst>, tys: &Vec<Ty>) -> (r: Vec<String>)
    ensures
        views(r@) == candidate_texts(algebra@, views(found@), found@.len(), views(tys@)),
{
    let mut out: Vec<String> = Vec::new();
    let mut k: usize = 0;
    while k < found.len()
        invariant
            k <= found.len(),
            views(out@) == candidate_texts(algebra@, views(found@), k as nat, views(tys@)),
        decreases found.len() - k,
    {
        let resolved: Vec<Ty> = found[k].apply_all(tys);
        let mut text: String = algebra.clone();
        text.append("<");
        text.append(list_text(&resolved).as_str());
        text.append(">");
        out.push(text);
        k = k + 1;
    }
    out
}

} // verus!
