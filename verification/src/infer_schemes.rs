//! Generalizing a type into a scheme, and using a scheme.

use vstd::prelude::*;

use crate::ast::GenericParam;
use crate::errors::{error_at, TypeError, TypeErrorKind, TypeErrorKindV, TypeErrorV};
use crate::infer_overlap::{conflict, unsatisfiable_bounds};
use crate::infer_state::{
    demanding, dup_places, minted, mono, next_var, Constraint, ConstraintV, Env, EnvV, Infer,
    InferV, Mapping, MappingV, Scheme, SchemeV,
};
use crate::infer_types::width_given;
use crate::registry::Registry;
use crate::subst::{applied, applied_all, width_of, SubstV};
use crate::table::{
    group_views, holds_number, lemma_with_numbers, put_number, put_numbers, views, Dup, Table,
};
use crate::ty::{group_ty, lemma_ty_view, Ty, TyV};
use crate::types::{
    free_of, free_vars, free_vars_all, lemma_free_vars, mentions, substitute, substitute_all,
    substituted, substituted_all, with_free,
};

verus! {

broadcast use {group_views, group_ty};

// ---- quantified variables ----

/// The variables that the generics of a mapping are.
pub open spec fn generic_vars(s: SubstV, m: MappingV) -> Set<u32> {
    Set::new(
        |v: u32|
            exists|n: Seq<char>| #[trigger] m.contains_key(n) && applied(s, m[n]) == TyV::Var(v),
    )
}

/// The state after the generics of an impl were quantified.
pub open spec fn generics_quantified(st: InferV, m: MappingV) -> InferV {
    InferV { quantified: st.quantified.union(generic_vars(st.subst, m)), ..st }
}

/// The names in scope with the constants among the first `n` generics added.
pub open spec fn consts_seeded(
    env: EnvV,
    generics: Seq<GenericParam>,
    n: nat,
    m: MappingV,
) -> EnvV
    decreases n,
{
    if n == 0 || n > generics.len() {
        env
    } else {
        let before = consts_seeded(env, generics, (n - 1) as nat, m);
        match generics[n - 1] {
            GenericParam::Const { name, .. } => if m.contains_key(name@) {
                before.insert(name@, mono(m[name@]))
            } else {
                before
            },
            GenericParam::Type { .. } => before,
        }
    }
}

// ---- generalizing ----

/// Whether the variable is free in the type of a name in scope.
pub open spec fn free_in_env(s: SubstV, env: EnvV, v: u32) -> bool {
    exists|n: Seq<char>| #[trigger]
        env.contains_key(n) && mentions(applied(s, env[n].ty), v) && !env[n].vars.contains(v)
}

/// Those of the first `n` variables that are free in the type of no name in
/// scope.
pub open spec fn own_vars(s: SubstV, env: EnvV, fv: Seq<u32>, n: nat) -> Seq<u32>
    decreases n,
{
    if n == 0 || n > fv.len() {
        Seq::empty()
    } else {
        let before = own_vars(s, env, fv, (n - 1) as nat);
        if free_in_env(s, env, fv[n - 1]) {
            before
        } else {
            before.push(fv[n - 1])
        }
    }
}

/// Whether one of the variables is in `vars`.
pub open spec fn shares_var(fv: Seq<u32>, vars: Seq<u32>) -> bool {
    exists|i: int| 0 <= i < fv.len() && vars.contains(#[trigger] fv[i])
}

/// A constraint as it is known.
pub open spec fn constraint_applied(s: SubstV, c: ConstraintV) -> ConstraintV {
    ConstraintV { tys: applied_all(s, c.tys), ..c }
}

/// Those of the first `n` constraints that speak of one of the variables, as
/// they are known.
pub open spec fn constraints_on(
    s: SubstV,
    cs: Seq<ConstraintV>,
    n: nat,
    vars: Seq<u32>,
) -> Seq<ConstraintV>
    decreases n,
{
    if n == 0 || n > cs.len() {
        Seq::empty()
    } else {
        let before = constraints_on(s, cs, (n - 1) as nat, vars);
        let c = constraint_applied(s, cs[n - 1]);
        if shares_var(free_of(c.tys), vars) {
            before.push(c)
        } else {
            before
        }
    }
}

/// The variable that a constraint of a declared algebra is on, if it is on one
/// variable alone.
pub open spec fn sole_var(r: Registry, c: ConstraintV) -> Option<u32> {
    if c.tys.len() == 1 && r.declares_algebra(c.algebra) {
        match c.tys[0] {
            TyV::Var(v) => Some(v),
            _ => None,
        }
    } else {
        None
    }
}

/// The algebras that the first `n` constraints ask of the variable alone.
pub open spec fn algebras_on(r: Registry, cs: Seq<ConstraintV>, n: nat, v: u32) -> Seq<Seq<char>>
    decreases n,
{
    if n == 0 || n > cs.len() {
        Seq::empty()
    } else {
        let before = algebras_on(r, cs, (n - 1) as nat, v);
        if sole_var(r, cs[n - 1]) == Some(v) {
            before.push(cs[n - 1].algebra)
        } else {
            before
        }
    }
}

/// The error of the first constraint, from the `k`th on, whose variable no type
/// can stand for.
pub open spec fn scheme_conflict(r: Registry, cs: Seq<ConstraintV>, k: nat) -> Option<TypeErrorV>
    decreases cs.len() - k,
{
    if k >= cs.len() {
        None
    } else {
        match sole_var(r, cs[k as int]) {
            None => scheme_conflict(r, cs, k + 1),
            Some(v) => match conflict(r, algebras_on(r, cs, cs.len(), v)) {
                Some(algebras) => Some(
                    error_at(
                        cs[k as int].span,
                        TypeErrorKindV::UnsatisfiableScheme { algebras },
                    ),
                ),
                None => scheme_conflict(r, cs, k + 1),
            },
        }
    }
}

/// The widths of those of the first `n` variables that have one.
pub open spec fn widths_of(s: SubstV, vars: Seq<u32>, n: nat) -> Seq<(u32, TyV)>
    decreases n,
{
    if n == 0 || n > vars.len() {
        Seq::empty()
    } else {
        let before = widths_of(s, vars, (n - 1) as nat);
        match width_of(s, vars[n - 1]) {
            Some(width) => before.push((vars[n - 1], width)),
            None => before,
        }
    }
}

/// The scheme of a type among the names in scope.
pub open spec fn generalized(st: InferV, env: EnvV, ty: TyV) -> (InferV, Result<
    SchemeV,
    TypeErrorV,
>) {
    let t = applied(st.subst, ty);
    let fv = with_free(t, Seq::empty());
    let vars = own_vars(st.subst, env, fv, fv.len());
    let st1 = InferV { quantified: st.quantified.union(vars.to_set()), ..st };
    let cs = constraints_on(st.subst, st.constraints, st.constraints.len(), vars);
    match scheme_conflict(st.registry, cs, 0) {
        Some(e) => (st1, Err(e)),
        None => (
            st1,
            Ok(
                SchemeV {
                    vars,
                    constraints: cs,
                    ty: t,
                    widths: widths_of(st.subst, vars, vars.len()),
                },
            ),
        ),
    }
}

pub open spec fn scheme_result(r: Result<Scheme, TypeError>) -> Result<SchemeV, TypeErrorV> {
    match r {
        Ok(s) => Ok(s@),
        Err(e) => Err(e@),
    }
}

// ---- using a scheme ----

/// A fresh variable for each of the first `n` variables.
pub open spec fn fresh_each(st: InferV, vars: Seq<u32>, n: nat) -> (InferV, Map<u32, TyV>)
    decreases n,
{
    if n == 0 || n > vars.len() {
        (st, Map::empty())
    } else {
        let (st1, m) = fresh_each(st, vars, (n - 1) as nat);
        (minted(st1), m.insert(vars[n - 1], next_var(st1)))
    }
}

/// The state with the constraints from the `k`th on demanded of other variables.
pub open spec fn demands_renamed(
    st: InferV,
    cs: Seq<ConstraintV>,
    k: nat,
    m: Map<u32, TyV>,
) -> InferV
    decreases cs.len() - k,
{
    if k >= cs.len() {
        st
    } else {
        let c = cs[k as int];
        demands_renamed(
            demanding(st, ConstraintV { tys: substituted_all(c.tys, m), ..c }),
            cs,
            k + 1,
            m,
        )
    }
}

/// The state with the widths from the `k`th on given to other variables.
pub open spec fn widths_renamed(
    st: InferV,
    widths: Seq<(u32, TyV)>,
    k: nat,
    m: Map<u32, TyV>,
) -> InferV
    decreases widths.len() - k,
{
    if k >= widths.len() {
        st
    } else {
        let (v, w) = widths[k as int];
        let st1 = if m.contains_key(v) {
            width_given(st, m[v], w)
        } else {
            st
        };
        widths_renamed(st1, widths, k + 1, m)
    }
}

/// A scheme's type with fresh variables for those that may be chosen.
pub open spec fn instantiated(st: InferV, s: SchemeV) -> (InferV, TyV, Map<u32, TyV>) {
    let (st1, m) = fresh_each(st, s.vars, s.vars.len());
    let st2 = demands_renamed(st1, s.constraints, 0, m);
    let st3 = widths_renamed(st2, s.widths, 0, m);
    (st3, substituted(s.ty, m), m)
}

/// The widths of a scheme as they are known.
pub open spec fn widths_applied(s: SubstV, widths: Seq<(u32, TyV)>) -> Seq<(u32, TyV)> {
    Seq::new(widths.len(), |i: int| (widths[i].0, applied(s, widths[i].1)))
}

/// A scheme as it is known.
pub open spec fn scheme_applied(s: SubstV, x: SchemeV) -> SchemeV {
    SchemeV { ty: applied(s, x.ty), widths: widths_applied(s, x.widths), ..x }
}

/// The state with the schemes of lambdas as they are known.
pub open spec fn lambdas_resolved(st: InferV) -> InferV {
    InferV { lambdas: st.lambdas.map_values(|x: SchemeV| scheme_applied(st.subst, x)), ..st }
}

/// The state with the types of nodes as they are known.
pub open spec fn nodes_resolved(st: InferV) -> InferV {
    InferV { node_types: st.node_types.map_values(|t: TyV| applied(st.subst, t)), ..st }
}

impl<'r> Infer<'r> {
    /// Quantifies the generics of an impl.
    pub(crate) fn quantify_impl_generics(&mut self, mapping: &Mapping)
        ensures
            final(self)@ == generics_quantified(old(self)@, mapping@),
    {
        let n: usize = mapping.rows();
        let mut i: usize = 0;
        let ghost start = old(self)@.quantified;
        let ghost subst = self@.subst;
        proof {
            mapping.lemma_first_rows(0);
        }
        while i < n
            invariant
                i <= n,
                n == mapping.row_count(),
                subst == old(self)@.subst,
                start == old(self)@.quantified,
                self@ == (InferV { quantified: self@.quantified, ..old(self)@ }),
                forall|v: u32| #[trigger]
                    self@.quantified.contains(v) ==> start.contains(v) || generic_vars(
                        subst,
                        mapping@,
                    ).contains(v),
                forall|v: u32| #[trigger] start.contains(v) ==> self@.quantified.contains(v),
                forall|k: Seq<char>| #[trigger]
                    mapping.first_rows(i as int).contains_key(k) && mapping@.contains_key(k) ==> (
                    applied(subst, mapping@[k]) matches TyV::Var(v)
                        ==> self@.quantified.contains(v)),
            decreases n - i,
        {
            proof {
                mapping.lemma_first_rows((i + 1) as int);
            }
            let key = &mapping.row(i).0;
            if let Some(t) = mapping.get(key) {
                let resolved: Ty = self.subst.apply(t);
                proof {
                    lemma_ty_view(resolved);
                }
                if let Ty::Var(v) = &resolved {
                    let ghost before = self.quantified@;
                    put_number(&mut self.quantified, v.0);
                    proof {
                        crate::table::lemma_with_number(before, v.0);
                        assert(self.quantified@.to_set() =~= before.to_set().insert(v.0));
                        assert(mapping@.contains_key(key@));
                        assert(generic_vars(subst, mapping@).contains(v.0));
                    }
                }
            }
            i = i + 1;
        }
        proof {
            mapping.lemma_first_rows(n as int);
            assert forall|v: u32| generic_vars(subst, mapping@).contains(v) implies #[trigger]
            self@.quantified.contains(v) by {
                let k = choose|k: Seq<char>| #[trigger]
                    mapping@.contains_key(k) && applied(subst, mapping@[k]) == TyV::Var(v);
                assert(mapping.first_rows(n as int).contains_key(k));
            }
            assert(self@.quantified =~= start.union(generic_vars(subst, mapping@)));
        }
    }

    /// Adds the constants among generics to the names in scope.
    pub(crate) fn seed_const_generics(
        &self,
        generics: &[GenericParam],
        mapping: &Mapping,
        env: &mut Env,
    )
        ensures
            final(env)@ == consts_seeded(old(env)@, generics@, generics@.len(), mapping@),
    {
        let mut i: usize = 0;
        while i < generics.len()
            invariant
                i <= generics.len(),
                env@ == consts_seeded(old(env)@, generics@, i as nat, mapping@),
            decreases generics.len() - i,
        {
            if let GenericParam::Const { name, .. } = &generics[i] {
                if let Some(t) = mapping.get(name) {
                    env.insert(name.clone(), Scheme::mono(t.dup()));
                }
            }
            i = i + 1;
        }
    }

    fn is_free_in_env(&self, env: &Env, v: u32) -> (r: bool)
        ensures
            r == free_in_env(self@.subst, env@, v),
    {
        let n: usize = env.rows();
        let mut i: usize = 0;
        proof {
            env.lemma_first_rows(0);
        }
        while i < n
            invariant
                i <= n,
                n == env.row_count(),
                forall|k: Seq<char>| #[trigger]
                    env.first_rows(i as int).contains_key(k) && env@.contains_key(k) ==> !(
                    mentions(applied(self@.subst, env@[k].ty), v) && !env@[k].vars.contains(v)),
            decreases n - i,
        {
            proof {
                env.lemma_first_rows((i + 1) as int);
            }
            let key = &env.row(i).0;
            if let Some(scheme) = env.get(key) {
                let resolved: Ty = self.subst.apply(&scheme.ty);
                let mut fv: Vec<u32> = Vec::new();
                free_vars(&resolved, &mut fv);
                proof {
                    lemma_free_vars(resolved@, Seq::empty());
                }
                if holds_number(&fv, v) && !holds_number(&scheme.vars, v) {
                    assert(env@.contains_key(key@));
                    return true;
                }
            }
            i = i + 1;
        }
        proof {
            env.lemma_first_rows(n as int);
            assert forall|k: Seq<char>| #[trigger] env@.contains_key(k) implies !(mentions(
                applied(self@.subst, env@[k].ty),
                v,
            ) && !env@[k].vars.contains(v)) by {
                assert(env.first_rows(n as int).contains_key(k));
            }
        }
        false
    }

    fn constraint_on(&self, c: &Constraint, vars: &Vec<u32>) -> (r: Option<Constraint>)
        ensures
            match r {
                Some(x) => shares_var(
                    free_of(applied_all(self@.subst, c@.tys)),
                    vars@,
                ) && x@ == constraint_applied(self@.subst, c@),
                None => !shares_var(free_of(applied_all(self@.subst, c@.tys)), vars@),
            },
    {
        let tys: Vec<Ty> = self.subst.apply_all(&c.tys);
        let mut fv: Vec<u32> = Vec::new();
        free_vars_all(&tys, &mut fv);
        assert(fv@ == free_of(applied_all(self@.subst, c@.tys)));
        let mut i: usize = 0;
        while i < fv.len()
            invariant
                i <= fv.len(),
                views(tys@) == applied_all(self@.subst, c@.tys),
                fv@ == free_of(applied_all(self@.subst, c@.tys)),
                forall|j: int| 0 <= j < i ==> !vars@.contains(#[trigger] fv@[j]),
            decreases fv.len() - i,
        {
            if holds_number(vars, fv[i]) {
                assert(vars@.contains(fv@[i as int]));
                return Some(
                    Constraint {
                        algebra: c.algebra.clone(),
                        tys,
                        gating_indices: dup_places(&c.gating_indices),
                        span: c.span,
                    },
                );
            }
            i = i + 1;
        }
        None
    }

    fn list_constraints_on(&self, vars: &Vec<u32>) -> (r: Vec<Constraint>)
        ensures
            views(r@) == constraints_on(
                self@.subst,
                self@.constraints,
                self@.constraints.len(),
                vars@,
            ),
    {
        let mut out: Vec<Constraint> = Vec::new();
        let mut i: usize = 0;
        while i < self.constraints.len()
            invariant
                i <= self.constraints.len(),
                views(out@) == constraints_on(
                    self@.subst,
                    self@.constraints,
                    i as nat,
                    vars@,
                ),
            decreases self.constraints.len() - i,
        {
            assert(self@.constraints[i as int] == self.constraints@[i as int]@);
            if let Some(c) = self.constraint_on(&self.constraints[i], vars) {
                out.push(c);
            }
            i = i + 1;
        }
        out
    }

    /// The constraints that speak of a variable of the type, as they are known.
    pub(crate) fn constraints_touching(&self, ty: &Ty) -> (r: Vec<Constraint>)
        ensures
            views(r@) == constraints_on(
                self@.subst,
                self@.constraints,
                self@.constraints.len(),
                with_free(applied(self@.subst, ty@), Seq::empty()),
            ),
    {
        let resolved: Ty = self.subst.apply(ty);
        let mut fv: Vec<u32> = Vec::new();
        free_vars(&resolved, &mut fv);
        self.list_constraints_on(&fv)
    }

    /// The scheme of a type among the names in scope.
    pub(crate) fn generalize(&mut self, env: &Env, ty: &Ty) -> (r: Result<Scheme, TypeError>)
        ensures
            generalized(old(self)@, env@, ty@) == (final(self)@, scheme_result(r)),
    {
        let registry = self.registry;
        let t: Ty = self.subst.apply(ty);
        let mut fv: Vec<u32> = Vec::new();
        free_vars(&t, &mut fv);
        let mut vars: Vec<u32> = Vec::new();
        let mut i: usize = 0;
        while i < fv.len()
            invariant
                i <= fv.len(),
                self@ == old(self)@,
                vars@ == own_vars(self@.subst, env@, fv@, i as nat),
            decreases fv.len() - i,
        {
            if !self.is_free_in_env(env, fv[i]) {
                vars.push(fv[i]);
            }
            i = i + 1;
        }
        let constraints: Vec<Constraint> = self.list_constraints_on(&vars);
        let mut const_widths: Vec<(u32, Ty)> = Vec::new();
        let mut k: usize = 0;
        while k < vars.len()
            invariant
                k <= vars.len(),
                self@ == old(self)@,
                views(const_widths@) == widths_of(self@.subst, vars@, k as nat),
            decreases vars.len() - k,
        {
            if let Some(w) = self.subst.const_width(vars[k]) {
                const_widths.push((vars[k], w));
            }
            k = k + 1;
        }
        let ghost before = self.quantified@;
        put_numbers(&mut self.quantified, &vars);
        proof {
            lemma_with_numbers(before, vars@);
            assert(self.quantified@.to_set() =~= before.to_set().union(vars@.to_set()));
        }
        if let Some(e) = find_scheme_conflict(registry, &constraints) {
            return Err(e);
        }
        Ok(Scheme { vars, constraints, ty: t, const_widths })
    }

    fn fresh_for_each(&mut self, vars: &Vec<u32>) -> (r: Table<u32, Ty>)
        ensures
            fresh_each(old(self)@, vars@, vars@.len()) == (final(self)@, r@),
    {
        let mut out: Table<u32, Ty> = Table::new();
        let mut i: usize = 0;
        while i < vars.len()
            invariant
                i <= vars.len(),
                fresh_each(old(self)@, vars@, i as nat) == (self@, out@),
            decreases vars.len() - i,
        {
            let t: Ty = self.fresh();
            out.insert(vars[i], t);
            i = i + 1;
        }
        out
    }

    /// A scheme's type with fresh variables, and what stands for which.
    pub(crate) fn instantiate_with_mapping(&mut self, scheme: &Scheme) -> (r: (Ty, Table<u32, Ty>))
        ensures
            instantiated(old(self)@, scheme@) == (final(self)@, r.0@, r.1@),
    {
        let mapping: Table<u32, Ty> = self.fresh_for_each(&scheme.vars);
        let ghost opened = self@;
        let mut k: usize = 0;
        while k < scheme.constraints.len()
            invariant
                k <= scheme.constraints.len(),
                demands_renamed(opened, scheme@.constraints, 0, mapping@) == demands_renamed(
                    self@,
                    scheme@.constraints,
                    k as nat,
                    mapping@,
                ),
            decreases scheme.constraints.len() - k,
        {
            let c = &scheme.constraints[k];
            assert(scheme@.constraints[k as int] == c@);
            self.demand(
                Constraint {
                    algebra: c.algebra.clone(),
                    tys: substitute_all(&c.tys, &mapping),
                    gating_indices: dup_places(&c.gating_indices),
                    span: c.span,
                },
            );
            k = k + 1;
        }
        let ghost demanded = self@;
        let mut w: usize = 0;
        while w < scheme.const_widths.len()
            invariant
                w <= scheme.const_widths.len(),
                widths_renamed(demanded, scheme@.widths, 0, mapping@) == widths_renamed(
                    self@,
                    scheme@.widths,
                    w as nat,
                    mapping@,
                ),
            decreases scheme.const_widths.len() - w,
        {
            assert(scheme@.widths[w as int] == scheme.const_widths@[w as int]@);
            if let Some(t) = mapping.get(&scheme.const_widths[w].0) {
                self.give_width(t, scheme.const_widths[w].1.dup());
            }
            w = w + 1;
        }
        (substitute(&scheme.ty, &mapping), mapping)
    }

    /// A scheme's type with fresh variables.
    pub(crate) fn instantiate(&mut self, scheme: &Scheme) -> (r: Ty)
        ensures
            ({
                let (st, t, _) = instantiated(old(self)@, scheme@);
                st == final(self)@ && t == r@
            }),
    {
        self.instantiate_with_mapping(scheme).0
    }

    fn resolve_scheme(&self, scheme: &Scheme) -> (r: Scheme)
        ensures
            r@ == scheme_applied(self@.subst, scheme@),
    {
        let mut out: Scheme = scheme.dup();
        out.ty = self.subst.apply(&scheme.ty);
        let mut widths: Vec<(u32, Ty)> = Vec::new();
        let mut i: usize = 0;
        while i < scheme.const_widths.len()
            invariant
                i <= scheme.const_widths.len(),
                widths.len() == i,
                forall|j: int|
                    0 <= j < i ==> (#[trigger] widths@[j])@ == (
                        scheme.const_widths@[j].0,
                        applied(self@.subst, scheme.const_widths@[j].1@),
                    ),
            decreases scheme.const_widths.len() - i,
        {
            let w = &scheme.const_widths[i];
            widths.push((w.0, self.subst.apply(&w.1)));
            i = i + 1;
        }
        assert(views(widths@) =~= widths_applied(self@.subst, scheme@.widths));
        out.const_widths = widths;
        out
    }

    /// Brings the schemes of lambdas up to what is known.
    pub(crate) fn resolve_lambda_schemes(&mut self)
        ensures
            final(self)@ == lambdas_resolved(old(self)@),
    {
        let mut out: Table<u32, Scheme> = Table::new();
        let n: usize = self.lambda_schemes.rows();
        let mut i: usize = 0;
        let ghost f = |x: SchemeV| scheme_applied(self@.subst, x);
        proof {
            self.lambda_schemes.lemma_first_rows(0);
            assert(out@ =~= self.lambda_schemes.first_rows(0).map_values(f));
        }
        while i < n
            invariant
                i <= n,
                n == self.lambda_schemes.row_count(),
                self@ == old(self)@,
                f == (|x: SchemeV| scheme_applied(self@.subst, x)),
                out@ == self.lambda_schemes.first_rows(i as int).map_values(f),
            decreases n - i,
        {
            proof {
                self.lambda_schemes.lemma_first_rows((i + 1) as int);
            }
            let row = self.lambda_schemes.row(i);
            let scheme: Scheme = self.resolve_scheme(&row.1);
            out.insert(row.0, scheme);
            i = i + 1;
            assert(out@ =~= self.lambda_schemes.first_rows(i as int).map_values(f));
        }
        proof {
            self.lambda_schemes.lemma_first_rows(n as int);
        }
        self.lambda_schemes = out;
    }

    /// Brings the types of nodes up to what is known.
    pub(crate) fn resolve_node_types(&mut self)
        ensures
            final(self)@ == nodes_resolved(old(self)@),
    {
        let mut out: Table<u32, Ty> = Table::new();
        let n: usize = self.node_types.rows();
        let mut i: usize = 0;
        let ghost f = |t: TyV| applied(self@.subst, t);
        proof {
            self.node_types.lemma_first_rows(0);
            assert(out@ =~= self.node_types.first_rows(0).map_values(f));
        }
        while i < n
            invariant
                i <= n,
                n == self.node_types.row_count(),
                self@ == old(self)@,
                f == (|t: TyV| applied(self@.subst, t)),
                out@ == self.node_types.first_rows(i as int).map_values(f),
            decreases n - i,
        {
            proof {
                self.node_types.lemma_first_rows((i + 1) as int);
            }
            let row = self.node_types.row(i);
            out.insert(row.0, self.subst.apply(&row.1));
            i = i + 1;
            assert(out@ =~= self.node_types.first_rows(i as int).map_values(f));
        }
        proof {
            self.node_types.lemma_first_rows(n as int);
        }
        self.node_types = out;
    }
}

fn sole_variable(registry: &Registry, c: &Constraint) -> (r: Option<u32>)
    ensures
        r == sole_var(*registry, c@),
{
    if c.tys.len() == 1 && registry.has_algebra(c.algebra.as_str()) {
        proof {
            lemma_ty_view(c.tys@[0]);
        }
        match &c.tys[0] {
            Ty::Var(v) => Some(v.0),
            _ => None,
        }
    } else {
        None
    }
}

fn list_algebras_on(registry: &Registry, cs: &Vec<Constraint>, v: u32) -> (r: Vec<String>)
    ensures
        views(r@) == algebras_on(*registry, views(cs@), cs@.len(), v),
{
    let mut out: Vec<String> = Vec::new();
    let mut i: usize = 0;
    while i < cs.len()
        invariant
            i <= cs.len(),
            views(out@) == algebras_on(*registry, views(cs@), i as nat, v),
        decreases cs.len() - i,
    {
        assert(views(cs@)[i as int] == cs@[i as int]@);
        if let Some(w) = sole_variable(registry, &cs[i]) {
            if w == v {
                out.push(cs[i].algebra.clone());
            }
        }
        i = i + 1;
    }
    out
}

fn find_scheme_conflict(registry: &Registry, cs: &Vec<Constraint>) -> (r: Option<TypeError>)
    ensures
        match r {
            Some(e) => scheme_conflict(*registry, views(cs@), 0) == Some(e@),
            None => scheme_conflict(*registry, views(cs@), 0) is None,
        },
{
    let mut k: usize = 0;
    while k < cs.len()
        invariant
            k <= cs.len(),
            scheme_conflict(*registry, views(cs@), 0) == scheme_conflict(
                *registry,
                views(cs@),
                k as nat,
            ),
        decreases cs.len() - k,
    {
        assert(views(cs@)[k as int] == cs@[k as int]@);
        if let Some(v) = sole_variable(registry, &cs[k]) {
            let names: Vec<String> = list_algebras_on(registry, cs, v);
            if let Some(algebras) = unsatisfiable_bounds(registry, &names) {
                return Some(
                    TypeError {
                        span: cs[k].span,
                        kind: TypeErrorKind::UnsatisfiableScheme { algebras },
                    },
                );
            }
        }
        k = k + 1;
    }
    None
}

} // verus!
