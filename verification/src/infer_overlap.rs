//! Bounds that no type can meet, and impls that overlap.

use vstd::prelude::*;

use crate::ast::{GenericParam, Type};
use crate::errors::{error_at, TypeError, TypeErrorKind, TypeErrorKindV, TypeErrorV};
use crate::infer_state::{Infer, InferV, Mapping, MappingV};
use crate::infer_types::{fresh_for, lemma_fresh_for_names, type_of};
use crate::listing::{put_name, with_name};
use crate::print::{fmt_types, type_texts};
use crate::registry::{ImplEntry, Registry};
use crate::subst::{applied, Subst, SubstV};
use crate::table::{dup_list, group_views, holds_name, views};
use crate::text::{join, joined};
use crate::ty::{group_ty, Ty, TyV};
use crate::types::same_ty;
use crate::unify::{unified, unify};

verus! {

broadcast use {group_views, group_ty};

// ---- sorted names ----

/// The first `n` names, sorted and each once.
pub open spec fn sorted_names(names: Seq<Seq<char>>, n: nat) -> Seq<Seq<char>>
    decreases n,
{
    if n == 0 || n > names.len() {
        Seq::empty()
    } else {
        with_name(sorted_names(names, (n - 1) as nat), names[n - 1])
    }
}

fn sort_names(names: &Vec<String>) -> (r: Vec<String>)
    ensures
        views(r@) == sorted_names(views(names@), names@.len()),
{
    let mut out: Vec<String> = Vec::new();
    let mut i: usize = 0;
    while i < names.len()
        invariant
            i <= names.len(),
            views(out@) == sorted_names(views(names@), i as nat),
        decreases names.len() - i,
    {
        put_name(&mut out, &names[i]);
        i = i + 1;
    }
    out
}

// ---- bounds that no type can meet ----

/// The names that are in `other` too.
pub open spec fn shared_names(names: Seq<Seq<char>>, n: nat, other: Seq<Seq<char>>) -> Seq<
    Seq<char>,
>
    decreases n,
{
    if n == 0 || n > names.len() {
        Seq::empty()
    } else {
        let rest = shared_names(names, (n - 1) as nat, other);
        if other.contains(names[n - 1]) {
            rest.push(names[n - 1])
        } else {
            rest
        }
    }
}

/// The declared ones among the first `n` algebras.
pub open spec fn declared_names(r: Registry, algebras: Seq<Seq<char>>, n: nat) -> Seq<Seq<char>>
    decreases n,
{
    if n == 0 || n > algebras.len() {
        Seq::empty()
    } else {
        let rest = declared_names(r, algebras, (n - 1) as nat);
        if r.declares_algebra(algebras[n - 1]) {
            rest.push(algebras[n - 1])
        } else {
            rest
        }
    }
}

/// The types that the first `n` algebras all govern, at least one of them.
pub open spec fn shared_types(r: Registry, algebras: Seq<Seq<char>>, n: nat) -> Seq<Seq<char>>
    decreases n,
{
    if n == 0 || n > algebras.len() {
        Seq::empty()
    } else if n == 1 {
        r.candidates_of(algebras[0])
    } else {
        let before = shared_types(r, algebras, (n - 1) as nat);
        shared_names(before, before.len(), r.candidates_of(algebras[n - 1]))
    }
}

/// The declared algebras among the bounds, sorted, if there are two or more and
/// no type that all of them govern.
pub open spec fn conflict(r: Registry, bounds: Seq<Seq<char>>) -> Option<Seq<Seq<char>>> {
    let known = declared_names(r, bounds, bounds.len());
    if known.len() < 2 || shared_types(r, known, known.len()).len() > 0 {
        None
    } else {
        Some(sorted_names(known, known.len()))
    }
}

fn keep_shared(names: &Vec<String>, other: &Vec<String>) -> (r: Vec<String>)
    ensures
        views(r@) == shared_names(views(names@), names@.len(), views(other@)),
{
    let mut out: Vec<String> = Vec::new();
    let mut i: usize = 0;
    while i < names.len()
        invariant
            i <= names.len(),
            views(out@) == shared_names(views(names@), i as nat, views(other@)),
        decreases names.len() - i,
    {
        if holds_name(other, &names[i]) {
            out.push(names[i].clone());
        }
        i = i + 1;
    }
    out
}

/// The algebras of a list of bounds that no type can meet together.
pub(crate) fn unsatisfiable_bounds(registry: &Registry, bounds: &Vec<String>) -> (r: Option<
    Vec<String>,
>)
    ensures
        match r {
            Some(names) => conflict(*registry, views(bounds@)) == Some(views(names@)),
            None => conflict(*registry, views(bounds@)) is None,
        },
{
    let mut known: Vec<String> = Vec::new();
    let mut i: usize = 0;
    while i < bounds.len()
        invariant
            i <= bounds.len(),
            views(known@) == declared_names(*registry, views(bounds@), i as nat),
        decreases bounds.len() - i,
    {
        if registry.has_algebra(bounds[i].as_str()) {
            known.push(bounds[i].clone());
        }
        i = i + 1;
    }
    if known.len() < 2 {
        return None;
    }
    let mut shared: Vec<String> = candidates_for(registry, &known[0]);
    let mut k: usize = 1;
    while k < known.len()
        invariant
            1 <= k <= known.len(),
            views(shared@) == shared_types(*registry, views(known@), k as nat),
        decreases known.len() - k,
    {
        let these: Vec<String> = candidates_for(registry, &known[k]);
        shared = keep_shared(&shared, &these);
        k = k + 1;
    }
    if shared.len() > 0 {
        return None;
    }
    Some(sort_names(&known))
}

fn candidates_for(registry: &Registry, algebra: &String) -> (r: Vec<String>)
    ensures
        views(r@) == registry.candidates_of(algebra@),
{
    match registry.algebra(algebra.as_str()) {
        Some(a) => dup_list(&a.candidates),
        None => Vec::new(),
    }
}

/// Bounds conflict only where two or more of them are declared algebras.
pub proof fn lemma_conflict_needs_two(r: Registry, bounds: Seq<Seq<char>>)
    ensures
        conflict(r, bounds) is Some ==> declared_names(r, bounds, bounds.len()).len() >= 2,
{
}

// ---- overlapping impls ----

/// Whether the targets from the `k`th on of two impls unify, and the
/// substitution and the state after that.
pub open spec fn patterns_unify(
    st: InferV,
    ta: Vec<Type>,
    tb: Vec<Type>,
    k: nat,
    ma: MappingV,
    mb: MappingV,
    trial: SubstV,
) -> (InferV, SubstV, bool)
    decreases ta@.len() - k,
{
    if k >= ta@.len() || k >= tb@.len() {
        (st, trial, true)
    } else {
        let (st1, pa) = type_of(st, ta@[k as int], ma);
        let (st2, pb) = type_of(st1, tb@[k as int], mb);
        let (s, e) = unified(trial, pa, pb);
        if e is Some {
            (st2, s, false)
        } else {
            patterns_unify(st2, ta, tb, k + 1, ma, mb, s)
        }
    }
}

/// The place of the group with that root, from the `i`th on.
pub open spec fn group_at(groups: Seq<(TyV, Seq<Seq<char>>)>, i: nat, root: TyV) -> Option<int>
    decreases groups.len() - i,
{
    if i >= groups.len() {
        None
    } else if groups[i as int].0 == root {
        Some(i as int)
    } else {
        group_at(groups, i + 1, root)
    }
}

/// The groups with bounds added for a root.
pub open spec fn grouped(
    groups: Seq<(TyV, Seq<Seq<char>>)>,
    root: TyV,
    bounds: Seq<Seq<char>>,
) -> Seq<(TyV, Seq<Seq<char>>)> {
    match group_at(groups, 0, root) {
        Some(i) => groups.update(i, (root, groups[i].1 + bounds)),
        None => groups.push((root, bounds)),
    }
}

/// The groups with the bounds of the first `n` generics added, by what each
/// generic stands for.
pub open spec fn generics_grouped(
    groups: Seq<(TyV, Seq<Seq<char>>)>,
    generics: Seq<GenericParam>,
    n: nat,
    m: MappingV,
    trial: SubstV,
) -> Seq<(TyV, Seq<Seq<char>>)>
    decreases n,
{
    if n == 0 || n > generics.len() {
        groups
    } else {
        let before = generics_grouped(groups, generics, (n - 1) as nat, m, trial);
        match generics[n - 1] {
            GenericParam::Type { name, bounds, .. } => if bounds@.len() == 0 {
                before
            } else {
                grouped(before, applied(trial, m[name@]), views(bounds@))
            },
            GenericParam::Const { .. } => before,
        }
    }
}

/// Whether the bounds of each group from the `i`th on can be met together.
pub open spec fn groups_admit(r: Registry, groups: Seq<(TyV, Seq<Seq<char>>)>, i: nat) -> bool
    decreases groups.len() - i,
{
    i >= groups.len() || (conflict(r, groups[i as int].1) is None && groups_admit(
        r,
        groups,
        i + 1,
    ))
}

/// The error that two impls of an algebra overlap, if some type fits both.
pub open spec fn overlap_of(st: InferV, algebra: Seq<char>, a: ImplEntry, b: ImplEntry) -> (
    InferV,
    Option<TypeErrorV>,
) {
    if a.targets@.len() != b.targets@.len() || b.targets@.len() == 0 {
        (st, None)
    } else {
        let (st1, ma) = fresh_for(st, a.generics@, a.generics@.len());
        let (st2, mb) = fresh_for(st1, b.generics@, b.generics@.len());
        let (st3, trial, all) = patterns_unify(
            st2,
            a.targets,
            b.targets,
            0,
            ma,
            mb,
            SubstV { bindings: Seq::empty(), widths: Map::empty() },
        );
        let first = generics_grouped(Seq::empty(), a.generics@, a.generics@.len(), ma, trial);
        let groups = generics_grouped(first, b.generics@, b.generics@.len(), mb, trial);
        if all && groups_admit(st.registry, groups, 0) {
            (
                st3,
                Some(
                    error_at(
                        b.targets@[0].span,
                        TypeErrorKindV::OverlappingImpls {
                            algebra,
                            a: joined(type_texts(a.targets, a.targets@.len()), ", "@),
                            b: joined(type_texts(b.targets, b.targets@.len()), ", "@),
                        },
                    ),
                ),
            )
        } else {
            (st3, None)
        }
    }
}

/// The overlaps, after those of `acc`, of the `i`th impl with the `j`th and
/// later ones, for the `a`th algebra and later ones.
pub open spec fn overlaps_from(
    r: Registry,
    st: InferV,
    a: nat,
    i: nat,
    j: nat,
    acc: Seq<TypeErrorV>,
) -> (InferV, Seq<TypeErrorV>)
    decreases r.algebras@.len() - a, r.impls@.len() - i, r.impls@.len() - j,
{
    if a >= r.algebras@.len() {
        (st, acc)
    } else if i >= r.impls@.len() {
        overlaps_from(r, st, a + 1, 0, 1, acc)
    } else if j >= r.impls@.len() {
        overlaps_from(r, st, a, i + 1, i + 2, acc)
    } else {
        let name = r.algebras@[a as int].name@;
        let x = r.impls@[i as int];
        let y = r.impls@[j as int];
        if x.algebra@ == name && y.algebra@ == name {
            let (st1, found) = overlap_of(st, name, x, y);
            overlaps_from(
                r,
                st1,
                a,
                i,
                j + 1,
                match found {
                    Some(e) => acc.push(e),
                    None => acc,
                },
            )
        } else {
            overlaps_from(r, st, a, i, j + 1, acc)
        }
    }
}

/// A group of bounds on one root.
pub struct BoundGroup {
    pub root: Ty,
    pub bounds: Vec<String>,
}

impl View for BoundGroup {
    type V = (TyV, Seq<Seq<char>>);

    open spec fn view(&self) -> (TyV, Seq<Seq<char>>) {
        (self.root@, views(self.bounds@))
    }
}

fn add_bounds(groups: &mut Vec<BoundGroup>, root: Ty, bounds: &Vec<String>)
    ensures
        views(final(groups)@) == grouped(views(old(groups)@), root@, views(bounds@)),
{
    let ghost all = views(groups@);
    let mut i: usize = 0;
    while i < groups.len()
        invariant
            i <= groups.len(),
            views(groups@) == all,
            all == views(old(groups)@),
            group_at(all, 0, root@) == group_at(all, i as nat, root@),
        decreases groups.len() - i,
    {
        assert(all[i as int] == groups@[i as int]@);
        if same_ty(&groups[i].root, &root) {
            let mut both: Vec<String> = dup_list(&groups[i].bounds);
            let mut more: Vec<String> = dup_list(bounds);
            both.append(&mut more);
            let group = BoundGroup { root, bounds: both };
            assert(group@ == (root@, all[i as int].1 + views(bounds@)));
            groups.set(i, group);
            assert(views(groups@) =~= all.update(i as int, group@));
            return;
        }
        i = i + 1;
    }
    groups.push(BoundGroup { root, bounds: dup_list(bounds) });
}

fn add_generics(
    groups: &mut Vec<BoundGroup>,
    generics: &Vec<GenericParam>,
    mapping: &Mapping,
    trial: &Subst,
    Ghost(opened): Ghost<InferV>,
)
    requires
        mapping@ == fresh_for(opened, generics@, generics@.len()).1,
    ensures
        views(final(groups)@) == generics_grouped(
            views(old(groups)@),
            generics@,
            generics@.len(),
            mapping@,
            trial@,
        ),
{
    let mut i: usize = 0;
    while i < generics.len()
        invariant
            i <= generics.len(),
            mapping@ == fresh_for(opened, generics@, generics@.len()).1,
            views(groups@) == generics_grouped(
                views(old(groups)@),
                generics@,
                i as nat,
                mapping@,
                trial@,
            ),
        decreases generics.len() - i,
    {
        proof {
            lemma_fresh_for_names(opened, generics@, generics@.len(), i as int);
        }
        if let GenericParam::Type { name, bounds, .. } = &generics[i] {
            if bounds.len() > 0 {
                if let Some(t) = mapping.get(name) {
                    add_bounds(groups, trial.apply(t), bounds);
                }
            }
        }
        i = i + 1;
    }
}

fn all_groups_admit(registry: &Registry, groups: &Vec<BoundGroup>) -> (r: bool)
    ensures
        r == groups_admit(*registry, views(groups@), 0),
{
    let mut i: usize = 0;
    while i < groups.len()
        invariant
            i <= groups.len(),
            groups_admit(*registry, views(groups@), 0) == groups_admit(
                *registry,
                views(groups@),
                i as nat,
            ),
        decreases groups.len() - i,
    {
        assert(views(groups@)[i as int] == groups@[i as int]@);
        if unsatisfiable_bounds(registry, &groups[i].bounds).is_some() {
            return false;
        }
        i = i + 1;
    }
    true
}

impl<'r> Infer<'r> {
    fn unify_patterns(
        &mut self,
        ta: &Vec<Type>,
        tb: &Vec<Type>,
        ma: &Mapping,
        mb: &Mapping,
        trial: &mut Subst,
    ) -> (r: bool)
        ensures
            patterns_unify(old(self)@, *ta, *tb, 0, ma@, mb@, old(trial)@) == (
                final(self)@,
                final(trial)@,
                r,
            ),
    {
        let mut k: usize = 0;
        while k < ta.len() && k < tb.len()
            invariant
                k <= ta.len(),
                patterns_unify(old(self)@, *ta, *tb, 0, ma@, mb@, old(trial)@) == patterns_unify(
                    self@,
                    *ta,
                    *tb,
                    k as nat,
                    ma@,
                    mb@,
                    trial@,
                ),
            decreases ta.len() - k,
        {
            let pa: Ty = self.ty_from_ast_mapped(&ta[k], ma);
            let pb: Ty = self.ty_from_ast_mapped(&tb[k], mb);
            if unify(trial, &pa, &pb).is_err() {
                return false;
            }
            k = k + 1;
        }
        true
    }

    fn overlap(&mut self, algebra: &String, a: &ImplEntry, b: &ImplEntry) -> (r: Option<TypeError>)
        ensures
            match r {
                Some(e) => overlap_of(old(self)@, algebra@, *a, *b) == (final(self)@, Some(e@)),
                None => overlap_of(old(self)@, algebra@, *a, *b) == (
                    final(self)@,
                    None::<TypeErrorV>,
                ),
            },
    {
        if a.targets.len() != b.targets.len() || b.targets.len() == 0 {
            return None;
        }
        let registry = self.registry;
        let ma: Mapping = self.fresh_vars_for_generics(a.generics.as_slice());
        let ghost opened = self@;
        let mb: Mapping = self.fresh_vars_for_generics(b.generics.as_slice());
        let mut trial: Subst = Subst::new();
        if !self.unify_patterns(&a.targets, &b.targets, &ma, &mb, &mut trial) {
            return None;
        }
        let mut groups: Vec<BoundGroup> = Vec::new();
        add_generics(&mut groups, &a.generics, &ma, &trial, Ghost(old(self)@));
        add_generics(&mut groups, &b.generics, &mb, &trial, Ghost(opened));
        if !all_groups_admit(registry, &groups) {
            return None;
        }
        let left: Vec<String> = fmt_types(&a.targets);
        let right: Vec<String> = fmt_types(&b.targets);
        Some(
            TypeError {
                span: b.targets[0].span,
                kind: TypeErrorKind::OverlappingImpls {
                    algebra: algebra.clone(),
                    a: join(&left, ", "),
                    b: join(&right, ", "),
                },
            },
        )
    }

    /// The pairs of impls that some type fits both of.
    pub fn check_no_overlapping_impls(&mut self) -> (r: Vec<TypeError>)
        ensures
            overlaps_from(old(self)@.registry, old(self)@, 0, 0, 1, Seq::empty()) == (
                final(self)@,
                views(r@),
            ),
    {
        let registry = self.registry;
        let mut errors: Vec<TypeError> = Vec::new();
        let mut a: usize = 0;
        let mut i: usize = 0;
        let mut j: usize = 1;
        while a < registry.algebras.len()
            invariant
                a <= registry.algebras.len(),
                i <= registry.impls.len(),
                j <= i + 1 || j <= registry.impls.len(),
                *registry == old(self)@.registry,
                overlaps_from(*registry, old(self)@, 0, 0, 1, Seq::empty()) == overlaps_from(
                    *registry,
                    self@,
                    a as nat,
                    i as nat,
                    j as nat,
                    views(errors@),
                ),
            decreases
                    registry.algebras.len() - a,
                    registry.impls.len() - i,
                    registry.impls.len() - j,
        {
            if i >= registry.impls.len() {
                a = a + 1;
                i = 0;
                j = 1;
            } else if j >= registry.impls.len() {
                let ghost wanted = (i + 2) as nat;
                i = i + 1;
                j = if i < registry.impls.len() {
                    i + 1
                } else {
                    i
                };
                proof {
                    if i == registry.impls.len() {
                        let e = views(errors@);
                        assert(overlaps_from(*registry, self@, a as nat, i as nat, wanted, e)
                            == overlaps_from(*registry, self@, (a + 1) as nat, 0, 1, e));
                        assert(overlaps_from(*registry, self@, a as nat, i as nat, j as nat, e)
                            == overlaps_from(*registry, self@, (a + 1) as nat, 0, 1, e));
                    }
                }
            } else {
                let name = &registry.algebras[a].name;
                let x = &registry.impls[i];
                let y = &registry.impls[j];
                if x.algebra == *name && y.algebra == *name {
                    if let Some(e) = self.overlap(name, x, y) {
                        errors.push(e);
                    }
                }
                j = j + 1;
            }
        }
        errors
    }
}

} // verus!
