//! One pass of equality saturation over a program. What saturates and extracts is
//! outside: it is handed a plan, and its answer is handed back.

use vstd::prelude::*;

use crate::cps::{group_cps, CExprV, CTopLevelFnV};
use crate::cps::{CExpr, CTopLevelFn, CVar, CpsProgram};
use crate::ast::following;
use crate::derivative_rules::{projection_rules, struct_projection_rewrites};
use crate::forward::{nothing_found, ordinary_count, walked, Forward, ForwardV, WALK_DEPTH};
use crate::fresh::FreshVars;
use crate::lang::{same_term, term_at, CleaveLang, CleaveLangV};
use crate::patterns::{axiom_rewrites, axiom_rules, reached_types, Rewrite, RewriteV};
use crate::rebuild::{
    max_cvar_in_program, max_in_program, rebuild_segment, root_var, segment_rebuilt,
    segment_root_var,
};
use crate::registry::Registry;
use crate::table::{group_views, views, Dup, Table};
use crate::ty::TyV;

verus! {

broadcast use {group_views, group_cps};

/// The first `n` parameters with their types.
pub open spec fn typed_params(params: Seq<u32>, tys: Seq<TyV>, n: nat) -> Map<u32, TyV>
    decreases n,
{
    if n == 0 || n > params.len() || n > tys.len() {
        Map::empty()
    } else {
        typed_params(params, tys, (n - 1) as nat).insert(params[n - 1], tys[n - 1])
    }
}

/// The number of parameters that have a type; the continuation, which comes last,
/// has none.
pub open spec fn typed_count(params: Seq<u32>, tys: Seq<TyV>) -> nat {
    if ordinary_count(params) < tys.len() {
        ordinary_count(params)
    } else {
        tys.len()
    }
}

/// Translation of a function that has found nothing yet but the types of its
/// parameters.
pub open spec fn entered(f: CTopLevelFnV) -> ForwardV {
    ForwardV {
        param_types: typed_params(
            f.def.params,
            f.param_types,
            typed_count(f.def.params, f.param_types),
        ),
        ..nothing_found()
    }
}

/// Translation of a function that has found nothing yet.
pub fn enter(f: &CTopLevelFn) -> (r: Forward)
    ensures
        r@ == entered(f@),
{
    let mut fwd: Forward = Forward::default();
    let ghost params = f.def.params@;
    let ghost tys = views(f.param_types@);
    let mut i: usize = 0;
    while f.def.params.len() > 0 && i < f.def.params.len() - 1 && i < f.param_types.len()
        invariant
            i <= typed_count(params, tys),
            params == f.def.params@,
            tys == views(f.param_types@),
            fwd@ == (ForwardV { param_types: typed_params(params, tys, i as nat), ..nothing_found() }),
        decreases f.def.params.len() - i,
    {
        assert(tys[i as int] == f.param_types@[i as int]@);
        fwd.param_types.insert(f.def.params[i], f.param_types[i].dup());
        i = i + 1;
    }
    fwd
}

/// What is to be saturated for a function.
pub struct SegmentPlan {
    pub name: String,
    /// What translation has found; its nodes are the terms.
    pub fwd: Forward,
    /// The part of the body that was not translated.
    pub boundary: CExpr,
    /// The one translated variable that it uses, and the place of its term.
    pub root_var: CVar,
    pub root: usize,
    pub rules: Vec<Rewrite>,
}

#[verifier::ext_equal]
pub struct SegmentPlanV {
    pub name: Seq<char>,
    pub fwd: ForwardV,
    pub boundary: CExprV,
    pub root_var: u32,
    pub root: usize,
    pub rules: Seq<RewriteV>,
}

impl View for SegmentPlan {
    type V = SegmentPlanV;

    open spec fn view(&self) -> SegmentPlanV {
        SegmentPlanV {
            name: self.name@,
            fwd: self.fwd@,
            boundary: self.boundary@,
            root_var: self.root_var,
            root: self.root,
            rules: views(self.rules@),
        }
    }
}

/// A plan, if there is something to saturate, and the fresh names that are left.
pub struct PlannedV {
    pub plan: Option<SegmentPlanV>,
    pub fresh: FreshVars,
}

/// The rules for what a function has reached.
pub open spec fn segment_rules(fwd: ForwardV, registry: Registry) -> Seq<RewriteV> {
    let groups = reached_types(fwd.reached, fwd.reached.len());
    axiom_rules(groups, groups.len(), registry) + projection_rules(
        fwd.struct_ops,
        fwd.struct_ops.len(),
        fwd.field_ops,
    )
}

/// The plan for a function: none where what is left of its body does not use exactly
/// one translated variable, or where no rule applies to what it reached.
pub open spec fn planned(
    f: CTopLevelFnV,
    funcs: Seq<CTopLevelFnV>,
    registry: Registry,
    fresh: FreshVars,
) -> PlannedV {
    let w = walked(f.def.body, funcs, entered(f), fresh, WALK_DEPTH as nat);
    let rules = segment_rules(w.fwd, registry);
    PlannedV {
        plan: match root_var(w.rest, w.fwd.env) {
            Some(var) => if rules.len() > 0 {
                Some(
                    SegmentPlanV {
                        name: f.def.name,
                        fwd: w.fwd,
                        boundary: w.rest,
                        root_var: var,
                        root: w.fwd.env[var],
                        rules,
                    },
                )
            } else {
                None
            },
            None => None,
        },
        fresh: w.fresh,
    }
}

/// A plan or nothing, by its view.
pub open spec fn opt_plan(p: Option<SegmentPlan>) -> Option<SegmentPlanV> {
    match p {
        Some(x) => Some(x@),
        None => None,
    }
}

/// The root of a boundary was translated.
pub proof fn lemma_root_translated(boundary: CExprV, env: Map<u32, usize>)
    ensures
        root_var(boundary, env) matches Some(v) ==> env.contains_key(v),
{
    let both = crate::vars::referenced_in(boundary).intersect(env.dom());
    if exists|v: u32| crate::rebuild::is_only(both, v) {
        let v = choose|v: u32| crate::rebuild::is_only(both, v);
        assert(both.contains(v));
    }
}

/// The plan for a function.
pub fn plan_segment(
    f: &CTopLevelFn,
    units: &Vec<CTopLevelFn>,
    registry: &Registry,
    fresh: &mut FreshVars,
) -> (r: Option<SegmentPlan>)
    ensures
        ({
            let p = planned(f@, views(units@), *registry, *old(fresh));
            opt_plan(r) == p.plan && *final(fresh) == p.fresh
        }),
{
    let mut fwd: Forward = enter(f);
    let boundary: CExpr = fwd.walk(&f.def.body, units, fresh);
    let var: CVar = match segment_root_var(&boundary, &fwd.env) {
        Some(var) => var,
        None => {
            return None;
        },
    };
    proof {
        lemma_root_translated(boundary@, fwd@.env);
    }
    let root: usize = match fwd.env.get(&var) {
        Some(root) => *root,
        None => {
            return None;
        },
    };
    let mut rules: Vec<Rewrite> = axiom_rewrites(registry, &fwd.reached);
    let mut more: Vec<Rewrite> = struct_projection_rewrites(&fwd.struct_ops, &fwd.field_ops);
    rules.append(&mut more);
    if rules.len() == 0 {
        assert(views(rules@).len() == 0);
        return None;
    }
    assert(views(rules@).len() > 0);
    Some(SegmentPlan { name: f.def.name.clone(), fwd, boundary, root_var: var, root, rules })
}

/// What became of a plan.
pub enum Outcome {
    /// The best form is the one that was there.
    Unchanged,
    Rebuilt(CExpr),
    /// The best form holds a symbol that stands for nothing.
    Unknown,
}

#[verifier::ext_equal]
pub enum OutcomeV {
    Unchanged,
    Rebuilt(CExprV),
    Unknown,
}

impl View for Outcome {
    type V = OutcomeV;

    open spec fn view(&self) -> OutcomeV {
        match *self {
            Outcome::Unchanged => OutcomeV::Unchanged,
            Outcome::Rebuilt(e) => OutcomeV::Rebuilt(e@),
            Outcome::Unknown => OutcomeV::Unknown,
        }
    }
}

/// The place of the root of a term, its last node.
pub open spec fn root_place(best: Seq<CleaveLangV>) -> usize {
    (best.len() - 1) as usize
}

/// Whether the best form is the one that was there.
pub open spec fn is_original(plan: SegmentPlanV, best: Seq<CleaveLangV>) -> bool {
    term_at(plan.fwd.nodes, plan.root as nat) == term_at(best, root_place(best) as nat)
}

/// What becomes of a plan, with the best form that was found.
pub open spec fn outcome_of(
    plan: SegmentPlanV,
    best: Seq<CleaveLangV>,
    fresh: FreshVars,
) -> OutcomeV {
    if best.len() == 0 {
        OutcomeV::Unknown
    } else if is_original(plan, best) {
        OutcomeV::Unchanged
    } else {
        match segment_rebuilt(
            best,
            root_place(best),
            plan.root_var,
            plan.boundary,
            plan.fwd,
            fresh,
        ).expr {
            Some(e) => OutcomeV::Rebuilt(e),
            None => OutcomeV::Unknown,
        }
    }
}

/// The fresh names that are left once a plan has been dealt with.
pub open spec fn fresh_after(
    plan: SegmentPlanV,
    best: Seq<CleaveLangV>,
    fresh: FreshVars,
) -> FreshVars {
    if best.len() == 0 || is_original(plan, best) {
        fresh
    } else {
        segment_rebuilt(
            best,
            root_place(best),
            plan.root_var,
            plan.boundary,
            plan.fwd,
            fresh,
        ).fresh
    }
}

/// What becomes of a plan, with the best form that was found.
pub fn finish_segment(plan: &SegmentPlan, best: &Vec<CleaveLang>, fresh: &mut FreshVars) -> (r:
    Outcome)
    ensures
        r@ == outcome_of(plan@, views(best@), *old(fresh)),
        *final(fresh) == fresh_after(plan@, views(best@), *old(fresh)),
{
    if best.len() == 0 {
        return Outcome::Unknown;
    }
    let last: usize = best.len() - 1;
    if same_term(&plan.fwd.nodes, plan.root, best, last) {
        return Outcome::Unchanged;
    }
    match rebuild_segment(best, last, plan.root_var, &plan.boundary, &plan.fwd, fresh) {
        Some(e) => Outcome::Rebuilt(e),
        None => Outcome::Unknown,
    }
}

/// A pass over a program.
pub struct Optimizer {
    pub funcs: Vec<CTopLevelFn>,
    /// The place of the function that comes next.
    pub at: usize,
    pub fresh: FreshVars,
    /// The new body of each function that has one.
    pub bodies: Table<String, CExpr>,
    /// Why each of them equals the old one.
    pub notes: Vec<String>,
}

#[verifier::ext_equal]
pub struct OptimizerV {
    pub funcs: Seq<CTopLevelFnV>,
    pub at: nat,
    pub fresh: FreshVars,
    pub bodies: Map<Seq<char>, CExprV>,
    pub notes: Seq<Seq<char>>,
}

impl View for Optimizer {
    type V = OptimizerV;

    open spec fn view(&self) -> OptimizerV {
        OptimizerV {
            funcs: views(self.funcs@),
            at: self.at as nat,
            fresh: self.fresh,
            bodies: self.bodies@,
            notes: views(self.notes@),
        }
    }
}

/// The next plan, and the pass that has got to it.
pub struct NextPlanV {
    pub pass: OptimizerV,
    pub plan: Option<SegmentPlanV>,
}

/// The plan for the next function that has one.
pub open spec fn next_plan(pass: OptimizerV, registry: Registry) -> NextPlanV
    decreases pass.funcs.len() - pass.at,
{
    if pass.at >= pass.funcs.len() {
        NextPlanV { pass, plan: None }
    } else {
        let p = planned(pass.funcs[pass.at as int], pass.funcs, registry, pass.fresh);
        let moved = OptimizerV { at: pass.at + 1, fresh: p.fresh, ..pass };
        match p.plan {
            Some(plan) => NextPlanV { pass: moved, plan: Some(plan) },
            None => next_plan(moved, registry),
        }
    }
}

/// The pass once the answer to a plan is known.
pub open spec fn answered(
    pass: OptimizerV,
    plan: SegmentPlanV,
    best: Seq<CleaveLangV>,
) -> OptimizerV {
    OptimizerV {
        fresh: fresh_after(plan, best, pass.fresh),
        bodies: match outcome_of(plan, best, pass.fresh) {
            OutcomeV::Rebuilt(e) => pass.bodies.insert(plan.name, e),
            _ => pass.bodies,
        },
        ..pass
    }
}

/// The pass once it was noted why a function's new body equals the old one.
pub open spec fn explained(pass: OptimizerV, plan: SegmentPlanV, why: Seq<char>) -> OptimizerV {
    OptimizerV { notes: pass.notes.push(plan.name + ": "@ + why), ..pass }
}

/// A pass over functions that has not begun. Its fresh variables are above those that the
/// functions bind.
pub open spec fn begun(funcs: Seq<CTopLevelFnV>) -> OptimizerV {
    OptimizerV {
        funcs,
        at: 0,
        fresh: FreshVars { upcoming_var: following(max_in_program(funcs)), upcoming_label: 0 },
        bodies: Map::empty(),
        notes: Seq::empty(),
    }
}

/// Functions, and the new bodies that are left.
pub struct SwappedV {
    pub funcs: Seq<CTopLevelFnV>,
    pub left: Map<Seq<char>, CExprV>,
}

/// A function with another body.
pub open spec fn with_body(f: CTopLevelFnV, body: CExprV) -> CTopLevelFnV {
    CTopLevelFnV { def: crate::cps::CFunDefV { body, ..f.def }, ..f }
}

/// The first `n` functions, each with its new body if there is one. Of several
/// functions of one name the first takes it.
pub open spec fn swapped(
    funcs: Seq<CTopLevelFnV>,
    n: nat,
    bodies: Map<Seq<char>, CExprV>,
) -> SwappedV
    decreases n,
{
    if n == 0 || n > funcs.len() {
        SwappedV { funcs: Seq::empty(), left: bodies }
    } else {
        let before = swapped(funcs, (n - 1) as nat, bodies);
        let f = funcs[n - 1];
        if before.left.contains_key(f.def.name) {
            SwappedV {
                funcs: before.funcs.push(with_body(f, before.left[f.def.name])),
                left: before.left.remove(f.def.name),
            }
        } else {
            SwappedV { funcs: before.funcs.push(f), left: before.left }
        }
    }
}

impl Optimizer {
    /// A pass that has not begun. Its fresh variables are above those that the
    /// program binds.
    pub fn new(program: CpsProgram) -> (r: Self)
        ensures
            r@ == begun(views(program.funcs@)),
    {
        let first: CVar = max_cvar_in_program(&program.funcs).wrapping_add(1);
        Optimizer {
            funcs: program.funcs,
            at: 0,
            fresh: FreshVars::starting_at(first),
            bodies: Table::new(),
            notes: Vec::new(),
        }
    }

    /// The plan for the next function that has one.
    pub fn next_segment(&mut self, registry: &Registry) -> (r: Option<SegmentPlan>)
        ensures
            ({
                let n = next_plan(old(self)@, *registry);
                final(self)@ == n.pass && opt_plan(r) == n.plan
            }),
    {
        let ghost goal = next_plan(self@, *registry);
        while self.at < self.funcs.len()
            invariant
                goal == next_plan(old(self)@, *registry),
                goal == next_plan(self@, *registry),
            decreases self.funcs.len() - self.at,
        {
            let at: usize = self.at;
            assert(self@.funcs[at as int] == self.funcs@[at as int]@);
            let plan: Option<SegmentPlan> = plan_segment(
                &self.funcs[at],
                &self.funcs,
                registry,
                &mut self.fresh,
            );
            self.at = at + 1;
            if plan.is_some() {
                return plan;
            }
        }
        None
    }

    /// Takes the best form that was found for a plan. Says whether the function has a
    /// new body; none where the form cannot be turned back.
    pub fn answer(&mut self, plan: &SegmentPlan, best: &Vec<CleaveLang>) -> (r: Option<bool>)
        ensures
            final(self)@ == answered(old(self)@, plan@, views(best@)),
            r == (match outcome_of(plan@, views(best@), old(self)@.fresh) {
                OutcomeV::Unchanged => Some(false),
                OutcomeV::Rebuilt(_) => Some(true),
                OutcomeV::Unknown => None,
            }),
    {
        match finish_segment(plan, best, &mut self.fresh) {
            Outcome::Unchanged => Some(false),
            Outcome::Unknown => None,
            Outcome::Rebuilt(e) => {
                self.bodies.insert(plan.name.clone(), e);
                Some(true)
            },
        }
    }

    /// Notes why the new body of a function equals the old one.
    pub fn explain(&mut self, plan: &SegmentPlan, why: &str)
        ensures
            final(self)@ == explained(old(self)@, plan@, why@),
    {
        let note: String = crate::text::glued3(plan.name.as_str(), ": ", why);
        self.notes.push(note);
    }

    /// The program with its new bodies, and why they equal the old ones.
    pub fn finish(self) -> (r: (CpsProgram, Vec<String>))
        ensures
            views(r.0.funcs@) == swapped(self@.funcs, self@.funcs.len(), self@.bodies).funcs,
            views(r.1@) == self@.notes,
    {
        let mut left: Table<String, CExpr> = self.bodies;
        let mut out: Vec<CTopLevelFn> = Vec::new();
        let ghost all = views(self.funcs@);
        let ghost bodies = self.bodies@;
        let funcs: Vec<CTopLevelFn> = self.funcs;
        let mut i: usize = 0;
        while i < funcs.len()
            invariant
                i <= funcs.len(),
                all == views(funcs@),
                ({
                    let s = swapped(all, i as nat, bodies);
                    views(out@) == s.funcs && left@ == s.left
                }),
            decreases funcs.len() - i,
        {
            let mut f: CTopLevelFn = funcs[i].dup();
            assert(all[i as int] == funcs@[i as int]@);
            let mut taken: bool = false;
            if let Some(body) = left.get(&f.def.name) {
                f.def.body = body.dup();
                taken = true;
            }
            if taken {
                left.remove(&f.def.name);
            }
            out.push(f);
            i = i + 1;
        }
        (CpsProgram { funcs: out }, self.notes)
    }
}

} // verus!
