//! Functions that compute the derivatives of others. What saturates and extracts is
//! outside: it is handed a plan, and its answer is handed back.

use vstd::prelude::*;

use crate::ast::following;
use crate::const_eval::ConstValue;
use crate::cps::{group_cps, lemma_cexpr_view, CExprV, CFunDefV, CTopLevelFnV, CValV, PrimOpV};
use crate::cps::{CExpr, CFunDef, CTopLevelFn, CVal, CVar, CpsProgram, PrimOp};
use crate::derivative_rules::{
    construction_derivative_rewrites, construction_rules, derivative_rewrites, derivative_rules,
};
use crate::forward::{
    next_place, ordinary_count, placed, walked, with_node, Forward, ForwardV, PlacedV,
    WALK_DEPTH,
};
use crate::fresh::{after_var, dup_vars, FreshVars};
use crate::lang::{
    opt_text, undifferentiable_from, undifferentiable_unit, CleaveLang, CleaveLangV,
};
use crate::listing::{put_name, with_name, NameSet};
use crate::optimize::{enter, entered, lemma_root_translated, segment_rules};
use crate::patterns::{axiom_rewrites, is_float_name, names_float, Rewrite, RewriteV};
use crate::rebuild::{
    max_cvar_in_program, max_in_program, rebuilt, root_var, segment_root_var, wrap_frames, wrapped,
    FrameV, Rebuild, RebuildV,
};
use crate::registry::Registry;
use crate::rename::{rename_params, renamed_params};
use crate::shapes::{find_unit, unit_of};
use crate::table::{group_views, views, Dup, Table};
use crate::text;
use crate::text::joined;
use crate::ty::{group_ty, Ty, TyV};
use crate::types::{dup_tys, ty_text};

verus! {

broadcast use {group_views, group_cps, group_ty};

/// A function that is to compute the derivatives of another.
pub struct DerivativeRequest {
    pub name: String,
    pub of: String,
}

/// What is to be saturated for a request.
pub struct DerivativePlan {
    pub name: String,
    /// What translation has found; its nodes are the terms.
    pub fwd: Forward,
    /// The place of the derivative by each parameter, where the function uses it.
    pub derivative_ids: Vec<Option<usize>>,
    pub rules: Vec<Rewrite>,
    /// The new name of each parameter.
    pub param_substitution: Table<CVar, CVar>,
    /// The parameters of the new function.
    pub new_params: Vec<CVar>,
    pub k_ret: CVar,
    pub param_types: Vec<Ty>,
    /// The type of what the other function returns.
    pub of_result: Ty,
}

#[verifier::ext_equal]
pub struct DerivativePlanV {
    pub name: Seq<char>,
    pub fwd: ForwardV,
    pub derivative_ids: Seq<Option<usize>>,
    pub rules: Seq<RewriteV>,
    pub param_substitution: Map<u32, u32>,
    pub new_params: Seq<u32>,
    pub k_ret: u32,
    pub param_types: Seq<TyV>,
    pub of_result: TyV,
}

impl View for DerivativePlan {
    type V = DerivativePlanV;

    open spec fn view(&self) -> DerivativePlanV {
        DerivativePlanV {
            name: self.name@,
            fwd: self.fwd@,
            derivative_ids: self.derivative_ids@,
            rules: views(self.rules@),
            param_substitution: self.param_substitution@,
            new_params: self.new_params@,
            k_ret: self.k_ret,
            param_types: views(self.param_types@),
            of_result: self.of_result@,
        }
    }
}

/// A plan or nothing, by its view.
pub open spec fn opt_plan(p: Option<DerivativePlan>) -> Option<DerivativePlanV> {
    match p {
        Some(x) => Some(x@),
        None => None,
    }
}

/// The translation with the derivatives by some parameters, and their places.
pub struct MarkedV {
    pub fwd: ForwardV,
    pub ids: Seq<Option<usize>>,
}

/// Marks the derivative of the term at `root` by each of the first `n` parameters
/// that the function uses.
pub open spec fn marked(fwd: ForwardV, root: usize, params: Seq<u32>, n: nat) -> MarkedV
    decreases n,
{
    if n == 0 || n > params.len() {
        MarkedV { fwd, ids: Seq::empty() }
    } else {
        let before = marked(fwd, root, params, (n - 1) as nat);
        let p = params[n - 1];
        if before.fwd.external_vars.contains_key(p) {
            MarkedV {
                fwd: with_node(
                    before.fwd,
                    CleaveLangV::Op(
                        "derivative"@,
                        seq![root, before.fwd.external_vars[p]],
                    ),
                ),
                ids: before.ids.push(Some(next_place(before.fwd))),
            }
        } else {
            MarkedV { fwd: before.fwd, ids: before.ids.push(None) }
        }
    }
}

/// The names that are names of functions.
pub open spec fn known_units(names: Set<Seq<char>>, funcs: Seq<CTopLevelFnV>) -> Set<Seq<char>> {
    names.filter(|n: Seq<char>| unit_of(funcs, n) is Some)
}

/// The message for a function whose body could not be translated.
pub open spec fn not_representable(name: Seq<char>) -> Seq<char> {
    "cannot derive `"@ + name
        + "`: function body is not fully representable (unsupported control flow, e.g. a loop that could not be unrolled, or a branch)"@
}

/// The message for a function of which some part has no rule.
pub open spec fn no_rule_for(name: Seq<char>, missing: Seq<Seq<char>>) -> Seq<char> {
    "cannot derive `"@ + name + "`: no derivative rule for `"@ + joined(missing, "`, `"@) + "`"@
}

/// What is made of a request: a plan, a message, or nothing where the other function
/// is not known.
pub struct RequestedV {
    pub plan: Option<DerivativePlanV>,
    pub error: Option<Seq<char>>,
    pub fresh: FreshVars,
}

/// Whether an expression is a jump to the continuation that a function returns to.
pub open spec fn returns_to(rest: CExprV, k_ret: u32) -> bool {
    rest matches CExprV::App { func, .. } && func == CValV::Var(k_ret)
}

/// The translated variable that a function returns, where all of its body up to the
/// return was translated.
pub open spec fn returned_var(rest: CExprV, env: Map<u32, usize>, k_ret: u32) -> Option<u32> {
    if returns_to(rest, k_ret) {
        root_var(rest, env)
    } else {
        None
    }
}

/// The parameter that a function returns as it is, if it does.
pub open spec fn returned_param(rest: CExprV, params: Seq<u32>, k_ret: u32) -> Option<u32> {
    match rest {
        CExprV::App { func, args } => if func == CValV::Var(k_ret) && args.len() == 1 {
            match args[0] {
                CValV::Var(p) => if params.subrange(
                    0,
                    ordinary_count(params) as int,
                ).contains(p) {
                    Some(p)
                } else {
                    None
                },
                _ => None,
            }
        } else {
            None
        },
        _ => None,
    }
}

/// The place of what a function returns, where all of its body up to the return was
/// translated: of the translated variable, or of the parameter.
pub open spec fn returned_place(rest: CExprV, fwd: ForwardV, of: CTopLevelFnV) -> PlacedV {
    match returned_var(rest, fwd.env, of.k_ret) {
        Some(var) => PlacedV { fwd, place: Some(fwd.env[var]) },
        None => match returned_param(rest, of.def.params, of.k_ret) {
            Some(p) => placed(fwd, CValV::Var(p)),
            None => PlacedV { fwd, place: None },
        },
    }
}

/// What is made of a request for the derivatives of a function. A function whose body is
/// not translated all the way to its return has no derivatives.
pub open spec fn requested(
    name: Seq<char>,
    of: CTopLevelFnV,
    funcs: Seq<CTopLevelFnV>,
    registry: Registry,
    fresh: FreshVars,
) -> RequestedV {
    let w = walked(of.def.body, funcs, entered(of), fresh, WALK_DEPTH as nat);
    let at = returned_place(w.rest, w.fwd, of);
    match at.place {
        None => RequestedV { plan: None, error: Some(not_representable(name)), fresh: w.fresh },
        Some(root) => {
            let count = ordinary_count(of.def.params);
            let p = renamed_params(of.def.params, count, Map::empty(), w.fresh);
            let k_ret = p.fresh.upcoming_var;
            let m = marked(at.fwd, root, of.def.params.subrange(0, count as int), count);
            let d = derivative_rules(ty_text(of.result), m.fwd.reached, registry);
            RequestedV {
                plan: Some(
                    DerivativePlanV {
                        name,
                        fwd: ForwardV {
                            call_units: m.fwd.call_units.union(known_units(d.referenced, funcs)),
                            ..m.fwd
                        },
                        derivative_ids: m.ids,
                        rules: segment_rules(m.fwd, registry) + construction_rules(
                            m.fwd.struct_ops,
                            m.fwd.array_ops,
                        ) + d.rules,
                        param_substitution: p.map,
                        new_params: p.params.push(k_ret),
                        k_ret,
                        param_types: of.param_types,
                        of_result: of.result,
                    },
                ),
                error: None,
                fresh: after_var(p.fresh),
            }
        },
    }
}

/// Marks the derivatives of the term at `root`.
fn mark_derivatives(fwd: &mut Forward, root: usize, params: &Vec<CVar>, count: usize) -> (r: Vec<
    Option<usize>,
>)
    requires
        count <= params@.len(),
    ensures
        ({
            let m = marked(old(fwd)@, root, params@.subrange(0, count as int), count as nat);
            final(fwd)@ == m.fwd && r@ == m.ids
        }),
{
    let ghost some = params@.subrange(0, count as int);
    let mut ids: Vec<Option<usize>> = Vec::new();
    let mut i: usize = 0;
    while i < count
        invariant
            i <= count <= params@.len(),
            some == params@.subrange(0, count as int),
            ({
                let m = marked(old(fwd)@, root, some, i as nat);
                fwd@ == m.fwd && ids@ == m.ids
            }),
        decreases count - i,
    {
        assert(some[i as int] == params@[i as int]);
        let mut by: Option<usize> = None;
        if let Some(id) = fwd.external_vars.get(&params[i]) {
            by = Some(*id);
        }
        match by {
            Some(id) => {
                let place: usize = fwd.nodes.len();
                let mut children: Vec<usize> = Vec::new();
                children.push(root);
                children.push(id);
                assert(children@ =~= seq![root, id]);
                fwd.nodes.push(CleaveLang::Op("derivative".to_owned(), children));
                ids.push(Some(place));
            },
            None => {
                ids.push(None);
            },
        }
        i = i + 1;
    }
    ids
}

/// Adds the names that are names of functions.
fn add_known_units(out: &mut NameSet, names: &NameSet, units: &Vec<CTopLevelFn>)
    ensures
        final(out)@ == old(out)@.union(known_units(names@, views(units@))),
{
    let mut i: usize = 0;
    let ghost funcs = views(units@);
    let ghost all = views(names.items@);
    while i < names.items.len()
        invariant
            i <= names.items.len(),
            funcs == views(units@),
            all == views(names.items@),
            forall|n: Seq<char>| #[trigger]
                out@.contains(n) <==> old(out)@.contains(n) || (all.subrange(
                    0,
                    i as int,
                ).contains(n) && unit_of(funcs, n) is Some),
        decreases names.items.len() - i,
    {
        let ghost before = out@;
        let name = &names.items[i];
        if find_unit(units, name).is_some() {
            out.add_name(name);
        }
        i = i + 1;
        proof {
            let now = all.subrange(0, i as int);
            let then = all.subrange(0, i - 1);
            assert(now =~= then.push(name@));
            assert forall|n: Seq<char>| #[trigger]
                out@.contains(n) <==> old(out)@.contains(n) || (now.contains(n) && unit_of(
                    funcs,
                    n,
                ) is Some) by {
                assert(before.contains(n) <==> old(out)@.contains(n) || (then.contains(n)
                    && unit_of(funcs, n) is Some));
                if now.contains(n) {
                    let k = choose|k: int| 0 <= k < now.len() && now[k] == n;
                    if k < then.len() {
                        assert(then[k] == n);
                    }
                }
                if then.contains(n) {
                    let k = choose|k: int| 0 <= k < then.len() && then[k] == n;
                    assert(now[k] == n);
                }
                assert(now[i - 1] == name@);
            }
        }
    }
    assert(all.subrange(0, i as int) =~= all);
    assert(out@ =~= old(out)@.union(known_units(names@, funcs)));
}

/// A request and what is made of it.
pub struct Requested {
    pub plan: Option<DerivativePlan>,
    pub error: Option<String>,
}

fn find_returned(rest: &CExpr, env: &Table<CVar, usize>, k_ret: CVar) -> (r: Option<CVar>)
    ensures
        r == returned_var(rest@, env@, k_ret),
{
    proof {
        lemma_cexpr_view(*rest);
    }
    match rest {
        CExpr::App { func: CVal::Var(k), .. } => if *k == k_ret {
            segment_root_var(rest, env)
        } else {
            None
        },
        _ => None,
    }
}

fn is_among_first(vars: &Vec<CVar>, count: usize, v: CVar) -> (r: bool)
    requires
        count <= vars@.len(),
    ensures
        r == vars@.subrange(0, count as int).contains(v),
{
    let ghost some = vars@.subrange(0, count as int);
    let mut i: usize = 0;
    while i < count
        invariant
            i <= count <= vars@.len(),
            some == vars@.subrange(0, count as int),
            forall|j: int| 0 <= j < i ==> some[j] != v,
        decreases count - i,
    {
        assert(some[i as int] == vars@[i as int]);
        if vars[i] == v {
            return true;
        }
        i = i + 1;
    }
    false
}

fn find_returned_param(rest: &CExpr, params: &Vec<CVar>, k_ret: CVar) -> (r: Option<CVar>)
    ensures
        r == returned_param(rest@, params@, k_ret),
{
    proof {
        lemma_cexpr_view(*rest);
    }
    match rest {
        CExpr::App { func: CVal::Var(k), args } => {
            if *k != k_ret || args.len() != 1 {
                return None;
            }
            assert(views(args@)[0] == args@[0]@);
            match &args[0] {
                CVal::Var(p) => {
                    let count: usize = if params.len() == 0 { 0 } else { params.len() - 1 };
                    if is_among_first(params, count, *p) {
                        Some(*p)
                    } else {
                        None
                    }
                },
                _ => None,
            }
        },
        _ => None,
    }
}

/// What is made of a request for the derivatives of a function.
pub fn plan_derivative(
    name: &String,
    of: &CTopLevelFn,
    units: &Vec<CTopLevelFn>,
    registry: &Registry,
    fresh: &mut FreshVars,
) -> (r: Requested)
    ensures
        ({
            let q = requested(name@, of@, views(units@), *registry, *old(fresh));
            &&& opt_plan(r.plan) == q.plan
            &&& opt_text(r.error) == q.error
            &&& *final(fresh) == q.fresh
        }),
{
    let mut fwd: Forward = enter(of);
    let boundary: CExpr = fwd.walk(&of.def.body, units, fresh);
    proof {
        lemma_root_translated(boundary@, fwd@.env);
    }
    let found: Option<CVar> = find_returned(&boundary, &fwd.env, of.k_ret);
    let mut root: Option<usize> = None;
    if let Some(var) = found {
        if let Some(place) = fwd.env.get(&var) {
            root = Some(*place);
        }
    } else if let Some(p) = find_returned_param(&boundary, &of.def.params, of.k_ret) {
        root = fwd.cval_to_id(&CVal::Var(p));
    }
    let root: usize = match root {
        Some(root) => root,
        None => {
            let message: String = text::glued3(
                "cannot derive `",
                name.as_str(),
                "`: function body is not fully representable (unsupported control flow, e.g. a loop that could not be unrolled, or a branch)",
            );
            return Requested { plan: None, error: Some(message) };
        },
    };
    let count: usize = if of.def.params.len() == 0 { 0 } else { of.def.params.len() - 1 };
    let mut param_substitution: Table<CVar, CVar> = Table::new();
    let mut new_params: Vec<CVar> = rename_params(
        &of.def.params,
        count,
        &mut param_substitution,
        fresh,
    );
    let k_ret: CVar = fresh.var();
    new_params.push(k_ret);
    let derivative_ids: Vec<Option<usize>> = mark_derivatives(
        &mut fwd,
        root,
        &of.def.params,
        count,
    );
    let ty: String = of.result.to_text();
    let mut rules: Vec<Rewrite> = axiom_rewrites(registry, &fwd.reached);
    let mut projections: Vec<Rewrite> = crate::derivative_rules::struct_projection_rewrites(
        &fwd.struct_ops,
        &fwd.field_ops,
    );
    rules.append(&mut projections);
    let mut constructions: Vec<Rewrite> = construction_derivative_rewrites(
        &fwd.struct_ops,
        &fwd.array_ops,
    );
    rules.append(&mut constructions);
    let (mut derivatives, referenced) = derivative_rewrites(ty.as_str(), &fwd.reached, registry);
    rules.append(&mut derivatives);
    add_known_units(&mut fwd.call_units, &referenced, units);
    Requested {
        plan: Some(
            DerivativePlan {
                name: name.clone(),
                fwd,
                derivative_ids,
                rules,
                param_substitution,
                new_params,
                k_ret,
                param_types: dup_tys(&of.param_types),
                of_result: of.result.dup(),
            },
        ),
        error: None,
    }
}

/// The best forms of the derivatives, by their nodes; one for each that was marked.
pub open spec fn best_at(bests: Seq<Seq<CleaveLangV>>, i: int) -> Seq<CleaveLangV> {
    if 0 <= i < bests.len() {
        bests[i]
    } else {
        Seq::empty()
    }
}

/// The names, in order, of what no rule differentiates in the first `n` best forms.
pub open spec fn missing_in(
    ids: Seq<Option<usize>>,
    bests: Seq<Seq<CleaveLangV>>,
    n: nat,
) -> Seq<Seq<char>>
    decreases n,
{
    if n == 0 || n > ids.len() {
        Seq::empty()
    } else {
        let before = missing_in(ids, bests, (n - 1) as nat);
        if ids[n - 1] is None {
            before
        } else {
            match undifferentiable_from(best_at(bests, n - 1), 0) {
                Some(name) => with_name(before, name),
                None => before,
            }
        }
    }
}

/// The zero of a scalar type.
pub open spec fn zero_val(ty: TyV) -> CValV {
    if is_float_name(ty_text(ty)) {
        CValV::Float(0)
    } else {
        CValV::Int(0)
    }
}

/// The zero of a scalar type.
pub fn zero_value(ty: &Ty) -> (r: CVal)
    ensures
        r@ == zero_val(ty@),
{
    if names_float(ty.to_text().as_str()) {
        CVal::Float(0)
    } else {
        CVal::Int(0)
    }
}

/// The derivatives as values, and the steps that compute them.
pub struct DerivedV {
    pub fresh: FreshVars,
    pub frames: Seq<FrameV>,
    pub values: Option<Seq<CValV>>,
}

/// Turns the best forms of the derivatives by the first `n` parameters back. The
/// derivative by a parameter that is not used is zero.
pub open spec fn derived(
    plan: DerivativePlanV,
    bests: Seq<Seq<CleaveLangV>>,
    n: nat,
    fresh: FreshVars,
) -> DerivedV
    decreases n,
{
    if n == 0 || n > plan.derivative_ids.len() {
        DerivedV { fresh, frames: Seq::empty(), values: Some(Seq::empty()) }
    } else {
        let before = derived(plan, bests, (n - 1) as nat, fresh);
        match before.values {
            None => before,
            Some(values) => if n > plan.param_types.len() {
                DerivedV { values: None, ..before }
            } else if plan.derivative_ids[n - 1] is None {
                DerivedV {
                    values: Some(values.push(zero_val(plan.param_types[n - 1]))),
                    ..before
                }
            } else {
                let best = best_at(bests, n - 1);
                if best.len() == 0 {
                    DerivedV { values: None, ..before }
                } else {
                    let b = rebuilt(
                        best,
                        (best.len() - 1) as usize,
                        plan.fwd,
                        plan.param_substitution,
                        RebuildV {
                            fresh: before.fresh,
                            memo: Map::empty(),
                            frames: before.frames,
                        },
                    );
                    DerivedV {
                        fresh: b.st.fresh,
                        frames: b.st.frames,
                        values: match b.value {
                            Some(v) => Some(values.push(v)),
                            None => None,
                        },
                    }
                }
            },
        }
    }
}

/// The array type of that many items.
pub open spec fn array_of(elem: TyV, n: nat) -> TyV {
    TyV::Array(Box::new(elem), Box::new(TyV::Const(ConstValue::Int(n as u64))))
}

/// The end of a function that returns the values: the only one as it is, otherwise
/// all of them in an array, which takes a fresh variable.
pub open spec fn returned(values: Seq<CValV>, k_ret: u32, result: TyV, fresh: FreshVars) -> CExprV {
    if values.len() == 1 {
        CExprV::App { func: CValV::Var(k_ret), args: seq![values[0]] }
    } else {
        CExprV::LetPrim {
            var: fresh.upcoming_var,
            ty: array_of(result, values.len()),
            op: PrimOpV::Array,
            args: values,
            cont: Box::new(
                CExprV::App {
                    func: CValV::Var(k_ret),
                    args: seq![CValV::Var(fresh.upcoming_var)],
                },
            ),
        }
    }
}

/// The end of a function that returns the values.
pub fn finish_derivative_body(
    values: Vec<CVal>,
    k_ret: CVar,
    result_ty: &Ty,
    fresh: &mut FreshVars,
) -> (r: CExpr)
    ensures
        r@ == returned(views(values@), k_ret, result_ty@, *old(fresh)),
        *final(fresh) == (if values@.len() == 1 {
            *old(fresh)
        } else {
            after_var(*old(fresh))
        }),
{
    if values.len() == 1 {
        let mut args: Vec<CVal> = Vec::new();
        args.push(values[0].dup());
        assert(views(args@) =~= seq![views(values@)[0]]);
        return CExpr::App { func: CVal::Var(k_ret), args };
    }
    let n: u64 = values.len() as u64;
    let array_ty: Ty = Ty::Array(
        Box::new(result_ty.dup()),
        Box::new(Ty::Const(ConstValue::Int(n))),
    );
    let arr_var: CVar = fresh.var();
    let mut args: Vec<CVal> = Vec::new();
    args.push(CVal::Var(arr_var));
    assert(views(args@) =~= seq![CValV::Var(arr_var)]);
    CExpr::LetPrim {
        var: arr_var,
        ty: array_ty,
        op: PrimOp::Array,
        args: values,
        cont: Box::new(CExpr::App { func: CVal::Var(k_ret), args }),
    }
}

/// What an answer to a plan comes to: a new function, a message, or nothing where a
/// best form cannot be turned back.
pub struct AnsweredV {
    pub func: Option<CTopLevelFnV>,
    pub error: Option<Seq<char>>,
    pub fresh: FreshVars,
}

/// What the best forms that were found for a plan come to.
pub open spec fn answered(
    plan: DerivativePlanV,
    bests: Seq<Seq<CleaveLangV>>,
    fresh: FreshVars,
) -> AnsweredV {
    let count = plan.derivative_ids.len();
    let missing = missing_in(plan.derivative_ids, bests, count);
    if missing.len() > 0 {
        AnsweredV { func: None, error: Some(no_rule_for(plan.name, missing)), fresh }
    } else {
        let d = derived(plan, bests, count, fresh);
        match d.values {
            None => AnsweredV { func: None, error: None, fresh: d.fresh },
            Some(values) => AnsweredV {
                func: Some(
                    CTopLevelFnV {
                        def: CFunDefV {
                            name: plan.name,
                            params: plan.new_params,
                            body: wrapped(
                                d.frames,
                                returned(values, plan.k_ret, plan.of_result, d.fresh),
                            ),
                            carried_types: None,
                        },
                        param_types: plan.param_types,
                        result: if count == 1 {
                            plan.of_result
                        } else {
                            array_of(plan.of_result, count)
                        },
                        k_ret: plan.k_ret,
                        origin: None,
                    },
                ),
                error: None,
                fresh: if values.len() == 1 {
                    d.fresh
                } else {
                    after_var(d.fresh)
                },
            },
        }
    }
}

/// The nodes of lists of nodes.
pub open spec fn node_views(bests: Seq<Vec<CleaveLang>>) -> Seq<Seq<CleaveLangV>> {
    Seq::new(bests.len(), |i: int| views(bests[i]@))
}

/// The names, in order, of what no rule differentiates.
fn find_missing(ids: &Vec<Option<usize>>, bests: &Vec<Vec<CleaveLang>>) -> (r: Vec<String>)
    ensures
        views(r@) == missing_in(ids@, node_views(bests@), ids@.len()),
{
    let mut out: Vec<String> = Vec::new();
    let mut i: usize = 0;
    let ghost all = node_views(bests@);
    while i < ids.len()
        invariant
            i <= ids.len(),
            all == node_views(bests@),
            views(out@) == missing_in(ids@, all, i as nat),
        decreases ids.len() - i,
    {
        if ids[i].is_some() {
            if i < bests.len() {
                assert(all[i as int] == views(bests@[i as int]@));
                if let Some(name) = undifferentiable_unit(&bests[i]) {
                    put_name(&mut out, &name);
                }
            }
        }
        i = i + 1;
    }
    out
}

/// Turns the best forms of the derivatives back.
fn build_param_derivatives(
    plan: &DerivativePlan,
    bests: &Vec<Vec<CleaveLang>>,
    st: &mut Rebuild,
    fresh: &mut FreshVars,
) -> (r: Option<Vec<CVal>>)
    requires
        views(old(st).frames@) == Seq::<FrameV>::empty(),
    ensures
        ({
            let d = derived(
                plan@,
                node_views(bests@),
                plan.derivative_ids@.len(),
                *old(fresh),
            );
            &&& *final(fresh) == d.fresh
            &&& views(final(st).frames@) == d.frames
            &&& match r {
                Some(values) => d.values == Some(views(values@)),
                None => d.values is None,
            }
        }),
{
    let ghost all = node_views(bests@);
    let mut out: Vec<CVal> = Vec::new();
    let mut done: bool = false;
    let mut i: usize = 0;
    while i < plan.derivative_ids.len()
        invariant
            i <= plan.derivative_ids.len(),
            all == node_views(bests@),
            ({
                let d = derived(plan@, all, i as nat, *old(fresh));
                &&& *fresh == d.fresh
                &&& views(st.frames@) == d.frames
                &&& match d.values {
                    Some(values) => !done && values == views(out@),
                    None => done,
                }
            }),
        decreases plan.derivative_ids.len() - i,
    {
        if !done {
            if i >= plan.param_types.len() {
                done = true;
            } else if plan.derivative_ids[i].is_none() {
                assert(views(plan.param_types@)[i as int] == plan.param_types@[i as int]@);
                out.push(zero_value(&plan.param_types[i]));
            } else if i >= bests.len() || bests[i].len() == 0 {
                assert(best_at(all, i as int).len() == 0);
                done = true;
            } else {
                assert(all[i as int] == views(bests@[i as int]@));
                st.memo = Table::new();
                let last: usize = bests[i].len() - 1;
                match st.rebuild(
                    &bests[i],
                    last,
                    &plan.fwd,
                    &plan.param_substitution,
                    fresh,
                ) {
                    Some(v) => {
                        out.push(v);
                    },
                    None => {
                        done = true;
                    },
                }
            }
        }
        i = i + 1;
    }
    if done {
        None
    } else {
        Some(out)
    }
}

/// A function or nothing, by its view.
pub open spec fn opt_func(f: Option<CTopLevelFn>) -> Option<CTopLevelFnV> {
    match f {
        Some(x) => Some(x@),
        None => None,
    }
}

/// What an answer to a plan comes to.
pub struct Answered {
    pub func: Option<CTopLevelFn>,
    pub error: Option<String>,
}

/// What the best forms that were found for a plan come to. There is one for each
/// derivative that was marked; the others are not looked at.
pub fn finish_derivative(
    plan: &DerivativePlan,
    bests: &Vec<Vec<CleaveLang>>,
    fresh: &mut FreshVars,
) -> (r: Answered)
    ensures
        ({
            let a = answered(plan@, node_views(bests@), *old(fresh));
            &&& opt_func(r.func) == a.func
            &&& opt_text(r.error) == a.error
            &&& *final(fresh) == a.fresh
        }),
{
    let missing: Vec<String> = find_missing(&plan.derivative_ids, bests);
    if missing.len() > 0 {
        assert(views(missing@).len() > 0);
        let mut message: String = text::glued("cannot derive `", plan.name.as_str());
        message.append("`: no derivative rule for `");
        message.append(text::join(&missing, "`, `").as_str());
        message.append("`");
        return Answered { func: None, error: Some(message) };
    }
    assert(views(missing@).len() == 0);
    let mut st: Rebuild = Rebuild::new();
    let values: Vec<CVal> = match build_param_derivatives(plan, bests, &mut st, fresh) {
        Some(values) => values,
        None => {
            return Answered { func: None, error: None };
        },
    };
    let end: CExpr = finish_derivative_body(values, plan.k_ret, &plan.of_result, fresh);
    let body: CExpr = wrap_frames(st.frames, end);
    let count: usize = plan.derivative_ids.len();
    let result: Ty = if count == 1 {
        plan.of_result.dup()
    } else {
        Ty::Array(
            Box::new(plan.of_result.dup()),
            Box::new(Ty::Const(ConstValue::Int(count as u64))),
        )
    };
    Answered {
        func: Some(
            CTopLevelFn {
                def: CFunDef {
                    name: plan.name.clone(),
                    params: dup_vars(&plan.new_params),
                    body,
                    carried_types: None,
                },
                param_types: dup_tys(&plan.param_types),
                result,
                k_ret: plan.k_ret,
                origin: None,
            },
        ),
        error: None,
    }
}

/// The making of the functions that were asked for.
pub struct Deriver {
    pub funcs: Vec<CTopLevelFn>,
    pub fresh: FreshVars,
    pub new_funcs: Vec<CTopLevelFn>,
    pub errors: Vec<String>,
}

#[verifier::ext_equal]
pub struct DeriverV {
    pub funcs: Seq<CTopLevelFnV>,
    pub fresh: FreshVars,
    pub new_funcs: Seq<CTopLevelFnV>,
    pub errors: Seq<Seq<char>>,
}

impl View for Deriver {
    type V = DeriverV;

    open spec fn view(&self) -> DeriverV {
        DeriverV {
            funcs: views(self.funcs@),
            fresh: self.fresh,
            new_funcs: views(self.new_funcs@),
            errors: views(self.errors@),
        }
    }
}

/// The messages with one more, if there is one.
pub open spec fn with_error(errors: Seq<Seq<char>>, error: Option<Seq<char>>) -> Seq<Seq<char>> {
    match error {
        Some(e) => errors.push(e),
        None => errors,
    }
}

/// The making once a request has been looked at.
pub open spec fn after_request(
    st: DeriverV,
    name: Seq<char>,
    of: Seq<char>,
    registry: Registry,
) -> DeriverV {
    match unit_of(st.funcs, of) {
        None => st,
        Some(f) => {
            let q = requested(name, f, st.funcs, registry, st.fresh);
            DeriverV { fresh: q.fresh, errors: with_error(st.errors, q.error), ..st }
        },
    }
}

/// The plan for a request.
pub open spec fn plan_for(
    st: DeriverV,
    name: Seq<char>,
    of: Seq<char>,
    registry: Registry,
) -> Option<DerivativePlanV> {
    match unit_of(st.funcs, of) {
        None => None,
        Some(f) => requested(name, f, st.funcs, registry, st.fresh).plan,
    }
}

/// The making once the answer to a plan is known.
pub open spec fn after_answer(
    st: DeriverV,
    plan: DerivativePlanV,
    bests: Seq<Seq<CleaveLangV>>,
) -> DeriverV {
    let a = answered(plan, bests, st.fresh);
    DeriverV {
        fresh: a.fresh,
        new_funcs: match a.func {
            Some(f) => st.new_funcs.push(f),
            None => st.new_funcs,
        },
        errors: with_error(st.errors, a.error),
        ..st
    }
}

impl Deriver {
    /// Nothing has been made. The fresh variables are above those that the program
    /// binds.
    pub fn new(program: CpsProgram) -> (r: Self)
        ensures
            r@ == (DeriverV {
                funcs: views(program.funcs@),
                fresh: FreshVars {
                    upcoming_var: following(max_in_program(views(program.funcs@))),
                    upcoming_label: 0,
                },
                new_funcs: Seq::empty(),
                errors: Seq::empty(),
            }),
    {
        let first: CVar = max_cvar_in_program(&program.funcs).wrapping_add(1);
        Deriver {
            funcs: program.funcs,
            fresh: FreshVars::starting_at(first),
            new_funcs: Vec::new(),
            errors: Vec::new(),
        }
    }

    /// The plan for a request. None where the other function is not known or could
    /// not be translated; the latter is noted.
    pub fn request(&mut self, req: &DerivativeRequest, registry: &Registry) -> (r: Option<
        DerivativePlan,
    >)
        ensures
            opt_plan(r) == plan_for(old(self)@, req.name@, req.of@, *registry),
            final(self)@ == after_request(old(self)@, req.name@, req.of@, *registry),
    {
        let of = match find_unit(&self.funcs, &req.of) {
            Some(of) => of,
            None => {
                return None;
            },
        };
        let q: Requested = plan_derivative(&req.name, of, &self.funcs, registry, &mut self.fresh);
        if let Some(error) = q.error {
            self.errors.push(error);
        }
        q.plan
    }

    /// Takes the best forms that were found for a plan. Says whether they could be
    /// dealt with.
    pub fn answer(&mut self, plan: &DerivativePlan, bests: &Vec<Vec<CleaveLang>>) -> (r: bool)
        ensures
            final(self)@ == after_answer(old(self)@, plan@, node_views(bests@)),
            r == ({
                let a = answered(plan@, node_views(bests@), old(self)@.fresh);
                a.func is Some || a.error is Some
            }),
    {
        let a: Answered = finish_derivative(plan, bests, &mut self.fresh);
        let mut dealt: bool = false;
        if let Some(error) = a.error {
            self.errors.push(error);
            dealt = true;
        }
        if let Some(func) = a.func {
            self.new_funcs.push(func);
            dealt = true;
        }
        dealt
    }

    /// The program with the new functions after the others, or the messages if there
    /// are any.
    pub fn finish(self) -> (r: Result<CpsProgram, Vec<String>>)
        ensures
            match r {
                Ok(program) => self@.errors.len() == 0 && views(program.funcs@) == self@.funcs
                    + self@.new_funcs,
                Err(errors) => self@.errors.len() > 0 && views(errors@) == self@.errors,
            },
    {
        if self.errors.len() > 0 {
            return Err(self.errors);
        }
        let mut funcs: Vec<CTopLevelFn> = self.funcs;
        let mut more: Vec<CTopLevelFn> = self.new_funcs;
        funcs.append(&mut more);
        Ok(CpsProgram { funcs })
    }
}

} // verus!
