//! Fresh variables for every binding of an expression.

use vstd::prelude::*;

use crate::cps::{group_cps, lemma_cexpr_view, CExprV, CFunDefV, CValV};
use crate::cps::{CExpr, CFunDef, CVal};
use crate::fresh::{after_var, dup_carried, FreshVars};
use crate::table::{group_views, views, Dup, Table};

verus! {

broadcast use {group_views, group_cps};

/// A value with its variable renamed.
pub open spec fn renamed_val(v: CValV, map: Map<u32, u32>) -> CValV {
    match v {
        CValV::Var(cv) => if map.contains_key(cv) {
            CValV::Var(map[cv])
        } else {
            v
        },
        _ => v,
    }
}

/// The values with their variables renamed.
pub open spec fn renamed_vals(vals: Seq<CValV>, map: Map<u32, u32>) -> Seq<CValV> {
    Seq::new(vals.len(), |i: int| renamed_val(vals[i], map))
}

/// An expression with every binding renamed.
pub struct RenamedV {
    pub expr: CExprV,
    /// The new name of each variable that was bound.
    pub map: Map<u32, u32>,
    pub fresh: FreshVars,
}

/// Parameters with fresh names.
pub struct RenamedParamsV {
    pub params: Seq<u32>,
    pub map: Map<u32, u32>,
    pub fresh: FreshVars,
}

/// The first `n` parameters with fresh names.
pub open spec fn renamed_params(
    params: Seq<u32>,
    n: nat,
    map: Map<u32, u32>,
    fresh: FreshVars,
) -> RenamedParamsV
    decreases n,
{
    if n == 0 || n > params.len() {
        RenamedParamsV { params: Seq::empty(), map, fresh }
    } else {
        let before = renamed_params(params, (n - 1) as nat, map, fresh);
        RenamedParamsV {
            params: before.params.push(before.fresh.upcoming_var),
            map: before.map.insert(params[n - 1], before.fresh.upcoming_var),
            fresh: after_var(before.fresh),
        }
    }
}

/// Continuations with every binding renamed.
pub struct RenamedDefsV {
    pub defs: Seq<CFunDefV>,
    pub fresh: FreshVars,
}

/// The first `n` continuations with every binding renamed. What one binds is not
/// known to the next.
pub open spec fn renamed_defs(
    defs: Seq<CFunDefV>,
    n: nat,
    map: Map<u32, u32>,
    fresh: FreshVars,
) -> RenamedDefsV
    decreases defs, n,
{
    if n == 0 || n > defs.len() {
        RenamedDefsV { defs: Seq::empty(), fresh }
    } else {
        let before = renamed_defs(defs, (n - 1) as nat, map, fresh);
        let d = defs[n - 1];
        let p = renamed_params(d.params, d.params.len(), map, before.fresh);
        let body = renamed(d.body, p.map, p.fresh);
        RenamedDefsV {
            defs: before.defs.push(
                CFunDefV {
                    name: d.name,
                    params: p.params,
                    body: body.expr,
                    carried_types: d.carried_types,
                },
            ),
            fresh: body.fresh,
        }
    }
}

/// The expression with every binding renamed, and every use of a renamed variable
/// with it. Labels stay.
pub open spec fn renamed(e: CExprV, map: Map<u32, u32>, fresh: FreshVars) -> RenamedV
    decreases e, 0nat,
{
    match e {
        CExprV::LetPrim { var, ty, op, args, cont } => {
            let new_var = fresh.upcoming_var;
            let rest = renamed(*cont, map.insert(var, new_var), after_var(fresh));
            RenamedV {
                expr: CExprV::LetPrim {
                    var: new_var,
                    ty,
                    op,
                    args: renamed_vals(args, map),
                    cont: Box::new(rest.expr),
                },
                map: rest.map,
                fresh: rest.fresh,
            }
        },
        CExprV::App { func, args } => RenamedV {
            expr: CExprV::App { func: renamed_val(func, map), args: renamed_vals(args, map) },
            map,
            fresh,
        },
        CExprV::If { cond, then_branch, else_branch } => {
            let t = renamed(*then_branch, map, fresh);
            let f = renamed(*else_branch, t.map, t.fresh);
            RenamedV {
                expr: CExprV::If {
                    cond: renamed_val(cond, map),
                    then_branch: Box::new(t.expr),
                    else_branch: Box::new(f.expr),
                },
                map: f.map,
                fresh: f.fresh,
            }
        },
        CExprV::Fix { defs, body } => {
            let d = renamed_defs(defs, defs.len(), map, fresh);
            let b = renamed(*body, map, d.fresh);
            RenamedV {
                expr: CExprV::Fix { defs: d.defs, body: Box::new(b.expr) },
                map: b.map,
                fresh: b.fresh,
            }
        },
    }
}

fn rename_val(v: &CVal, map: &Table<u32, u32>) -> (r: CVal)
    ensures
        r@ == renamed_val(v@, map@),
{
    match v {
        CVal::Var(cv) => match map.get(cv) {
            Some(new_var) => CVal::Var(*new_var),
            None => CVal::Var(*cv),
        },
        other => other.dup(),
    }
}

fn rename_vals(vals: &Vec<CVal>, map: &Table<u32, u32>) -> (r: Vec<CVal>)
    ensures
        views(r@) == renamed_vals(views(vals@), map@),
{
    let mut out: Vec<CVal> = Vec::new();
    let mut i: usize = 0;
    while i < vals.len()
        invariant
            i <= vals.len(),
            out.len() == i,
            forall|k: int|
                0 <= k < i ==> (#[trigger] out@[k])@ == renamed_val(vals@[k]@, map@),
        decreases vals.len() - i,
    {
        out.push(rename_val(&vals[i], map));
        i = i + 1;
    }
    assert(views(out@) =~= renamed_vals(views(vals@), map@));
    out
}

/// Gives fresh names to parameters, and notes them in the map.
pub fn rename_params(
    params: &Vec<u32>,
    count: usize,
    map: &mut Table<u32, u32>,
    fresh: &mut FreshVars,
) -> (r: Vec<u32>)
    requires
        count <= params.len(),
    ensures
        ({
            let p = renamed_params(params@, count as nat, old(map)@, *old(fresh));
            r@ == p.params && final(map)@ == p.map && *final(fresh) == p.fresh
        }),
{
    let mut out: Vec<u32> = Vec::new();
    let mut i: usize = 0;
    while i < count
        invariant
            i <= count,
            count <= params.len(),
            ({
                let p = renamed_params(params@, i as nat, old(map)@, *old(fresh));
                out@ == p.params && map@ == p.map && *fresh == p.fresh
            }),
        decreases count - i,
    {
        let new_param: u32 = fresh.var();
        map.insert(params[i], new_param);
        out.push(new_param);
        i = i + 1;
    }
    out
}

/// Gives fresh names to every binding of an expression. The map says what the
/// variables that it uses are called, and takes up those that it binds.
pub fn alpha_rename(expr: &CExpr, map: &mut Table<u32, u32>, fresh: &mut FreshVars) -> (r: CExpr)
    ensures
        ({
            let n = renamed(expr@, old(map)@, *old(fresh));
            r@ == n.expr && final(map)@ == n.map && *final(fresh) == n.fresh
        }),
    decreases expr, 0nat,
{
    proof {
        lemma_cexpr_view(*expr);
    }
    match expr {
        CExpr::LetPrim { var, ty, op, args, cont } => {
            let new_args: Vec<CVal> = rename_vals(args, map);
            let new_var: u32 = fresh.var();
            map.insert(*var, new_var);
            let rest: CExpr = alpha_rename(cont, map, fresh);
            CExpr::LetPrim {
                var: new_var,
                ty: ty.dup(),
                op: op.dup(),
                args: new_args,
                cont: Box::new(rest),
            }
        },
        CExpr::App { func, args } => CExpr::App {
            func: rename_val(func, map),
            args: rename_vals(args, map),
        },
        CExpr::If { cond, then_branch, else_branch } => {
            let new_cond: CVal = rename_val(cond, map);
            let t: CExpr = alpha_rename(then_branch, map, fresh);
            let f: CExpr = alpha_rename(else_branch, map, fresh);
            CExpr::If { cond: new_cond, then_branch: Box::new(t), else_branch: Box::new(f) }
        },
        CExpr::Fix { defs, body } => {
            let new_defs: Vec<CFunDef> = rename_defs(defs, map, fresh);
            let new_body: CExpr = alpha_rename(body, map, fresh);
            CExpr::Fix { defs: new_defs, body: Box::new(new_body) }
        },
    }
}

fn rename_defs(defs: &Vec<CFunDef>, map: &Table<u32, u32>, fresh: &mut FreshVars) -> (r: Vec<CFunDef>)
    ensures
        ({
            let d = renamed_defs(views(defs@), defs@.len(), map@, *old(fresh));
            views(r@) == d.defs && *final(fresh) == d.fresh
        }),
    decreases defs, 0nat,
{
    let mut out: Vec<CFunDef> = Vec::new();
    let mut i: usize = 0;
    let ghost all = views(defs@);
    while i < defs.len()
        invariant
            i <= defs.len(),
            all == views(defs@),
            ({
                let d = renamed_defs(all, i as nat, map@, *old(fresh));
                views(out@) == d.defs && *fresh == d.fresh
            }),
        decreases defs.len() - i,
    {
        let d = &defs[i];
        let mut inner: Table<u32, u32> = map.dup();
        let new_params: Vec<u32> = rename_params(&d.params, d.params.len(), &mut inner, fresh);
        let new_body: CExpr = alpha_rename(&d.body, &mut inner, fresh);
        out.push(
            CFunDef {
                name: d.name.clone(),
                params: new_params,
                body: new_body,
                carried_types: dup_carried(&d.carried_types),
            },
        );
        i = i + 1;
        assert(all[i - 1] == d@);
    }
    out
}

} // verus!
