//! Expressions that differ in the names of what they bind.

use vstd::prelude::*;

use crate::cps::{CExprV, CFunDefV, CTopLevelFnV, CValV};
use crate::cps_laws::{
    binds, binds_first, lemma_renamed_binds_fresh, lemma_renamed_defs_bind_fresh,
    lemma_renamed_params_count,
};
use crate::fresh::{after_var, FreshVars};
use crate::rename::{renamed, renamed_defs, renamed_params, renamed_vals};
use crate::running::{in_order, in_order_first, loop_in_order, outcome_var};
use crate::shapes::{counted_loop, real_call, LoopV};
use crate::vars::{referenced_in, referenced_in_first, vars_of};

verus! {

/// Where the variable of a value is another one.
pub open spec fn sent_val(v: CValV, f: spec_fn(u32) -> u32) -> CValV {
    match v {
        CValV::Var(x) => CValV::Var(f(x)),
        other => other,
    }
}

/// Where the variables of values are others.
pub open spec fn sent_vals(vals: Seq<CValV>, f: spec_fn(u32) -> u32) -> Seq<CValV> {
    Seq::new(vals.len(), |i: int| sent_val(vals[i], f))
}

/// The names, with one variable named anew.
pub open spec fn with_name(f: spec_fn(u32) -> u32, var: u32, new: u32) -> spec_fn(u32) -> u32 {
    |y: u32|
        if y == var {
            new
        } else {
            f(y)
        }
}

/// The names, with variables named anew, position by position.
pub open spec fn with_names(f: spec_fn(u32) -> u32, vars: Seq<u32>, news: Seq<u32>) -> spec_fn(
    u32,
) -> u32 {
    |y: u32|
        if vars.contains(y) {
            news[vars.index_of(y)]
        } else {
            f(y)
        }
}

/// Whether a new name is that of none of the other variables.
pub open spec fn apart(used: Set<u32>, var: u32, f: spec_fn(u32) -> u32, new: u32) -> bool {
    forall|y: u32| #[trigger] used.contains(y) && y != var ==> f(y) != new
}

/// Whether new names are those of none of the other variables.
pub open spec fn all_apart(
    used: Set<u32>,
    vars: Seq<u32>,
    f: spec_fn(u32) -> u32,
    news: Seq<u32>,
) -> bool {
    forall|y: u32| #[trigger] used.contains(y) && !vars.contains(y) ==> !news.contains(f(y))
}

/// Whether the second expression is the first with other names: `f` gives the names of
/// the variables that come from outside, and no name is given twice where that would
/// matter.
pub open spec fn alike(e: CExprV, x: CExprV, f: spec_fn(u32) -> u32) -> bool
    decreases e, 0nat,
{
    match (e, x) {
        (
            CExprV::LetPrim { var, ty, op, args, cont },
            CExprV::LetPrim { var: new, ty: ty_x, op: op_x, args: args_x, cont: cont_x },
        ) => {
            &&& ty_x == ty
            &&& op_x == op
            &&& args_x == sent_vals(args, f)
            &&& apart(referenced_in(*cont), var, f, new)
            &&& alike(*cont, *cont_x, with_name(f, var, new))
        },
        (CExprV::App { func, args }, CExprV::App { func: func_x, args: args_x }) => {
            &&& func_x == sent_val(func, f)
            &&& args_x == sent_vals(args, f)
        },
        (
            CExprV::If { cond, then_branch, else_branch },
            CExprV::If { cond: cond_x, then_branch: then_x, else_branch: else_x },
        ) => {
            &&& cond_x == sent_val(cond, f)
            &&& alike(*then_branch, *then_x, f)
            &&& alike(*else_branch, *else_x, f)
            &&& forall|y: u32| #[trigger]
                referenced_in(*else_branch).contains(y) ==> !binds(*then_x).contains(f(y))
        },
        (CExprV::Fix { defs, body }, CExprV::Fix { defs: defs_x, body: body_x }) => {
            &&& defs_x.len() == defs.len()
            &&& alike_first(defs, defs_x, defs.len(), f)
            &&& alike(*body, *body_x, f)
        },
        _ => false,
    }
}

/// Whether the first `n` continuations are the same with other names.
pub open spec fn alike_first(
    defs: Seq<CFunDefV>,
    defs_x: Seq<CFunDefV>,
    n: nat,
    f: spec_fn(u32) -> u32,
) -> bool
    decreases defs, n,
{
    if n == 0 || n > defs.len() || n > defs_x.len() {
        true
    } else {
        let d = defs[n - 1];
        let d_x = defs_x[n - 1];
        &&& alike_first(defs, defs_x, (n - 1) as nat, f)
        &&& d_x.name == d.name
        &&& d_x.carried_types == d.carried_types
        &&& d_x.params.len() == d.params.len()
        &&& d.params.no_duplicates()
        &&& d_x.params.no_duplicates()
        &&& all_apart(referenced_in(d.body), d.params, f, d_x.params)
        &&& alike(d.body, d_x.body, with_names(f, d.params, d_x.params))
    }
}

/// Whether the one set lies in the other.
pub open spec fn within(a: Set<u32>, b: Set<u32>) -> bool {
    forall|y: u32| #[trigger] a.contains(y) ==> b.contains(y)
}

/// What the parts of an expression use, the whole does.
pub proof fn lemma_parts_used(e: CExprV)
    ensures
        match e {
            CExprV::LetPrim { args, cont, .. } => within(vars_of(args), referenced_in(e)) && within(
                referenced_in(*cont),
                referenced_in(e),
            ),
            CExprV::App { func, args } => within(vars_of(seq![func]), referenced_in(e)) && within(
                vars_of(args),
                referenced_in(e),
            ),
            CExprV::If { cond, then_branch, else_branch } => within(
                vars_of(seq![cond]),
                referenced_in(e),
            ) && within(referenced_in(*then_branch), referenced_in(e)) && within(
                referenced_in(*else_branch),
                referenced_in(e),
            ),
            CExprV::Fix { defs, body } => within(
                referenced_in_first(defs, defs.len()),
                referenced_in(e),
            ) && within(referenced_in(*body), referenced_in(e)),
        },
{
}

/// What continuations use, all of them together do.
pub proof fn lemma_parts_used_first(defs: Seq<CFunDefV>, n: nat)
    requires
        0 < n <= defs.len(),
    ensures
        within(referenced_in_first(defs, (n - 1) as nat), referenced_in_first(defs, n)),
        within(referenced_in(defs[n - 1].body), referenced_in_first(defs, n)),
{
}

/// Whether two ways to name agree on the variables.
pub open spec fn agree_on(used: Set<u32>, f: spec_fn(u32) -> u32, g: spec_fn(u32) -> u32) -> bool {
    forall|y: u32| #[trigger] used.contains(y) ==> f(y) == g(y)
}

proof fn lemma_sent_vals_agree(
    vals: Seq<CValV>,
    f: spec_fn(u32) -> u32,
    g: spec_fn(u32) -> u32,
)
    requires
        agree_on(vars_of(vals), f, g),
    ensures
        sent_vals(vals, f) == sent_vals(vals, g),
{
    assert forall|i: int| 0 <= i < vals.len() implies sent_val(vals[i], f) == sent_val(
        vals[i],
        g,
    ) by {
        if let CValV::Var(y) = vals[i] {
            assert(vals.contains(CValV::Var(y)));
            assert(vars_of(vals).contains(y));
        }
    }
    assert(sent_vals(vals, f) =~= sent_vals(vals, g));
}

/// Only the names of variables that are used matter.
pub proof fn lemma_alike_agrees(
    e: CExprV,
    x: CExprV,
    f: spec_fn(u32) -> u32,
    g: spec_fn(u32) -> u32,
)
    requires
        alike(e, x, f),
        agree_on(referenced_in(e), f, g),
    ensures
        alike(e, x, g),
    decreases e, 0nat,
{
    lemma_parts_used(e);
    match (e, x) {
        (
            CExprV::LetPrim { var, args, cont, .. },
            CExprV::LetPrim { var: new, cont: cont_x, .. },
        ) => {
            lemma_sent_vals_agree(args, f, g);
            lemma_alike_agrees(*cont, *cont_x, with_name(f, var, new), with_name(g, var, new));
        },
        (CExprV::App { func, args }, CExprV::App { .. }) => {
            lemma_sent_vals_agree(args, f, g);
            lemma_sent_vals_agree(seq![func], f, g);
            assert(sent_vals(seq![func], f)[0] == sent_vals(seq![func], g)[0]);
        },
        (
            CExprV::If { cond, then_branch, else_branch },
            CExprV::If { then_branch: then_x, else_branch: else_x, .. },
        ) => {
            lemma_sent_vals_agree(seq![cond], f, g);
            assert(sent_vals(seq![cond], f)[0] == sent_vals(seq![cond], g)[0]);
            lemma_alike_agrees(*then_branch, *then_x, f, g);
            lemma_alike_agrees(*else_branch, *else_x, f, g);
        },
        (CExprV::Fix { defs, body }, CExprV::Fix { defs: defs_x, body: body_x }) => {
            lemma_alike_first_agrees(defs, defs_x, defs.len(), f, g);
            lemma_alike_agrees(*body, *body_x, f, g);
        },
        _ => {},
    }
}

proof fn lemma_alike_first_agrees(
    defs: Seq<CFunDefV>,
    defs_x: Seq<CFunDefV>,
    n: nat,
    f: spec_fn(u32) -> u32,
    g: spec_fn(u32) -> u32,
)
    requires
        n <= defs.len(),
        defs_x.len() == defs.len(),
        alike_first(defs, defs_x, n, f),
        agree_on(referenced_in_first(defs, n), f, g),
    ensures
        alike_first(defs, defs_x, n, g),
    decreases defs, n,
{
    if n > 0 {
        let d = defs[n - 1];
        let d_x = defs_x[n - 1];
        lemma_parts_used_first(defs, n);
        lemma_alike_first_agrees(defs, defs_x, (n - 1) as nat, f, g);
        lemma_alike_agrees(
            d.body,
            d_x.body,
            with_names(f, d.params, d_x.params),
            with_names(g, d.params, d_x.params),
        );
    }
}

/// Whether every variable keeps its name.
pub open spec fn keeps_names(f: spec_fn(u32) -> u32) -> bool {
    forall|y: u32| #[trigger] f(y) == y
}

/// An expression is like itself.
pub proof fn lemma_alike_itself(e: CExprV, funcs: Seq<CTopLevelFnV>, f: spec_fn(u32) -> u32)
    requires
        in_order(e, funcs),
        keeps_names(f),
    ensures
        alike(e, e, f),
    decreases e, 0nat,
{
    match e {
        CExprV::LetPrim { var, args, cont, .. } => {
            assert(sent_vals(args, f) =~= args);
            lemma_alike_itself(*cont, funcs, with_name(f, var, var));
        },
        CExprV::App { func, args } => {
            assert(sent_vals(args, f) =~= args);
        },
        CExprV::If { then_branch, else_branch, .. } => {
            lemma_alike_itself(*then_branch, funcs, f);
            lemma_alike_itself(*else_branch, funcs, f);
        },
        CExprV::Fix { defs, body } => {
            lemma_alike_first_itself(defs, defs.len(), funcs, f);
            lemma_alike_itself(*body, funcs, f);
        },
    }
}

proof fn lemma_alike_first_itself(
    defs: Seq<CFunDefV>,
    n: nat,
    funcs: Seq<CTopLevelFnV>,
    f: spec_fn(u32) -> u32,
)
    requires
        n <= defs.len(),
        in_order_first(defs, n, funcs),
        keeps_names(f),
    ensures
        alike_first(defs, defs, n, f),
    decreases defs, n,
{
    if n > 0 {
        let d = defs[n - 1];
        lemma_alike_first_itself(defs, (n - 1) as nat, funcs, f);
        lemma_names_kept(f, d.params);
        lemma_alike_itself(d.body, funcs, with_names(f, d.params, d.params));
    }
}

/// Naming variables by themselves keeps names.
pub proof fn lemma_names_kept(f: spec_fn(u32) -> u32, vars: Seq<u32>)
    requires
        keeps_names(f),
    ensures
        keeps_names(with_names(f, vars, vars)),
{
}

/// The new name of a variable, if it has one.
pub open spec fn name_in(map: Map<u32, u32>, v: u32) -> u32 {
    if map.contains_key(v) {
        map[v]
    } else {
        v
    }
}

/// The names, each with its new name.
pub open spec fn named_in(map: Map<u32, u32>, f: spec_fn(u32) -> u32) -> spec_fn(u32) -> u32 {
    |y: u32| name_in(map, f(y))
}

/// Renaming gives no new name to what an expression does not bind.
proof fn lemma_renamed_keeps(z: CExprV, map: Map<u32, u32>, fresh: FreshVars, v: u32)
    requires
        !binds(z).contains(v),
    ensures
        name_in(renamed(z, map, fresh).map, v) == name_in(map, v),
    decreases z,
{
    match z {
        CExprV::LetPrim { var, cont, .. } => {
            assert(binds(z)[0] == var);
            assert forall|u: u32| binds(*cont).contains(u) implies binds(z).contains(u) by {
                let k = choose|k: int| 0 <= k < binds(*cont).len() && binds(*cont)[k] == u;
                assert(binds(z)[k + 1] == u);
            }
            lemma_renamed_keeps(
                *cont,
                map.insert(var, fresh.upcoming_var),
                after_var(fresh),
                v,
            );
        },
        CExprV::App { .. } => {},
        CExprV::If { then_branch, else_branch, .. } => {
            let t = renamed(*then_branch, map, fresh);
            lemma_in_sum(binds(*then_branch), binds(*else_branch));
            lemma_renamed_keeps(*then_branch, map, fresh, v);
            lemma_renamed_keeps(*else_branch, t.map, t.fresh, v);
        },
        CExprV::Fix { defs, body } => {
            let d = renamed_defs(defs, defs.len(), map, fresh);
            lemma_in_sum(binds_first(defs, defs.len()), binds(*body));
            lemma_renamed_keeps(*body, map, d.fresh, v);
        },
    }
}

/// What two lists hold, the sum of them does.
pub proof fn lemma_in_sum(a: Seq<u32>, b: Seq<u32>)
    ensures
        forall|v: u32| #[trigger] a.contains(v) ==> (a + b).contains(v),
        forall|v: u32| #[trigger] b.contains(v) ==> (a + b).contains(v),
{
    assert forall|v: u32| #[trigger] a.contains(v) implies (a + b).contains(v) by {
        let k = choose|k: int| 0 <= k < a.len() && a[k] == v;
        assert((a + b)[k] == v);
    }
    assert forall|v: u32| #[trigger] b.contains(v) implies (a + b).contains(v) by {
        let k = choose|k: int| 0 <= k < b.len() && b[k] == v;
        assert((a + b)[a.len() + k] == v);
    }
}

proof fn lemma_sent_twice(vals: Seq<CValV>, f: spec_fn(u32) -> u32, map: Map<u32, u32>)
    ensures
        renamed_vals(sent_vals(vals, f), map) == sent_vals(vals, named_in(map, f)),
{
    assert(renamed_vals(sent_vals(vals, f), map) =~= sent_vals(vals, named_in(map, f)));
}

/// Whether every variable that is used has a name below the bound.
pub open spec fn names_below(used: Set<u32>, f: spec_fn(u32) -> u32, bound: int) -> bool {
    forall|y: u32| #[trigger] used.contains(y) ==> f(y) < bound
}

/// What parameters are renamed to, and what other variables are.
pub proof fn lemma_renamed_params_names(
    params: Seq<u32>,
    n: nat,
    map: Map<u32, u32>,
    fresh: FreshVars,
)
    requires
        n <= params.len(),
        params.no_duplicates(),
        fresh.upcoming_var + n <= u32::MAX,
    ensures
        ({
            let p = renamed_params(params, n, map, fresh);
            &&& forall|k: int|
                0 <= k < n ==> name_in(p.map, #[trigger] params[k]) == fresh.upcoming_var + k
            &&& forall|v: u32|
                (forall|k: int| 0 <= k < n ==> params[k] != v) ==> #[trigger] name_in(p.map, v)
                    == name_in(map, v)
        }),
    decreases n,
{
    if n > 0 {
        let before = renamed_params(params, (n - 1) as nat, map, fresh);
        lemma_renamed_params_names(params, (n - 1) as nat, map, fresh);
        lemma_renamed_params_count(params, (n - 1) as nat, map, fresh);
        let p = renamed_params(params, n, map, fresh);
        assert forall|k: int| 0 <= k < n implies name_in(p.map, #[trigger] params[k])
            == fresh.upcoming_var + k by {
            if k < n - 1 {
                assert(name_in(before.map, params[k]) == fresh.upcoming_var + k);
                assert(params[k] != params[n - 1]);
            }
        }
        assert forall|v: u32|
            (forall|k: int| 0 <= k < n ==> params[k] != v) implies #[trigger] name_in(p.map, v)
            == name_in(map, v) by {
            assert(params[n - 1] != v);
            assert(name_in(before.map, v) == name_in(map, v));
        }
    }
}

/// An expression with every binding renamed is like what it was like before.
pub proof fn lemma_alike_renamed(
    e: CExprV,
    x: CExprV,
    f: spec_fn(u32) -> u32,
    map: Map<u32, u32>,
    fresh: FreshVars,
)
    requires
        alike(e, x, f),
        fresh.upcoming_var + binds(x).len() <= u32::MAX,
        names_below(referenced_in(e), named_in(map, f), fresh.upcoming_var as int),
    ensures
        alike(e, renamed(x, map, fresh).expr, named_in(map, f)),
    decreases e, 0nat,
{
    let g = named_in(map, f);
    lemma_parts_used(e);
    match (e, x) {
        (
            CExprV::LetPrim { var, args, cont, .. },
            CExprV::LetPrim { var: var_x, cont: cont_x, .. },
        ) => {
            let new = fresh.upcoming_var;
            let inner = map.insert(var_x, new);
            lemma_sent_twice(args, f, map);
            assert forall|y: u32| #[trigger] referenced_in(*cont).contains(y) implies named_in(
                inner,
                with_name(f, var, var_x),
            )(y) == with_name(g, var, new)(y) by {}
            lemma_alike_renamed(
                *cont,
                *cont_x,
                with_name(f, var, var_x),
                inner,
                after_var(fresh),
            );
            lemma_alike_agrees(
                *cont,
                renamed(*cont_x, inner, after_var(fresh)).expr,
                named_in(inner, with_name(f, var, var_x)),
                with_name(g, var, new),
            );
        },
        (CExprV::App { func, args }, CExprV::App { .. }) => {
            lemma_sent_twice(args, f, map);
        },
        (
            CExprV::If { then_branch, else_branch, .. },
            CExprV::If { then_branch: then_x, else_branch: else_x, .. },
        ) => {
            let t = renamed(*then_x, map, fresh);
            lemma_renamed_binds_fresh(*then_x, map, fresh);
            lemma_alike_renamed(*then_branch, *then_x, f, map, fresh);
            assert forall|y: u32| #[trigger] referenced_in(*else_branch).contains(y) implies
                named_in(t.map, f)(y) == g(y) by {
                lemma_renamed_keeps(*then_x, map, fresh, f(y));
            }
            lemma_alike_renamed(*else_branch, *else_x, f, t.map, t.fresh);
            lemma_alike_agrees(
                *else_branch,
                renamed(*else_x, t.map, t.fresh).expr,
                named_in(t.map, f),
                g,
            );
            assert forall|y: u32| #[trigger] referenced_in(*else_branch).contains(y) implies
                !binds(t.expr).contains(g(y)) by {
                if binds(t.expr).contains(g(y)) {
                    let k = choose|k: int|
                        0 <= k < binds(t.expr).len() && binds(t.expr)[k] == g(y);
                    assert(binds(t.expr)[k] == fresh.upcoming_var + k);
                }
            }
        },
        (CExprV::Fix { defs, body }, CExprV::Fix { defs: defs_x, body: body_x }) => {
            let d = renamed_defs(defs_x, defs_x.len(), map, fresh);
            lemma_renamed_defs_bind_fresh(defs_x, defs_x.len(), map, fresh);
            lemma_alike_first_renamed(defs, defs_x, defs.len(), f, map, fresh);
            lemma_alike_renamed(*body, *body_x, f, map, d.fresh);
        },
        _ => {},
    }
}

proof fn lemma_alike_first_renamed(
    defs: Seq<CFunDefV>,
    defs_x: Seq<CFunDefV>,
    n: nat,
    f: spec_fn(u32) -> u32,
    map: Map<u32, u32>,
    fresh: FreshVars,
)
    requires
        n <= defs.len(),
        defs_x.len() == defs.len(),
        alike_first(defs, defs_x, n, f),
        fresh.upcoming_var + binds_first(defs_x, n).len() <= u32::MAX,
        names_below(referenced_in_first(defs, n), named_in(map, f), fresh.upcoming_var as int),
    ensures
        alike_first(defs, renamed_defs(defs_x, n, map, fresh).defs, n, named_in(map, f)),
    decreases defs, n,
{
    if n > 0 {
        let g = named_in(map, f);
        let d = defs[n - 1];
        let d_x = defs_x[n - 1];
        lemma_parts_used_first(defs, n);
        let before = renamed_defs(defs_x, (n - 1) as nat, map, fresh);
        let now = renamed_defs(defs_x, n, map, fresh);
        lemma_renamed_defs_bind_fresh(defs_x, (n - 1) as nat, map, fresh);
        lemma_alike_first_renamed(defs, defs_x, (n - 1) as nat, f, map, fresh);
        let p = renamed_params(d_x.params, d_x.params.len(), map, before.fresh);
        lemma_renamed_params_count(d_x.params, d_x.params.len(), map, before.fresh);
        lemma_renamed_params_names(d_x.params, d_x.params.len(), map, before.fresh);
        let inner = with_names(f, d.params, d_x.params);
        let outer = with_names(g, d.params, p.params);
        assert(p.params.no_duplicates());
        assert forall|y: u32| #[trigger] referenced_in(d.body).contains(y) implies named_in(
            p.map,
            inner,
        )(y) == outer(y) && outer(y) < p.fresh.upcoming_var by {
            if d.params.contains(y) {
                let k = d.params.index_of(y);
                assert(inner(y) == d_x.params[k]);
                assert(name_in(p.map, d_x.params[k]) == before.fresh.upcoming_var + k);
                assert(p.params[k] == before.fresh.upcoming_var + k);
            } else {
                assert(!d_x.params.contains(f(y)));
                assert(forall|k: int| 0 <= k < d_x.params.len() ==> d_x.params[k] != f(y));
                assert(name_in(p.map, f(y)) == name_in(map, f(y)));
                assert(referenced_in_first(defs, n).contains(y));
            }
        }
        lemma_alike_renamed(d.body, d_x.body, inner, p.map, p.fresh);
        lemma_alike_agrees(
            d.body,
            renamed(d_x.body, p.map, p.fresh).expr,
            named_in(p.map, inner),
            outer,
        );
        assert forall|y: u32| #[trigger]
            referenced_in(d.body).contains(y) && !d.params.contains(y) implies !p.params.contains(
            g(y),
        ) by {
            assert(referenced_in_first(defs, n).contains(y));
            if p.params.contains(g(y)) {
                let k = choose|k: int| 0 <= k < p.params.len() && p.params[k] == g(y);
                assert(p.params[k] == before.fresh.upcoming_var + k);
            }
        }
        assert(now.defs.drop_last() =~= before.defs);
        lemma_alike_in_front(defs, now.defs, before.defs, (n - 1) as nat, g);
    }
}

proof fn lemma_alike_in_front(
    defs: Seq<CFunDefV>,
    a: Seq<CFunDefV>,
    b: Seq<CFunDefV>,
    n: nat,
    f: spec_fn(u32) -> u32,
)
    requires
        n <= defs.len(),
        n <= a.len(),
        n <= b.len(),
        forall|i: int| 0 <= i < n ==> a[i] == b[i],
        alike_first(defs, b, n, f),
    ensures
        alike_first(defs, a, n, f),
    decreases n,
{
    if n > 0 {
        lemma_alike_in_front(defs, a, b, (n - 1) as nat, f);
    }
}

/// Continuations that are alike and their bodies stand for calls that are alike.
pub proof fn lemma_alike_call(
    defs: Seq<CFunDefV>,
    body: CExprV,
    defs_x: Seq<CFunDefV>,
    body_x: CExprV,
    f: spec_fn(u32) -> u32,
)
    requires
        defs_x.len() == defs.len(),
        alike_first(defs, defs_x, defs.len(), f),
        alike(body, body_x, f),
    ensures
        real_call(defs, body) is Some <==> real_call(defs_x, body_x) is Some,
        real_call(defs, body) matches Some(call) ==> real_call(defs_x, body_x) matches Some(call_x)
            && {
            &&& call_x.unit == call.unit
            &&& call_x.args == sent_vals(call.args, f)
            &&& apart(referenced_in(call.rest), call.result_var, f, call_x.result_var)
            &&& alike(
                call.rest,
                call_x.rest,
                with_name(f, call.result_var, call_x.result_var),
            )
        },
{
    if defs.len() == 1 {
        assert(alike_first(defs, defs_x, 1, f));
        if let (CExprV::App { args, .. }, CExprV::App { args: args_x, .. }) = (body, body_x) {
            if args.len() > 0 {
                assert(args_x.last() == sent_val(args.last(), f));
                assert(args_x.drop_last() =~= sent_vals(args.drop_last(), f));
            }
        }
        if let Some(call) = real_call(defs, body) {
            let call_x = real_call(defs_x, body_x)->Some_0;
            let d = defs[0];
            let d_x = defs_x[0];
            assert(d.params =~= seq![call.result_var]);
            assert(d_x.params =~= seq![call_x.result_var]);
            assert forall|y: u32| #[trigger] referenced_in(call.rest).contains(y) && y
                != call.result_var implies f(y) != call_x.result_var by {
                assert(!d.params.contains(y));
                assert(d_x.params[0] == call_x.result_var);
                assert(!d_x.params.contains(f(y)));
            }
            assert forall|y: u32| #[trigger] referenced_in(call.rest).contains(y) implies with_names(
                f,
                d.params,
                d_x.params,
            )(y) == with_name(f, call.result_var, call_x.result_var)(y) by {
                if y == call.result_var {
                    assert(d.params[0] == y);
                    assert(d.params.contains(y));
                } else {
                    assert(!d.params.contains(y));
                }
            }
            lemma_alike_agrees(
                call.rest,
                call_x.rest,
                with_names(f, d.params, d_x.params),
                with_name(f, call.result_var, call_x.result_var),
            );
        }
    }
}

/// Whether two counted loops are alike. The names of what their turns and what
/// follows use are `inner`.
pub open spec fn loops_alike(
    l: LoopV,
    l_x: LoopV,
    f: spec_fn(u32) -> u32,
    inner: spec_fn(u32) -> u32,
) -> bool {
    &&& l_x.name == l.name
    &&& l_x.start == l.start
    &&& l_x.end == l.end
    &&& l_x.carried_init == sent_vals(l.carried_init, f)
    &&& alike(l.turn, l_x.turn, inner)
    &&& alike(l.after, l_x.after, inner)
}

/// Continuations that are alike and their bodies stand for counted loops that are
/// alike, where only the choice between turns and what follows uses the outcome of the
/// test.
pub proof fn lemma_alike_loop(
    defs: Seq<CFunDefV>,
    body: CExprV,
    defs_x: Seq<CFunDefV>,
    body_x: CExprV,
    f: spec_fn(u32) -> u32,
)
    requires
        defs_x.len() == defs.len(),
        alike_first(defs, defs_x, defs.len(), f),
        alike(body, body_x, f),
        loop_in_order(defs, body),
    ensures
        counted_loop(defs, body) is Some <==> counted_loop(defs_x, body_x) is Some,
        counted_loop(defs, body) matches Some(l) ==> counted_loop(defs_x, body_x) matches Some(l_x)
            && loops_alike(l, l_x, f, with_names(f, defs[0].params, defs_x[0].params)),
{
    if defs.len() == 1 {
        assert(alike_first(defs, defs_x, 1, f));
        let d = defs[0];
        let d_x = defs_x[0];
        let inner = with_names(f, d.params, d_x.params);
        assert(alike(d.body, d_x.body, inner));
        if let (CExprV::App { args, .. }, CExprV::App { args: args_x, .. }) = (body, body_x) {
            if args.len() > 0 {
                assert(args_x[0] == sent_val(args[0], f));
                assert(args_x.subrange(1, args_x.len() as int) =~= sent_vals(
                    args.subrange(1, args.len() as int),
                    f,
                ));
            }
        }
        if let (
            CExprV::Fix { defs: tests, body: test },
            CExprV::Fix { defs: tests_x, body: test_x },
        ) = (d.body, d_x.body) {
            lemma_alike_call(tests, *test, tests_x, *test_x, inner);
            if let Some(call) = real_call(tests, *test) {
                let call_x = real_call(tests_x, *test_x)->Some_0;
                if call.args.len() == 2 {
                    assert(call_x.args[1] == sent_val(call.args[1], inner));
                }
                if let Some(l) = counted_loop(defs, body) {
                    let l_x = counted_loop(defs_x, body_x)->Some_0;
                    let g = with_name(inner, call.result_var, call_x.result_var);
                    assert(call.result_var == outcome_var(defs));
                    lemma_alike_agrees(l.turn, l_x.turn, g, inner);
                    lemma_alike_agrees(l.after, l_x.after, g, inner);
                }
            }
        }
    }
}

/// What follows a call, the turns of a loop and what follows it use no more than the
/// whole.
pub proof fn lemma_shapes_used(e: CExprV)
    requires
        e is Fix,
    ensures
        real_call(e->defs, *e->Fix_body) matches Some(call) ==> within(
            referenced_in(call.rest),
            referenced_in(e),
        ) && within(vars_of(call.args), referenced_in(e)),
        counted_loop(e->defs, *e->Fix_body) matches Some(l) ==> within(
            referenced_in(l.turn),
            referenced_in(e),
        ) && within(referenced_in(l.after), referenced_in(e)) && within(
            vars_of(l.carried_init),
            referenced_in(e),
        ),
{
    let defs = e->defs;
    let body = *e->Fix_body;
    lemma_parts_used(e);
    if defs.len() == 1 {
        lemma_parts_used_first(defs, 1);
    }
    lemma_parts_used(body);
    if let Some(call) = real_call(defs, body) {
        lemma_fewer_used(body->App_args, call.args);
    }
    if let Some(l) = counted_loop(defs, body) {
        lemma_fewer_used(body->App_args, l.carried_init);
        let inner = defs[0].body;
        lemma_parts_used(inner);
        let tests = inner->defs;
        lemma_parts_used_first(tests, 1);
        lemma_parts_used(tests[0].body);
        assert forall|y: u32| #[trigger] referenced_in(l.turn).contains(y) implies referenced_in(
            e,
        ).contains(y) by {
            assert(referenced_in(tests[0].body).contains(y));
            assert(referenced_in_first(tests, 1).contains(y));
            assert(referenced_in(inner).contains(y));
        }
        assert forall|y: u32| #[trigger] referenced_in(l.after).contains(y) implies referenced_in(
            e,
        ).contains(y) by {
            assert(referenced_in(tests[0].body).contains(y));
            assert(referenced_in_first(tests, 1).contains(y));
            assert(referenced_in(inner).contains(y));
        }
    }
}

proof fn lemma_fewer_used(all: Seq<CValV>, some: Seq<CValV>)
    requires
        forall|v: CValV| #[trigger] some.contains(v) ==> all.contains(v),
    ensures
        within(vars_of(some), vars_of(all)),
{
    assert forall|y: u32| #[trigger] vars_of(some).contains(y) implies vars_of(all).contains(y) by {
        assert(some.contains(CValV::Var(y)));
    }
}

} // verus!
