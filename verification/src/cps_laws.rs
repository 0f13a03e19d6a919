//! What holds of expressions that are renamed, replaced into, and put together.

use vstd::prelude::*;

use crate::cps::{CExprV, CFunDefV, CTopLevelFnV, CValV};
use crate::fresh::{after_var, FreshVars};
use crate::optimize::{swapped, with_body};
use crate::rebuild::{
    framed, max_bound, max_bound_first, max_in_list, max_in_program, substituted_defs,
    substituted_val, substituted_vals, substituted_var, FrameV,
};
use crate::rename::{renamed, renamed_defs, renamed_params};
use crate::shapes::{
    counted_loop, real_call, straight_line, transparent, RealCallV, MAX_UNROLL_ITERATIONS,
};
use crate::vars::{referenced_in, referenced_in_first, vars_of};

verus! {

/// The call that a step of a call stands for is that call.
pub proof fn lemma_framed_call_is_call(frame: FrameV, tail: CExprV)
    ensures
        frame matches FrameV::Call { result_var, label, unit, args } ==> (framed(frame, tail)
            matches CExprV::Fix { defs, body } && real_call(defs, *body) == Some(
            RealCallV { result_var, unit, args, rest: tail },
        )),
{
    if let FrameV::Call { result_var, label, unit, args } = frame {
        let sent = args.push(CValV::Label(label));
        assert(sent.drop_last() =~= args);
        assert(sent.last() == CValV::Label(label));
    }
}

/// No loop of more turns than the limit counts as a counted loop.
pub proof fn lemma_counted_loop_is_short(defs: Seq<CFunDefV>, body: CExprV)
    ensures
        counted_loop(defs, body) matches Some(l) ==> l.end - l.start <= MAX_UNROLL_ITERATIONS,
{
}

/// A straight line is a chain of pure operations and calls, whatever is being looked
/// into.
pub proof fn lemma_straight_line_is_transparent(
    e: CExprV,
    funcs: Seq<CTopLevelFnV>,
    visiting: Set<Seq<char>>,
)
    requires
        straight_line(e),
    ensures
        transparent(e, funcs, visiting),
    decreases e,
{
    if let CExprV::LetPrim { op, cont, .. } = e {
        lemma_straight_line_is_transparent(*cont, funcs, visiting);
    }
}

/// Once every use of a variable has been replaced by another value, the expression
/// does not use it; every other variable is used as before, but for the one that
/// took its place.
pub proof fn lemma_replaced_is_gone(e: CExprV, from: u32, to: CValV)
    requires
        to != CValV::Var(from),
    ensures
        !referenced_in(substituted_var(e, from, to)).contains(from),
        forall|w: u32|
            w != from && to != CValV::Var(w) ==> (#[trigger] referenced_in(
                substituted_var(e, from, to),
            ).contains(w) <==> referenced_in(e).contains(w)),
        forall|w: u32|
            to == CValV::Var(w) ==> (#[trigger] referenced_in(
                substituted_var(e, from, to),
            ).contains(w) <==> referenced_in(e).contains(w) || referenced_in(e).contains(from)),
    decreases e, 0nat,
{
    match e {
        CExprV::LetPrim { args, cont, .. } => {
            lemma_replaced_vals(args, from, to);
            lemma_replaced_is_gone(*cont, from, to);
        },
        CExprV::App { func, args } => {
            lemma_replaced_vals(args, from, to);
            lemma_replaced_vals(seq![func], from, to);
            assert(substituted_vals(seq![func], from, to) =~= seq![substituted_val(func, from, to)]);
        },
        CExprV::If { cond, then_branch, else_branch } => {
            lemma_replaced_vals(seq![cond], from, to);
            assert(substituted_vals(seq![cond], from, to) =~= seq![substituted_val(cond, from, to)]);
            lemma_replaced_is_gone(*then_branch, from, to);
            lemma_replaced_is_gone(*else_branch, from, to);
        },
        CExprV::Fix { defs, body } => {
            lemma_replaced_defs(defs, defs.len(), from, to);
            lemma_replaced_is_gone(*body, from, to);
        },
    }
}

proof fn lemma_replaced_vals(vals: Seq<CValV>, from: u32, to: CValV)
    requires
        to != CValV::Var(from),
    ensures
        !vars_of(substituted_vals(vals, from, to)).contains(from),
        forall|w: u32|
            w != from && to != CValV::Var(w) ==> (#[trigger] vars_of(
                substituted_vals(vals, from, to),
            ).contains(w) <==> vars_of(vals).contains(w)),
        forall|w: u32|
            to == CValV::Var(w) ==> (#[trigger] vars_of(
                substituted_vals(vals, from, to),
            ).contains(w) <==> vars_of(vals).contains(w) || vars_of(vals).contains(from)),
{
    let now = substituted_vals(vals, from, to);
    assert forall|w: u32| w != from && vals.contains(CValV::Var(w)) implies now.contains(
        CValV::Var(w),
    ) by {
        let i = vals.index_of(CValV::Var(w));
        assert(now[i] == CValV::Var(w));
    }
    if vals.contains(CValV::Var(from)) {
        let i = vals.index_of(CValV::Var(from));
        assert(now[i] == to);
        assert(now.contains(to));
    }
    assert forall|w: u32| now.contains(CValV::Var(w)) implies w != from && (vals.contains(
        CValV::Var(w),
    ) || (to == CValV::Var(w) && vals.contains(CValV::Var(from)))) by {
        let i = now.index_of(CValV::Var(w));
        assert(now[i] == substituted_val(vals[i], from, to));
    }
}

proof fn lemma_replaced_defs(defs: Seq<CFunDefV>, n: nat, from: u32, to: CValV)
    requires
        to != CValV::Var(from),
        n <= defs.len(),
    ensures
        substituted_defs(defs, n, from, to).len() == n,
        ({
            let now = substituted_defs(defs, n, from, to);
            &&& !referenced_in_first(now, n).contains(from)
            &&& forall|w: u32|
                w != from && to != CValV::Var(w) ==> (#[trigger] referenced_in_first(
                    now,
                    n,
                ).contains(w) <==> referenced_in_first(defs, n).contains(w))
            &&& forall|w: u32|
                to == CValV::Var(w) ==> (#[trigger] referenced_in_first(now, n).contains(w)
                    <==> referenced_in_first(defs, n).contains(w) || referenced_in_first(
                    defs,
                    n,
                ).contains(from))
        }),
    decreases defs, n,
{
    if n > 0 {
        lemma_replaced_defs(defs, (n - 1) as nat, from, to);
        lemma_replaced_is_gone(defs[n - 1].body, from, to);
        let before = substituted_defs(defs, (n - 1) as nat, from, to);
        let now = substituted_defs(defs, n, from, to);
        assert(now.drop_last() =~= before);
        lemma_referenced_in_front(now, before, (n - 1) as nat);
    }
}

proof fn lemma_referenced_in_front(a: Seq<CFunDefV>, b: Seq<CFunDefV>, n: nat)
    requires
        n <= a.len(),
        n <= b.len(),
        forall|i: int| 0 <= i < n ==> a[i] == b[i],
    ensures
        referenced_in_first(a, n) == referenced_in_first(b, n),
    decreases n,
{
    if n > 0 {
        lemma_referenced_in_front(a, b, (n - 1) as nat);
    }
}

/// The variables that an expression binds, at any depth, in order.
pub open spec fn binds(e: CExprV) -> Seq<u32>
    decreases e, 0nat,
{
    match e {
        CExprV::LetPrim { var, cont, .. } => seq![var] + binds(*cont),
        CExprV::App { .. } => Seq::empty(),
        CExprV::If { then_branch, else_branch, .. } => binds(*then_branch) + binds(*else_branch),
        CExprV::Fix { defs, body } => binds_first(defs, defs.len()) + binds(*body),
    }
}

/// The variables that the first `n` continuations bind.
pub open spec fn binds_first(defs: Seq<CFunDefV>, n: nat) -> Seq<u32>
    decreases defs, n,
{
    if n == 0 || n > defs.len() {
        Seq::empty()
    } else {
        binds_first(defs, (n - 1) as nat) + defs[n - 1].params + binds(defs[n - 1].body)
    }
}

/// Whether no variable of the list is above the bound.
pub open spec fn all_within(vars: Seq<u32>, bound: u32) -> bool {
    forall|i: int| 0 <= i < vars.len() ==> #[trigger] vars[i] <= bound
}

proof fn lemma_max_in_list(vars: Seq<u32>, n: nat, max: u32)
    requires
        n <= vars.len(),
    ensures
        max <= max_in_list(vars, n, max),
        forall|i: int| 0 <= i < n ==> #[trigger] vars[i] <= max_in_list(vars, n, max),
    decreases n,
{
    if n > 0 {
        lemma_max_in_list(vars, (n - 1) as nat, max);
    }
}

/// What an expression binds is not above the largest variable that is found in it.
pub proof fn lemma_max_bounds_expression(e: CExprV, max: u32)
    ensures
        max <= max_bound(e, max),
        all_within(binds(e), max_bound(e, max)),
    decreases e, 0nat,
{
    match e {
        CExprV::LetPrim { var, cont, .. } => {
            lemma_max_bounds_expression(*cont, crate::rebuild::larger(max, var));
        },
        CExprV::App { .. } => {},
        CExprV::If { then_branch, else_branch, .. } => {
            let inner = max_bound(*then_branch, max);
            lemma_max_bounds_expression(*then_branch, max);
            lemma_max_bounds_expression(*else_branch, inner);
        },
        CExprV::Fix { defs, body } => {
            let inner = max_bound_first(defs, defs.len(), max);
            lemma_max_bounds_first(defs, defs.len(), max);
            lemma_max_bounds_expression(*body, inner);
        },
    }
}

proof fn lemma_max_bounds_first(defs: Seq<CFunDefV>, n: nat, max: u32)
    requires
        n <= defs.len(),
    ensures
        max <= max_bound_first(defs, n, max),
        all_within(binds_first(defs, n), max_bound_first(defs, n, max)),
    decreases defs, n,
{
    if n > 0 {
        let d = defs[n - 1];
        let before = max_bound_first(defs, (n - 1) as nat, max);
        let inner = max_in_list(d.params, d.params.len(), before);
        lemma_max_bounds_first(defs, (n - 1) as nat, max);
        lemma_max_in_list(d.params, d.params.len(), before);
        lemma_max_bounds_expression(d.body, inner);
    }
}

/// No function of a program binds a variable above the largest that is found in the
/// program, so a supply that starts after it hands out no variable that is bound.
pub proof fn lemma_max_bounds_program(funcs: Seq<CTopLevelFnV>, i: int)
    requires
        0 <= i < funcs.len(),
    ensures
        all_within(funcs[i].def.params, max_in_program(funcs)),
        all_within(binds(funcs[i].def.body), max_in_program(funcs)),
    decreases funcs.len(),
{
    let d = funcs.last().def;
    let before = max_in_program(funcs.drop_last());
    let inner = max_in_list(d.params, d.params.len(), before);
    lemma_max_in_list(d.params, d.params.len(), before);
    lemma_max_bounds_expression(d.body, inner);
    if i < funcs.len() - 1 {
        lemma_max_bounds_program(funcs.drop_last(), i);
        assert(funcs.drop_last()[i] == funcs[i]);
    }
}

/// Whether the list counts up from a variable.
pub open spec fn counts_from(vars: Seq<u32>, first: u32) -> bool {
    forall|i: int| 0 <= i < vars.len() ==> #[trigger] vars[i] == first + i
}

/// Renaming gives every binding a variable of its own: what the renamed expression
/// binds counts up from the first fresh variable, as long as the variables last. It
/// binds as many as before.
pub proof fn lemma_renamed_binds_fresh(e: CExprV, map: Map<u32, u32>, fresh: FreshVars)
    requires
        fresh.upcoming_var + binds(e).len() <= u32::MAX,
    ensures
        binds(renamed(e, map, fresh).expr).len() == binds(e).len(),
        counts_from(binds(renamed(e, map, fresh).expr), fresh.upcoming_var),
        renamed(e, map, fresh).fresh.upcoming_var == fresh.upcoming_var + binds(e).len(),
        renamed(e, map, fresh).fresh.upcoming_label == fresh.upcoming_label,
    decreases e, 0nat,
{
    let r = renamed(e, map, fresh);
    match e {
        CExprV::LetPrim { var, cont, .. } => {
            lemma_renamed_binds_fresh(
                *cont,
                map.insert(var, fresh.upcoming_var),
                after_var(fresh),
            );
        },
        CExprV::App { .. } => {},
        CExprV::If { then_branch, else_branch, .. } => {
            let t = renamed(*then_branch, map, fresh);
            lemma_renamed_binds_fresh(*then_branch, map, fresh);
            lemma_renamed_binds_fresh(*else_branch, t.map, t.fresh);
        },
        CExprV::Fix { defs, body } => {
            let d = renamed_defs(defs, defs.len(), map, fresh);
            lemma_renamed_defs_bind_fresh(defs, defs.len(), map, fresh);
            lemma_renamed_binds_fresh(*body, map, d.fresh);
        },
    }
}

pub proof fn lemma_renamed_params_count(
    params: Seq<u32>,
    n: nat,
    map: Map<u32, u32>,
    fresh: FreshVars,
)
    requires
        n <= params.len(),
        fresh.upcoming_var + n <= u32::MAX,
    ensures
        ({
            let p = renamed_params(params, n, map, fresh);
            &&& p.params.len() == n
            &&& counts_from(p.params, fresh.upcoming_var)
            &&& p.fresh.upcoming_var == fresh.upcoming_var + n
            &&& p.fresh.upcoming_label == fresh.upcoming_label
        }),
    decreases n,
{
    if n > 0 {
        lemma_renamed_params_count(params, (n - 1) as nat, map, fresh);
    }
}

pub proof fn lemma_renamed_defs_bind_fresh(
    defs: Seq<CFunDefV>,
    n: nat,
    map: Map<u32, u32>,
    fresh: FreshVars,
)
    requires
        n <= defs.len(),
        fresh.upcoming_var + binds_first(defs, n).len() <= u32::MAX,
    ensures
        ({
            let d = renamed_defs(defs, n, map, fresh);
            &&& d.defs.len() == n
            &&& binds_first(d.defs, n).len() == binds_first(defs, n).len()
            &&& counts_from(binds_first(d.defs, n), fresh.upcoming_var)
            &&& d.fresh.upcoming_var == fresh.upcoming_var + binds_first(defs, n).len()
            &&& d.fresh.upcoming_label == fresh.upcoming_label
        }),
    decreases defs, n,
{
    if n > 0 {
        let before = renamed_defs(defs, (n - 1) as nat, map, fresh);
        let d = defs[n - 1];
        lemma_renamed_defs_bind_fresh(defs, (n - 1) as nat, map, fresh);
        let p = renamed_params(d.params, d.params.len(), map, before.fresh);
        lemma_renamed_params_count(d.params, d.params.len(), map, before.fresh);
        lemma_renamed_binds_fresh(d.body, p.map, p.fresh);
        let now = renamed_defs(defs, n, map, fresh);
        assert(now.defs.drop_last() =~= before.defs);
        lemma_binds_in_front(now.defs, before.defs, (n - 1) as nat);
    }
}

proof fn lemma_binds_in_front(a: Seq<CFunDefV>, b: Seq<CFunDefV>, n: nat)
    requires
        n <= a.len(),
        n <= b.len(),
        forall|i: int| 0 <= i < n ==> a[i] == b[i],
    ensures
        binds_first(a, n) == binds_first(b, n),
    decreases n,
{
    if n > 0 {
        lemma_binds_in_front(a, b, (n - 1) as nat);
    }
}

/// Whether no function before the `n`th has the name.
pub open spec fn is_first_named(funcs: Seq<CTopLevelFnV>, n: nat, name: Seq<char>) -> bool {
    forall|j: int| 0 <= j < n ==> (#[trigger] funcs[j]).def.name != name
}

/// Putting in new bodies keeps every function in its place, with its name and its
/// signature. A function takes the new body of its name if it is the first of that
/// name; every other function stays as it is.
pub proof fn lemma_swapped_keeps_functions(
    funcs: Seq<CTopLevelFnV>,
    n: nat,
    bodies: Map<Seq<char>, CExprV>,
)
    requires
        n <= funcs.len(),
    ensures
        swapped(funcs, n, bodies).funcs.len() == n,
        forall|i: int|
            0 <= i < n ==> #[trigger] swapped(funcs, n, bodies).funcs[i] == (if bodies.contains_key(
                funcs[i].def.name,
            ) && is_first_named(funcs, i as nat, funcs[i].def.name) {
                with_body(funcs[i], bodies[funcs[i].def.name])
            } else {
                funcs[i]
            }),
        forall|name: Seq<char>| #[trigger]
            swapped(funcs, n, bodies).left.contains_key(name) <==> bodies.contains_key(name)
                && is_first_named(funcs, n, name),
        forall|name: Seq<char>| #[trigger]
            swapped(funcs, n, bodies).left.contains_key(name) ==> swapped(
                funcs,
                n,
                bodies,
            ).left[name] == bodies[name],
    decreases n,
{
    if n > 0 {
        let before = swapped(funcs, (n - 1) as nat, bodies);
        let now = swapped(funcs, n, bodies);
        lemma_swapped_keeps_functions(funcs, (n - 1) as nat, bodies);
        assert forall|name: Seq<char>| #[trigger]
            now.left.contains_key(name) <==> bodies.contains_key(name) && is_first_named(
                funcs,
                n,
                name,
            ) by {
            assert(before.left.contains_key(name) <==> bodies.contains_key(name)
                && is_first_named(funcs, (n - 1) as nat, name));
            assert(is_first_named(funcs, n, name) <==> is_first_named(
                funcs,
                (n - 1) as nat,
                name,
            ) && funcs[n - 1].def.name != name);
        }
        assert forall|i: int| 0 <= i < n implies #[trigger] now.funcs[i] == (
        if bodies.contains_key(funcs[i].def.name) && is_first_named(
            funcs,
            i as nat,
            funcs[i].def.name,
        ) {
            with_body(funcs[i], bodies[funcs[i].def.name])
        } else {
            funcs[i]
        }) by {
            if i < n - 1 {
                assert(now.funcs[i] == before.funcs[i]);
            }
        }
    }
}

} // verus!
