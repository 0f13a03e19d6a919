//! What code computes, whatever values are: the part of it that translation sees
//! through.

use vstd::prelude::*;

use crate::cps::{CExprV, CFunDefV, CTopLevelFnV, CValV, PrimOpV};
use crate::cps_laws::binds;
use crate::forward::{op_symbol, ordinary_count};
use crate::rebuild_laws::{value_of, values_of, Meaning};
use crate::shapes::{
    counted_loop, pure_op, real_call, straight_line, transparent, unit_of, RealCallV,
};
use crate::ty::TyV;
use crate::vars::referenced_in;

verus! {

/// Whether a value is a variable or a literal that a term can hold.
pub open spec fn plain_value(v: CValV) -> bool {
    v is Var || v is Int || v is Float || v is Bool
}

/// Whether all the values are variables or literals that terms can hold.
pub open spec fn plain_values(vals: Seq<CValV>) -> bool {
    forall|i: int| 0 <= i < vals.len() ==> plain_value(#[trigger] vals[i])
}

/// The values of variables, with the first `n` of some variables bound.
pub open spec fn with_values<V>(rho: Map<u32, V>, vars: Seq<u32>, values: Seq<V>, n: nat) -> Map<
    u32,
    V,
>
    decreases n,
{
    if n == 0 || n > vars.len() || n > values.len() {
        rho
    } else {
        with_values(rho, vars, values, (n - 1) as nat).insert(vars[n - 1], values[n - 1])
    }
}

/// Whether a call is of a function that does nothing but compute.
pub open spec fn seen_through(funcs: Seq<CTopLevelFnV>, call: RealCallV) -> bool {
    match unit_of(funcs, call.unit) {
        None => false,
        Some(callee) => straight_line(callee.def.body) || transparent(
            callee.def.body,
            funcs,
            Set::empty(),
        ),
    }
}

/// Where running has led: what is left to run, and the values of variables.
#[verifier::reject_recursive_types(V)]
pub struct RanV<V> {
    pub rest: CExprV,
    pub rho: Map<u32, V>,
}

/// Runs an expression to the first thing that is not a pure operation, a counted loop
/// or a call of a function that does nothing but compute.
pub open spec fn ran<V>(
    m: Meaning<V>,
    funcs: Seq<CTopLevelFnV>,
    e: CExprV,
    rho: Map<u32, V>,
) -> RanV<V>
    decreases e, 1nat, 0nat,
{
    match e {
        CExprV::LetPrim { var, ty, op, args, cont } => if pure_op(op) && plain_values(args) {
            ran(m, funcs, *cont, rho.insert(var, (m.op)(op, ty, values_of(m, rho, args))))
        } else {
            RanV { rest: e, rho }
        },
        CExprV::Fix { defs, body } => match counted_loop(defs, *body) {
            Some(l) => if plain_values(l.carried_init) {
                match looped(m, funcs, e, l.start, rho, values_of(m, rho, l.carried_init)) {
                    None => RanV { rest: e, rho },
                    Some(values) => ran(
                        m,
                        funcs,
                        l.after,
                        with_values(rho, l.carried_params, values, l.carried_params.len()),
                    ),
                }
            } else {
                RanV { rest: e, rho }
            },
            None => match real_call(defs, *body) {
                None => RanV { rest: e, rho },
                Some(call) => if seen_through(funcs, call) && plain_values(call.args) {
                    ran(
                        m,
                        funcs,
                        call.rest,
                        rho.insert(
                            call.result_var,
                            (m.call)(call.unit, values_of(m, rho, call.args)),
                        ),
                    )
                } else {
                    RanV { rest: e, rho }
                },
            },
        },
        _ => RanV { rest: e, rho },
    }
}

/// Runs the turns of a counted loop from the one that counts `idx`, with what is
/// carried into it, and gives what is carried out of the last. None where a turn does
/// not end in the jump to the next.
pub open spec fn looped<V>(
    m: Meaning<V>,
    funcs: Seq<CTopLevelFnV>,
    e: CExprV,
    idx: u64,
    rho: Map<u32, V>,
    carried: Seq<V>,
) -> Option<Seq<V>>
    decreases e, 0nat, turns_left(e, idx),
{
    match e {
        CExprV::Fix { defs, body } => match counted_loop(defs, *body) {
            None => None,
            Some(l) => if idx >= l.end {
                Some(carried)
            } else {
                let counted = rho.insert(l.i_var, (m.literal)(CValV::Int(idx)));
                let inside = with_values(
                    counted,
                    l.carried_params,
                    carried,
                    l.carried_params.len(),
                );
                let t = ran(m, funcs, l.turn, inside);
                match t.rest {
                    CExprV::App { func: CValV::Label(target), args } => if target == l.name
                        && args.len() > 0 && plain_values(args.subrange(1, args.len() as int)) {
                        looped(
                            m,
                            funcs,
                            e,
                            (idx + 1) as u64,
                            rho,
                            values_of(m, t.rho, args.subrange(1, args.len() as int)),
                        )
                    } else {
                        None
                    },
                    _ => None,
                }
            },
        },
        _ => None,
    }
}

/// The number of turns of a counted loop from the one that counts `idx`.
pub open spec fn turns_left(e: CExprV, idx: u64) -> nat {
    match e {
        CExprV::Fix { defs, body } => match counted_loop(defs, *body) {
            Some(l) => if idx < l.end {
                (l.end - idx) as nat
            } else {
                0
            },
            None => 0,
        },
        _ => 0,
    }
}

/// Whether running the one expression, with the values of variables that it starts
/// with, comes past the other, with those that it has there.
pub open spec fn runs_to<V>(
    m: Meaning<V>,
    funcs: Seq<CTopLevelFnV>,
    e: CExprV,
    rho: Map<u32, V>,
    there: CExprV,
    then: Map<u32, V>,
) -> bool
    decreases e,
{
    ||| e == there && rho == then
    ||| match e {
        CExprV::LetPrim { var, ty, op, args, cont } => pure_op(op) && plain_values(args)
            && runs_to(
            m,
            funcs,
            *cont,
            rho.insert(var, (m.op)(op, ty, values_of(m, rho, args))),
            there,
            then,
        ),
        CExprV::Fix { defs, body } => match counted_loop(defs, *body) {
            Some(l) => plain_values(l.carried_init) && match looped(
                m,
                funcs,
                e,
                l.start,
                rho,
                values_of(m, rho, l.carried_init),
            ) {
                None => false,
                Some(values) => runs_to(
                    m,
                    funcs,
                    l.after,
                    with_values(rho, l.carried_params, values, l.carried_params.len()),
                    there,
                    then,
                ),
            },
            None => match real_call(defs, *body) {
                None => false,
                Some(call) => seen_through(funcs, call) && plain_values(call.args) && runs_to(
                    m,
                    funcs,
                    call.rest,
                    rho.insert(
                        call.result_var,
                        (m.call)(call.unit, values_of(m, rho, call.args)),
                    ),
                    there,
                    then,
                ),
            },
        },
        _ => false,
    }
}

/// Whether every jump to the label hands over that many values.
pub open spec fn jumps_fit(e: CExprV, label: Seq<char>, count: nat) -> bool
    decreases e, 0nat,
{
    match e {
        CExprV::LetPrim { cont, .. } => jumps_fit(*cont, label, count),
        CExprV::App { func, args } => func == CValV::Label(label) ==> args.len() == count,
        CExprV::If { then_branch, else_branch, .. } => jumps_fit(*then_branch, label, count)
            && jumps_fit(*else_branch, label, count),
        CExprV::Fix { defs, body } => jumps_fit_first(defs, defs.len(), label, count) && jumps_fit(
            *body,
            label,
            count,
        ),
    }
}

pub open spec fn jumps_fit_first(
    defs: Seq<CFunDefV>,
    n: nat,
    label: Seq<char>,
    count: nat,
) -> bool
    decreases defs, n,
{
    if n == 0 || n > defs.len() {
        true
    } else {
        jumps_fit_first(defs, (n - 1) as nat, label, count) && jumps_fit(
            defs[n - 1].body,
            label,
            count,
        )
    }
}

/// The variable that the test of a counted loop gives its outcome to.
pub open spec fn outcome_var(defs: Seq<CFunDefV>) -> u32 {
    match defs[0].body {
        CExprV::Fix { defs: inner, .. } => inner[0].params[0],
        _ => arbitrary(),
    }
}

/// Whether a counted loop is as a loop over a range is built: every jump back hands
/// over what is carried, the counter is used in the turns only, and the outcome of the
/// test only to choose between the next turn and what follows.
pub open spec fn loop_in_order(defs: Seq<CFunDefV>, body: CExprV) -> bool {
    match counted_loop(defs, body) {
        None => true,
        Some(l) => {
            &&& l.carried_init.len() == l.carried_params.len()
            &&& jumps_fit(l.turn, l.name, l.carried_params.len() + 1)
            &&& !referenced_in(l.after).contains(l.i_var)
            &&& !referenced_in(l.turn).contains(outcome_var(defs))
            &&& !referenced_in(l.after).contains(outcome_var(defs))
        },
    }
}

/// Whether a call hands over as many values as the function takes.
pub open spec fn call_in_order(
    defs: Seq<CFunDefV>,
    body: CExprV,
    funcs: Seq<CTopLevelFnV>,
) -> bool {
    match real_call(defs, body) {
        None => true,
        Some(call) => match unit_of(funcs, call.unit) {
            None => true,
            Some(callee) => call.args.len() == ordinary_count(callee.def.params),
        },
    }
}

/// Whether an expression is built as programs are: parameters are told apart, no
/// branch uses what only the other binds, and loops and calls are in order.
pub open spec fn in_order(e: CExprV, funcs: Seq<CTopLevelFnV>) -> bool
    decreases e, 0nat,
{
    match e {
        CExprV::LetPrim { cont, .. } => in_order(*cont, funcs),
        CExprV::App { .. } => true,
        CExprV::If { then_branch, else_branch, .. } => {
            &&& in_order(*then_branch, funcs)
            &&& in_order(*else_branch, funcs)
            &&& forall|v: u32| #[trigger]
                referenced_in(*else_branch).contains(v) ==> !binds(*then_branch).contains(v)
        },
        CExprV::Fix { defs, body } => {
            &&& in_order_first(defs, defs.len(), funcs)
            &&& in_order(*body, funcs)
            &&& loop_in_order(defs, *body)
            &&& call_in_order(defs, *body, funcs)
        },
    }
}

pub open spec fn in_order_first(defs: Seq<CFunDefV>, n: nat, funcs: Seq<CTopLevelFnV>) -> bool
    decreases defs, n,
{
    if n == 0 || n > defs.len() {
        true
    } else {
        in_order_first(defs, (n - 1) as nat, funcs) && defs[n - 1].params.no_duplicates()
            && in_order(defs[n - 1].body, funcs)
    }
}

/// Whether every function is built as programs are.
pub open spec fn program_in_order(funcs: Seq<CTopLevelFnV>) -> bool {
    forall|i: int|
        0 <= i < funcs.len() ==> (#[trigger] funcs[i]).def.params.no_duplicates() && in_order(
            funcs[i].def.body,
            funcs,
        )
}

/// Whether two operations mean the same on the values if they have the same symbol.
pub open spec fn symbol_tells<V>(
    m: Meaning<V>,
    a: (PrimOpV, TyV, nat),
    b: (PrimOpV, TyV, nat),
    values: Seq<V>,
) -> bool {
    pure_op(a.0) && pure_op(b.0) && op_symbol(a.1, a.0, a.2) == op_symbol(b.1, b.0, b.2)
        ==> (m.op)(a.0, a.1, values) == (m.op)(b.0, b.1, values)
}

/// Whether operations with the same symbol mean the same.
pub open spec fn symbols_tell<V>(m: Meaning<V>) -> bool {
    forall|a: (PrimOpV, TyV, nat), b: (PrimOpV, TyV, nat), values: Seq<V>| #[trigger]
        symbol_tells(m, a, b, values)
}

/// Whether no function has the symbol of an operation for its name.
pub open spec fn names_are_no_symbols(funcs: Seq<CTopLevelFnV>) -> bool {
    forall|i: int, ty: TyV, op: PrimOpV, count: nat|
        0 <= i < funcs.len() && pure_op(op) ==> (#[trigger] funcs[i]).def.name
            != #[trigger] op_symbol(ty, op, count)
}

/// Whether a call of a function means what running its body gives, with its
/// parameters bound to the values.
pub open spec fn call_runs_body<V>(
    m: Meaning<V>,
    funcs: Seq<CTopLevelFnV>,
    callee: CTopLevelFnV,
    rho: Map<u32, V>,
    values: Seq<V>,
) -> bool {
    let r = ran(m, funcs, callee.def.body, rho);
    ({
        &&& values.len() == ordinary_count(callee.def.params)
        &&& forall|k: int|
            0 <= k < values.len() ==> rho[#[trigger] callee.def.params[k]] == values[k]
        &&& r.rest matches CExprV::App { args, .. }
        &&& args.len() > 0
    }) ==> (m.call)(callee.def.name, values) == value_of(
        m,
        r.rho,
        r.rest->App_args.last(),
    )
}

/// Whether calls of functions that do nothing but compute mean what running their
/// bodies gives.
pub open spec fn calls_run_bodies<V>(m: Meaning<V>, funcs: Seq<CTopLevelFnV>) -> bool {
    forall|callee: CTopLevelFnV, rho: Map<u32, V>, values: Seq<V>|
        unit_of(funcs, callee.def.name) == Some(callee) && transparent(
            callee.def.body,
            funcs,
            Set::empty(),
        ) ==> #[trigger] call_runs_body(m, funcs, callee, rho, values)
}

/// Running comes to the end that is a jump.
pub proof fn lemma_runs_to_end<V>(
    m: Meaning<V>,
    funcs: Seq<CTopLevelFnV>,
    e: CExprV,
    rho: Map<u32, V>,
    there: CExprV,
    then: Map<u32, V>,
)
    requires
        runs_to(m, funcs, e, rho, there, then),
        there is App,
    ensures
        ran(m, funcs, e, rho) == (RanV { rest: there, rho: then }),
    decreases e,
{
    match e {
        CExprV::LetPrim { var, ty, op, args, cont } => {
            lemma_runs_to_end(
                m,
                funcs,
                *cont,
                rho.insert(var, (m.op)(op, ty, values_of(m, rho, args))),
                there,
                then,
            );
        },
        CExprV::Fix { defs, body } => match counted_loop(defs, *body) {
            Some(l) => {
                lemma_parts_smaller(e);
                let values = looped(
                    m,
                    funcs,
                    e,
                    l.start,
                    rho,
                    values_of(m, rho, l.carried_init),
                )->Some_0;
                lemma_runs_to_end(
                    m,
                    funcs,
                    l.after,
                    with_values(rho, l.carried_params, values, l.carried_params.len()),
                    there,
                    then,
                );
            },
            None => {
                lemma_parts_smaller(e);
                let call = real_call(defs, *body)->Some_0;
                lemma_runs_to_end(
                    m,
                    funcs,
                    call.rest,
                    rho.insert(
                        call.result_var,
                        (m.call)(call.unit, values_of(m, rho, call.args)),
                    ),
                    there,
                    then,
                );
            },
        },
        _ => {},
    }
}

/// What follows a call, the turns of a loop and what follows it are parts of the whole.
pub proof fn lemma_parts_smaller(e: CExprV)
    requires
        e is Fix,
    ensures
        real_call(e->defs, *e->Fix_body) matches Some(call) ==> decreases_to!(e => call.rest),
        counted_loop(e->defs, *e->Fix_body) matches Some(l) ==> decreases_to!(e => l.turn)
            && decreases_to!(e => l.after),
{
    if let CExprV::Fix { defs, body } = e {
        if defs.len() == 1 {
            assert(decreases_to!(e => defs));
            assert(decreases_to!(defs => defs[0]));
            assert(decreases_to!(defs[0] => defs[0].body));
            let inner = defs[0].body;
            if let CExprV::Fix { defs: tests, .. } = inner {
                if tests.len() == 1 {
                    assert(decreases_to!(inner => tests));
                    assert(decreases_to!(tests => tests[0]));
                    assert(decreases_to!(tests[0] => tests[0].body));
                    if let CExprV::If { then_branch, else_branch, .. } = tests[0].body {
                        assert(decreases_to!(tests[0].body => *then_branch));
                        assert(decreases_to!(tests[0].body => *else_branch));
                    }
                }
            }
        }
    }
}

/// Jumps that fit in the whole fit in its parts.
proof fn lemma_parts_fit(e: CExprV, label: Seq<char>, count: nat)
    requires
        e is Fix,
        jumps_fit(e, label, count),
    ensures
        real_call(e->defs, *e->Fix_body) matches Some(call) ==> jumps_fit(call.rest, label, count),
        counted_loop(e->defs, *e->Fix_body) matches Some(l) ==> jumps_fit(l.after, label, count),
{
    let defs = e->defs;
    if defs.len() == 1 {
        assert(jumps_fit_first(defs, 1, label, count));
        let inner = defs[0].body;
        assert(jumps_fit(inner, label, count));
        if counted_loop(defs, *e->Fix_body) is Some {
            let tests = inner->defs;
            assert(jumps_fit_first(tests, 1, label, count));
            assert(jumps_fit(tests[0].body, label, count));
        }
    }
}

/// Jumps that fit before running fit after it.
pub proof fn lemma_runs_fit<V>(
    m: Meaning<V>,
    funcs: Seq<CTopLevelFnV>,
    e: CExprV,
    rho: Map<u32, V>,
    there: CExprV,
    then: Map<u32, V>,
    label: Seq<char>,
    count: nat,
)
    requires
        runs_to(m, funcs, e, rho, there, then),
        jumps_fit(e, label, count),
    ensures
        jumps_fit(there, label, count),
    decreases e,
{
    if !(e == there && rho == then) {
        match e {
            CExprV::LetPrim { var, ty, op, args, cont } => {
                lemma_runs_fit(
                    m,
                    funcs,
                    *cont,
                    rho.insert(var, (m.op)(op, ty, values_of(m, rho, args))),
                    there,
                    then,
                    label,
                    count,
                );
            },
            CExprV::Fix { defs, body } => {
                lemma_parts_smaller(e);
                lemma_parts_fit(e, label, count);
                match counted_loop(defs, *body) {
                    Some(l) => {
                        let values = looped(
                            m,
                            funcs,
                            e,
                            l.start,
                            rho,
                            values_of(m, rho, l.carried_init),
                        )->Some_0;
                        lemma_runs_fit(
                            m,
                            funcs,
                            l.after,
                            with_values(rho, l.carried_params, values, l.carried_params.len()),
                            there,
                            then,
                            label,
                            count,
                        );
                    },
                    None => {
                        let call = real_call(defs, *body)->Some_0;
                        lemma_runs_fit(
                            m,
                            funcs,
                            call.rest,
                            rho.insert(
                                call.result_var,
                                (m.call)(call.unit, values_of(m, rho, call.args)),
                            ),
                            there,
                            then,
                            label,
                            count,
                        );
                    },
                }
            },
            _ => {},
        }
    }
}

/// The parts of an expression that is in order are in order.
pub proof fn lemma_parts_in_order(e: CExprV, funcs: Seq<CTopLevelFnV>)
    requires
        e is Fix,
        in_order(e, funcs),
    ensures
        real_call(e->defs, *e->Fix_body) matches Some(call) ==> in_order(call.rest, funcs),
        counted_loop(e->defs, *e->Fix_body) matches Some(l) ==> in_order(l.turn, funcs) && in_order(
            l.after,
            funcs,
        ),
{
    let defs = e->defs;
    if defs.len() == 1 {
        assert(in_order_first(defs, 1, funcs));
        let inner = defs[0].body;
        assert(in_order(inner, funcs));
        if counted_loop(defs, *e->Fix_body) is Some {
            let tests = inner->defs;
            assert(in_order_first(tests, 1, funcs));
            assert(in_order(tests[0].body, funcs));
        }
    }
}

/// Binding variables gives each its value, and leaves the others.
pub proof fn lemma_with_values<V>(rho: Map<u32, V>, vars: Seq<u32>, values: Seq<V>, n: nat, y: u32)
    requires
        n <= vars.len(),
        n <= values.len(),
        vars.no_duplicates(),
    ensures
        forall|k: int|
            0 <= k < n && #[trigger] vars[k] == y ==> with_values(rho, vars, values, n)[y]
                == values[k],
        (forall|k: int| 0 <= k < n ==> vars[k] != y) ==> with_values(rho, vars, values, n)[y]
            == rho[y],
    decreases n,
{
    if n > 0 {
        lemma_with_values(rho, vars, values, (n - 1) as nat, y);
        if vars[n - 1] == y {
            assert forall|k: int| 0 <= k < n && #[trigger] vars[k] == y implies k == n - 1 by {}
        }
    }
}

/// The function of a name is one of the functions, and has the name.
pub proof fn lemma_unit_of(funcs: Seq<CTopLevelFnV>, name: Seq<char>)
    ensures
        unit_of(funcs, name) matches Some(f) ==> f.def.name == name && exists|i: int|
            0 <= i < funcs.len() && #[trigger] funcs[i] == f,
    decreases funcs.len(),
{
    if funcs.len() > 0 && funcs.last().def.name != name {
        let fewer = funcs.drop_last();
        lemma_unit_of(fewer, name);
        if let Some(f) = unit_of(fewer, name) {
            let i = choose|i: int| 0 <= i < fewer.len() && #[trigger] fewer[i] == f;
            assert(funcs[i] == f);
        }
    } else if funcs.len() > 0 {
        assert(funcs[funcs.len() - 1] == funcs.last());
    }
}

/// Running goes on from where it has come to.
pub proof fn lemma_runs_on<V>(
    m: Meaning<V>,
    funcs: Seq<CTopLevelFnV>,
    e: CExprV,
    rho: Map<u32, V>,
    mid: CExprV,
    between: Map<u32, V>,
    there: CExprV,
    then: Map<u32, V>,
)
    requires
        runs_to(m, funcs, e, rho, mid, between),
        runs_to(m, funcs, mid, between, there, then),
    ensures
        runs_to(m, funcs, e, rho, there, then),
    decreases e,
{
    if !(e == mid && rho == between) {
        match e {
            CExprV::LetPrim { var, ty, op, args, cont } => {
                lemma_runs_on(
                    m,
                    funcs,
                    *cont,
                    rho.insert(var, (m.op)(op, ty, values_of(m, rho, args))),
                    mid,
                    between,
                    there,
                    then,
                );
            },
            CExprV::Fix { defs, body } => {
                lemma_parts_smaller(e);
                match counted_loop(defs, *body) {
                    Some(l) => {
                        let values = looped(
                            m,
                            funcs,
                            e,
                            l.start,
                            rho,
                            values_of(m, rho, l.carried_init),
                        )->Some_0;
                        lemma_runs_on(
                            m,
                            funcs,
                            l.after,
                            with_values(rho, l.carried_params, values, l.carried_params.len()),
                            mid,
                            between,
                            there,
                            then,
                        );
                    },
                    None => {
                        let call = real_call(defs, *body)->Some_0;
                        lemma_runs_on(
                            m,
                            funcs,
                            call.rest,
                            rho.insert(
                                call.result_var,
                                (m.call)(call.unit, values_of(m, rho, call.args)),
                            ),
                            mid,
                            between,
                            there,
                            then,
                        );
                    },
                }
            },
            _ => {},
        }
    }
}

} // verus!
