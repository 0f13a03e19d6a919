//! The functions that translation notes as called are straight lines.

use vstd::prelude::*;

use crate::cps::{CExprV, CTopLevelFnV, CValV};
use crate::forward::{
    inlined, next_place, ordinary_count, placed, placed_all, placed_first, turned, walked,
    walked_call, with_bound, with_call, with_node, with_op, ForwardV,
};
use crate::fresh::FreshVars;
use crate::lang::CleaveLangV;
use crate::rename::{renamed, renamed_params};
use crate::running::lemma_parts_smaller;
use crate::shapes::{
    counted_loop, pure_op, real_call, straight_line, transparent, unit_of, LoopV,
};

verus! {

/// Whether the functions that were called are straight lines of the program.
pub open spec fn calls_straight(fwd: ForwardV, funcs: Seq<CTopLevelFnV>) -> bool {
    forall|u: Seq<char>| #[trigger]
        fwd.call_units.contains(u) ==> unit_of(funcs, u) is Some && straight_line(
            unit_of(funcs, u)->Some_0.def.body,
        )
}

proof fn lemma_placed_calls(fwd: ForwardV, vals: Seq<CValV>, n: nat)
    ensures
        placed_first(fwd, vals, n).fwd.call_units == fwd.call_units,
    decreases n,
{
    if !(n == 0 || n > vals.len()) {
        lemma_placed_calls(fwd, vals, (n - 1) as nat);
    }
}

/// Translation notes calls of straight lines only.
pub proof fn lemma_walked_calls(
    e: CExprV,
    funcs: Seq<CTopLevelFnV>,
    fwd: ForwardV,
    fresh: FreshVars,
    depth: nat,
)
    requires
        calls_straight(fwd, funcs),
    ensures
        calls_straight(walked(e, funcs, fwd, fresh, depth).fwd, funcs),
    decreases depth, e, 3nat, 0nat,
{
    match e {
        CExprV::LetPrim { var, ty, op, args, cont } => if pure_op(op) {
            let p = placed_all(fwd, args);
            lemma_placed_calls(fwd, args, args.len());
            if let Some(places) = p.places {
                let next = with_op(p.fwd, var, ty, op, places);
                assert(next.call_units == p.fwd.call_units);
                lemma_walked_calls(*cont, funcs, next, fresh, depth);
            }
        },
        CExprV::Fix { defs, body } => match counted_loop(defs, *body) {
            None => lemma_walked_call_calls(e, funcs, fwd, fresh, depth),
            Some(l) => {
                let init = placed_all(fwd, l.carried_init);
                lemma_placed_calls(fwd, l.carried_init, l.carried_init.len());
                match init.places {
                    None => lemma_walked_call_calls(e, funcs, fwd, fresh, depth),
                    Some(places) => {
                        let t = turned(e, l, l.start, funcs, init.fwd, fresh, places, depth);
                        lemma_turned_calls(e, l, l.start, funcs, init.fwd, fresh, places, depth);
                        match t.carried {
                            None => lemma_walked_call_calls(e, funcs, fwd, fresh, depth),
                            Some(carried) => {
                                lemma_parts_smaller(e);
                                lemma_walked_calls(
                                    l.after,
                                    funcs,
                                    with_bound(t.fwd, l.carried_params, carried),
                                    t.fresh,
                                    depth,
                                );
                            },
                        }
                    },
                }
            },
        },
        _ => {},
    }
}

proof fn lemma_turned_calls(
    e: CExprV,
    l: LoopV,
    idx: u64,
    funcs: Seq<CTopLevelFnV>,
    fwd: ForwardV,
    fresh: FreshVars,
    carried: Seq<usize>,
    depth: nat,
)
    requires
        calls_straight(fwd, funcs),
    ensures
        calls_straight(turned(e, l, idx, funcs, fwd, fresh, carried, depth).fwd, funcs),
    decreases depth, e, 1nat, l.end - idx,
{
    if idx < l.end && depth > 0 {
        let counted = ForwardV {
            env: fwd.env.insert(l.i_var, next_place(fwd)),
            ..with_node(fwd, CleaveLangV::Int(idx))
        };
        let entered = with_bound(counted, l.carried_params, carried);
        let body = renamed(l.turn, Map::empty(), fresh);
        let w = walked(body.expr, funcs, entered, body.fresh, (depth - 1) as nat);
        lemma_walked_calls(body.expr, funcs, entered, body.fresh, (depth - 1) as nat);
        if let CExprV::App { func: CValV::Label(target), args } = w.rest {
            if target == l.name && args.len() > 0 {
                let sent = args.subrange(1, args.len() as int);
                let next = placed_all(w.fwd, sent);
                lemma_placed_calls(w.fwd, sent, sent.len());
                if let Some(places) = next.places {
                    lemma_turned_calls(
                        e,
                        l,
                        (idx + 1) as u64,
                        funcs,
                        next.fwd,
                        w.fresh,
                        places,
                        depth,
                    );
                }
            }
        }
    }
}

proof fn lemma_walked_call_calls(
    e: CExprV,
    funcs: Seq<CTopLevelFnV>,
    fwd: ForwardV,
    fresh: FreshVars,
    depth: nat,
)
    requires
        calls_straight(fwd, funcs),
    ensures
        calls_straight(walked_call(e, funcs, fwd, fresh, depth).fwd, funcs),
    decreases depth, e, 2nat, 0nat,
{
    if let CExprV::Fix { defs, body } = e {
        if let Some(call) = real_call(defs, *body) {
            if let Some(callee) = unit_of(funcs, call.unit) {
                let p = placed_all(fwd, call.args);
                lemma_placed_calls(fwd, call.args, call.args.len());
                lemma_parts_smaller(e);
                if straight_line(callee.def.body) {
                    if let Some(places) = p.places {
                        let next = with_call(p.fwd, call, callee, places);
                        lemma_walked_calls(call.rest, funcs, next, fresh, depth);
                    }
                } else if transparent(callee.def.body, funcs, Set::empty()) {
                    if let Some(places) = p.places {
                        let i = inlined(e, callee, places, funcs, p.fwd, fresh, depth);
                        lemma_inlined_calls(e, callee, places, funcs, p.fwd, fresh, depth);
                        if let Some(place) = i.result {
                            let next = ForwardV {
                                env: i.fwd.env.insert(call.result_var, place),
                                ..i.fwd
                            };
                            lemma_walked_calls(call.rest, funcs, next, i.fresh, depth);
                        }
                    }
                }
            }
        }
    }
}

proof fn lemma_inlined_calls(
    e: CExprV,
    callee: CTopLevelFnV,
    places: Seq<usize>,
    funcs: Seq<CTopLevelFnV>,
    fwd: ForwardV,
    fresh: FreshVars,
    depth: nat,
)
    requires
        calls_straight(fwd, funcs),
    ensures
        calls_straight(inlined(e, callee, places, funcs, fwd, fresh, depth).fwd, funcs),
    decreases depth, e, 1nat, 0nat,
{
    if depth > 0 {
        let p = renamed_params(
            callee.def.params,
            ordinary_count(callee.def.params),
            Map::empty(),
            fresh,
        );
        let body = renamed(callee.def.body, p.map, p.fresh);
        let bound = with_bound(fwd, p.params, places);
        let w = walked(body.expr, funcs, bound, body.fresh, (depth - 1) as nat);
        lemma_walked_calls(body.expr, funcs, bound, body.fresh, (depth - 1) as nat);
        if let CExprV::App { args, .. } = w.rest {
            if args.len() > 0 {
                assert(placed(w.fwd, args.last()).fwd.call_units == w.fwd.call_units);
            }
        }
    }
}

} // verus!
