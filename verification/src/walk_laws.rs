//! What holds of the terms that translation finds: children stand before their
//! parents, and every symbol stands for something.

use vstd::prelude::*;

use crate::cps::{CExprV, CFunDefV, CTopLevelFnV, CValV, PrimOpV};
use crate::forward::{
    bound_to, inlined, next_place, nothing_found, op_symbol, ordinary_count, paired, placed,
    placed_all, placed_first, turned, walked, walked_call, with_bound, with_call, with_node,
    with_op, with_op_noted, FieldOpV, ForwardV, LoadOpV, RawOpV, StructOpV,
};
use crate::fresh::FreshVars;
use crate::lang::CleaveLangV;
use crate::listing::{entry_of, lemma_entry_of, noted};
use crate::rebuild::op_of;
use crate::rename::{renamed, renamed_params};
use crate::shapes::{counted_loop, pure_op, real_call, straight_line, transparent, unit_of};
use crate::shapes::{LoopV, RealCallV};
use crate::ty::TyV;

verus! {

/// Whether a symbol stands for an operation or for a function that was called.
pub open spec fn stands_for_something(fwd: ForwardV, symbol: Seq<char>) -> bool {
    op_of(fwd, symbol) is Some || fwd.call_units.contains(symbol)
}

/// Whether a node at a place has its children before it, and a symbol that stands
/// for something.
pub open spec fn good_node(fwd: ForwardV, i: int, node: CleaveLangV) -> bool {
    match node {
        CleaveLangV::Op(symbol, children) => stands_for_something(fwd, symbol) && forall|k: int|
            0 <= k < children.len() ==> #[trigger] children[k] < i,
        CleaveLangV::Free(symbol) => fwd.free_vars.contains_key(symbol),
        _ => true,
    }
}

/// Whether every node is good, and every variable is bound to the place of a node.
pub open spec fn well_placed(fwd: ForwardV) -> bool {
    &&& forall|i: int| 0 <= i < fwd.nodes.len() ==> good_node(fwd, i, #[trigger] fwd.nodes[i])
    &&& forall|v: u32| #[trigger] fwd.env.contains_key(v) ==> fwd.env[v] < fwd.nodes.len()
    &&& forall|v: u32| #[trigger]
        fwd.external_vars.contains_key(v) ==> fwd.external_vars[v] < fwd.nodes.len()
}

/// Whether the second translation has all that the first has found.
pub open spec fn found_more(a: ForwardV, b: ForwardV) -> bool {
    &&& a.nodes.len() <= b.nodes.len()
    &&& forall|i: int| 0 <= i < a.nodes.len() ==> #[trigger] b.nodes[i] == a.nodes[i]
    &&& forall|s: Seq<char>| #[trigger]
        stands_for_something(a, s) ==> stands_for_something(b, s)
    &&& forall|s: Seq<char>| #[trigger]
        a.free_vars.contains_key(s) ==> b.free_vars.contains_key(s)
}

/// Whether the nodes can be counted.
pub open spec fn countable(fwd: ForwardV) -> bool {
    fwd.nodes.len() <= usize::MAX
}

pub proof fn lemma_more_and_more(a: ForwardV, b: ForwardV, c: ForwardV)
    requires
        found_more(a, b),
        found_more(b, c),
    ensures
        found_more(a, c),
{
    assert forall|i: int| 0 <= i < a.nodes.len() implies #[trigger] c.nodes[i] == a.nodes[i] by {
        assert(b.nodes[i] == a.nodes[i]);
        assert(c.nodes[i] == b.nodes[i]);
    }
}

/// A translation of which only bindings or more nodes were changed has found more.
pub proof fn lemma_same_symbols(a: ForwardV, b: ForwardV)
    requires
        a.raw_ops == b.raw_ops,
        a.struct_ops == b.struct_ops,
        a.field_ops == b.field_ops,
        a.array_ops == b.array_ops,
        a.array_repeat_ops == b.array_repeat_ops,
        a.load_ops == b.load_ops,
        a.call_units.subset_of(b.call_units),
    ensures
        forall|s: Seq<char>| #[trigger]
            stands_for_something(a, s) ==> stands_for_something(b, s),
{
    assert forall|s: Seq<char>| #[trigger] stands_for_something(a, s) implies
        stands_for_something(b, s) by {
        assert(op_of(a, s) == op_of(b, s));
    }
}

proof fn lemma_noted_keeps<V>(s: Seq<(Seq<char>, V)>, name: Seq<char>, value: V, other: Seq<char>)
    ensures
        entry_of(s, other) is Some ==> entry_of(noted(s, name, value), other) is Some,
        entry_of(noted(s, name, value), name) is Some,
{
    let t = noted(s, name, value);
    lemma_entry_of(s, other);
    lemma_entry_of(t, other);
    lemma_entry_of(t, name);
    if entry_of(s, other) is Some {
        let i = choose|i: int| 0 <= i < s.len() && (#[trigger] s[i]).0 == other;
        assert(t[i].0 == other);
    }
    if entry_of(s, name) is None {
        assert(t[s.len() as int].0 == name);
    }
}

/// Noting an operation keeps what symbols stand for, and gives its own symbol
/// something to stand for.
proof fn lemma_op_noted(fwd: ForwardV, symbol: Seq<char>, ty: TyV, op: PrimOpV, s: Seq<char>)
    requires
        pure_op(op),
        stands_for_something(fwd, s) || s == symbol,
    ensures
        stands_for_something(with_op_noted(fwd, symbol, ty, op), s),
{
    match op {
        PrimOpV::RawMlirOp { op, attrs } => {
            lemma_noted_keeps(fwd.raw_ops, symbol, RawOpV { op, ty, attrs }, s);
        },
        PrimOpV::Struct(name, fields) => {
            lemma_noted_keeps(fwd.struct_ops, symbol, StructOpV { name, fields, ty }, s);
        },
        PrimOpV::Field { struct_ty, field } => {
            lemma_noted_keeps(fwd.field_ops, symbol, FieldOpV { struct_ty, field, ty }, s);
        },
        PrimOpV::Array => lemma_noted_keeps(fwd.array_ops, symbol, ty, s),
        PrimOpV::ArrayRepeat => lemma_noted_keeps(fwd.array_repeat_ops, symbol, ty, s),
        PrimOpV::Load { array_ty } => {
            lemma_noted_keeps(fwd.load_ops, symbol, LoadOpV { array_ty, ty }, s);
        },
        _ => {},
    }
}

/// A pure operation.
pub proof fn lemma_op_grows(fwd: ForwardV, var: u32, ty: TyV, op: PrimOpV, places: Seq<usize>)
    requires
        pure_op(op),
    ensures
        found_more(fwd, with_op(fwd, var, ty, op, places)),
        stands_for_something(
            with_op(fwd, var, ty, op, places),
            op_symbol(ty, op, places.len()),
        ),
{
    let symbol = op_symbol(ty, op, places.len());
    let after = with_op(fwd, var, ty, op, places);
    let mid = with_op_noted(fwd, symbol, ty, op);
    lemma_same_symbols(mid, after);
    assert forall|s: Seq<char>| stands_for_something(fwd, s) || s == symbol implies
        #[trigger] stands_for_something(after, s) by {
        lemma_op_noted(fwd, symbol, ty, op, s);
        assert(stands_for_something(mid, s));
    }
}

/// A call of a straight-line function.
pub proof fn lemma_call_grows(
    fwd: ForwardV,
    call: RealCallV,
    callee: CTopLevelFnV,
    places: Seq<usize>,
)
    ensures
        found_more(fwd, with_call(fwd, call, callee, places)),
{
    lemma_same_symbols(fwd, with_call(fwd, call, callee, places));
}

/// The terms of values.
pub proof fn lemma_placed_grows(fwd: ForwardV, vals: Seq<CValV>, n: nat)
    ensures
        found_more(fwd, placed_first(fwd, vals, n).fwd),
    decreases n,
{
    if !(n == 0 || n > vals.len()) {
        lemma_placed_grows(fwd, vals, (n - 1) as nat);
        let before = placed_first(fwd, vals, (n - 1) as nat);
        if before.places is Some {
            lemma_one_placed_grows(before.fwd, vals[n - 1]);
            lemma_more_and_more(fwd, before.fwd, placed(before.fwd, vals[n - 1]).fwd);
        }
    }
}

pub proof fn lemma_one_placed_grows(fwd: ForwardV, v: CValV)
    ensures
        found_more(fwd, placed(fwd, v).fwd),
{
    lemma_same_symbols(fwd, placed(fwd, v).fwd);
}

pub proof fn lemma_walked_grows(
    e: CExprV,
    funcs: Seq<CTopLevelFnV>,
    fwd: ForwardV,
    fresh: FreshVars,
    depth: nat,
)
    ensures
        found_more(fwd, walked(e, funcs, fwd, fresh, depth).fwd),
    decreases depth, e, 3nat, 0nat,
{
    let end = walked(e, funcs, fwd, fresh, depth).fwd;
    match e {
        CExprV::LetPrim { var, ty, op, args, cont } => if pure_op(op) {
            let p = placed_all(fwd, args);
            lemma_placed_grows(fwd, args, args.len());
            if let Some(places) = p.places {
                let next = with_op(p.fwd, var, ty, op, places);
                lemma_op_grows(p.fwd, var, ty, op, places);
                lemma_walked_grows(*cont, funcs, next, fresh, depth);
                lemma_more_and_more(fwd, p.fwd, next);
                lemma_more_and_more(fwd, next, end);
            }
        },
        CExprV::Fix { defs, body } => match counted_loop(defs, *body) {
            None => lemma_walked_call_grows(e, funcs, fwd, fresh, depth),
            Some(l) => {
                let init = placed_all(fwd, l.carried_init);
                lemma_placed_grows(fwd, l.carried_init, l.carried_init.len());
                match init.places {
                    None => lemma_walked_call_grows(e, funcs, fwd, fresh, depth),
                    Some(places) => {
                        let t = turned(e, l, l.start, funcs, init.fwd, fresh, places, depth);
                        lemma_turned_grows(e, l, l.start, funcs, init.fwd, fresh, places, depth);
                        lemma_more_and_more(fwd, init.fwd, t.fwd);
                        match t.carried {
                            None => lemma_walked_call_grows(e, funcs, fwd, fresh, depth),
                            Some(carried) => {
                                let bound = with_bound(t.fwd, l.carried_params, carried);
                                lemma_same_symbols(t.fwd, bound);
                                lemma_shapes_shrink(e, defs, *body, l);
                                lemma_walked_grows(l.after, funcs, bound, t.fresh, depth);
                                lemma_more_and_more(fwd, t.fwd, bound);
                                lemma_more_and_more(fwd, bound, end);
                            },
                        }
                    },
                }
            },
        },
        _ => {},
    }
}

/// What follows a loop is a part of the expression that holds it.
pub proof fn lemma_shapes_shrink(e: CExprV, defs: Seq<CFunDefV>, body: CExprV, l: LoopV)
    requires
        e == (CExprV::Fix { defs, body: Box::new(body) }),
        counted_loop(defs, body) == Some(l),
    ensures
        decreases_to!(e => l.after),
{
    let inner = defs[0].body;
    if let CExprV::Fix { defs: outer, .. } = e {
        assert(decreases_to!(e => outer));
        assert(decreases_to!(outer => outer[0]));
        assert(decreases_to!(outer[0] => outer[0].body));
    }
    if let CExprV::Fix { defs: d, body: compare } = inner {
        assert(decreases_to!(inner => d));
        assert(decreases_to!(d => d[0]));
        assert(decreases_to!(d[0] => d[0].body));
        if let CExprV::If { then_branch, else_branch, .. } = d[0].body {
            assert(decreases_to!(d[0].body => *else_branch));
        }
    }
}

pub proof fn lemma_turned_grows(
    e: CExprV,
    l: LoopV,
    idx: u64,
    funcs: Seq<CTopLevelFnV>,
    fwd: ForwardV,
    fresh: FreshVars,
    carried: Seq<usize>,
    depth: nat,
)
    ensures
        found_more(fwd, turned(e, l, idx, funcs, fwd, fresh, carried, depth).fwd),
    decreases depth, e, 1nat, l.end - idx,
{
    if idx < l.end && depth > 0 {
        let end = turned(e, l, idx, funcs, fwd, fresh, carried, depth).fwd;
        let counted = ForwardV {
            env: fwd.env.insert(l.i_var, next_place(fwd)),
            ..with_node(fwd, CleaveLangV::Int(idx))
        };
        let entered = with_bound(counted, l.carried_params, carried);
        let body = renamed(l.turn, Map::empty(), fresh);
        let w = walked(body.expr, funcs, entered, body.fresh, (depth - 1) as nat);
        lemma_same_symbols(fwd, entered);
        lemma_walked_grows(body.expr, funcs, entered, body.fresh, (depth - 1) as nat);
        lemma_more_and_more(fwd, entered, w.fwd);
        if let CExprV::App { func: CValV::Label(target), args } = w.rest {
            if target == l.name && args.len() > 0 {
                let sent = args.subrange(1, args.len() as int);
                let next = placed_all(w.fwd, sent);
                lemma_placed_grows(w.fwd, sent, sent.len());
                lemma_more_and_more(fwd, w.fwd, next.fwd);
                if let Some(places) = next.places {
                    lemma_turned_grows(
                        e,
                        l,
                        (idx + 1) as u64,
                        funcs,
                        next.fwd,
                        w.fresh,
                        places,
                        depth,
                    );
                    lemma_more_and_more(fwd, next.fwd, end);
                }
            }
        }
    }
}

pub proof fn lemma_walked_call_grows(
    e: CExprV,
    funcs: Seq<CTopLevelFnV>,
    fwd: ForwardV,
    fresh: FreshVars,
    depth: nat,
)
    ensures
        found_more(fwd, walked_call(e, funcs, fwd, fresh, depth).fwd),
    decreases depth, e, 2nat, 0nat,
{
    let end = walked_call(e, funcs, fwd, fresh, depth).fwd;
    if let CExprV::Fix { defs, body } = e {
        if let Some(call) = real_call(defs, *body) {
            if let Some(callee) = unit_of(funcs, call.unit) {
                let p = placed_all(fwd, call.args);
                lemma_placed_grows(fwd, call.args, call.args.len());
                assert(decreases_to!(e => defs));
                assert(decreases_to!(defs => defs[0]));
                assert(decreases_to!(defs[0] => defs[0].body));
                if straight_line(callee.def.body) {
                    if let Some(places) = p.places {
                        let next = with_call(p.fwd, call, callee, places);
                        lemma_call_grows(p.fwd, call, callee, places);
                        lemma_walked_grows(call.rest, funcs, next, fresh, depth);
                        lemma_more_and_more(fwd, p.fwd, next);
                        lemma_more_and_more(fwd, next, end);
                    }
                } else if transparent(callee.def.body, funcs, Set::empty()) {
                    if let Some(places) = p.places {
                        let i = inlined(e, callee, places, funcs, p.fwd, fresh, depth);
                        lemma_inlined_grows(e, callee, places, funcs, p.fwd, fresh, depth);
                        lemma_more_and_more(fwd, p.fwd, i.fwd);
                        if let Some(place) = i.result {
                            let next = ForwardV {
                                env: i.fwd.env.insert(call.result_var, place),
                                ..i.fwd
                            };
                            lemma_same_symbols(i.fwd, next);
                            lemma_walked_grows(call.rest, funcs, next, i.fresh, depth);
                            lemma_more_and_more(fwd, i.fwd, next);
                            lemma_more_and_more(fwd, next, end);
                        }
                    }
                }
            }
        }
    }
}

pub proof fn lemma_inlined_grows(
    e: CExprV,
    callee: CTopLevelFnV,
    places: Seq<usize>,
    funcs: Seq<CTopLevelFnV>,
    fwd: ForwardV,
    fresh: FreshVars,
    depth: nat,
)
    ensures
        found_more(fwd, inlined(e, callee, places, funcs, fwd, fresh, depth).fwd),
    decreases depth, e, 1nat, 0nat,
{
    if depth > 0 {
        let p = renamed_params(
            callee.def.params,
            ordinary_count(callee.def.params),
            Map::empty(),
            fresh,
        );
        let body = renamed(callee.def.body, p.map, p.fresh);
        let bound = with_bound(fwd, p.params, places);
        let w = walked(body.expr, funcs, bound, body.fresh, (depth - 1) as nat);
        lemma_same_symbols(fwd, bound);
        lemma_walked_grows(body.expr, funcs, bound, body.fresh, (depth - 1) as nat);
        lemma_more_and_more(fwd, bound, w.fwd);
        if let CExprV::App { args, .. } = w.rest {
            if args.len() > 0 {
                lemma_one_placed_grows(w.fwd, args.last());
                lemma_more_and_more(fwd, w.fwd, placed(w.fwd, args.last()).fwd);
            }
        }
    }
}

/// Nodes that were good stay good.
pub proof fn lemma_nodes_stay(a: ForwardV, b: ForwardV)
    requires
        found_more(a, b),
        well_placed(a),
    ensures
        forall|i: int| 0 <= i < a.nodes.len() ==> good_node(b, i, #[trigger] b.nodes[i]),
{
    assert forall|i: int| 0 <= i < a.nodes.len() implies good_node(b, i, #[trigger] b.nodes[i]) by {
        assert(b.nodes[i] == a.nodes[i]);
        assert(good_node(a, i, a.nodes[i]));
    }
}

/// Whether all the places are those of nodes.
pub open spec fn all_placed(places: Seq<usize>, fwd: ForwardV) -> bool {
    forall|k: int| 0 <= k < places.len() ==> #[trigger] places[k] < fwd.nodes.len()
}

pub proof fn lemma_one_placed_well(fwd: ForwardV, v: CValV)
    requires
        well_placed(fwd),
        countable(placed(fwd, v).fwd),
    ensures
        well_placed(placed(fwd, v).fwd),
        placed(fwd, v).place matches Some(p) ==> p < placed(fwd, v).fwd.nodes.len(),
{
    let after = placed(fwd, v).fwd;
    lemma_one_placed_grows(fwd, v);
    lemma_nodes_stay(fwd, after);
    assert forall|i: int| 0 <= i < after.nodes.len() implies good_node(
        after,
        i,
        #[trigger] after.nodes[i],
    ) by {
        if i < fwd.nodes.len() {
            assert(after.nodes[i] == fwd.nodes[i]);
        }
    }
}

pub proof fn lemma_placed_well(fwd: ForwardV, vals: Seq<CValV>, n: nat)
    requires
        n <= vals.len(),
        well_placed(fwd),
        countable(placed_first(fwd, vals, n).fwd),
    ensures
        well_placed(placed_first(fwd, vals, n).fwd),
        placed_first(fwd, vals, n).places matches Some(places) ==> all_placed(
            places,
            placed_first(fwd, vals, n).fwd,
        ),
    decreases n,
{
    if n > 0 {
        let before = placed_first(fwd, vals, (n - 1) as nat);
        if before.places is Some {
            lemma_one_placed_grows(before.fwd, vals[n - 1]);
        }
        lemma_placed_well(fwd, vals, (n - 1) as nat);
        if before.places is Some {
            lemma_one_placed_well(before.fwd, vals[n - 1]);
        }
    }
}

/// A node for an operation or a call, put after the others.
pub proof fn lemma_op_node_well(
    fwd: ForwardV,
    after: ForwardV,
    var: u32,
    symbol: Seq<char>,
    places: Seq<usize>,
)
    requires
        found_more(fwd, after),
        after.nodes == fwd.nodes.push(CleaveLangV::Op(symbol, places)),
        after.env == fwd.env.insert(var, next_place(fwd)),
        after.external_vars == fwd.external_vars,
        stands_for_something(after, symbol),
        well_placed(fwd),
        countable(after),
        all_placed(places, fwd),
    ensures
        well_placed(after),
{
    lemma_nodes_stay(fwd, after);
    let i = fwd.nodes.len() as int;
    assert(good_node(after, i, after.nodes[i]));
}

proof fn lemma_bound_to(env: Map<u32, usize>, vars: Seq<u32>, places: Seq<usize>, n: nat, v: u32)
    requires
        bound_to(env, vars, places, n).contains_key(v),
    ensures
        (env.contains_key(v) && bound_to(env, vars, places, n)[v] == env[v]) || exists|k: int|
            0 <= k < places.len() && #[trigger] places[k] == bound_to(env, vars, places, n)[v],
    decreases n,
{
    if !(n == 0 || n > vars.len() || n > places.len()) {
        if vars[n - 1] == v {
            assert(places[n - 1] == bound_to(env, vars, places, n)[v]);
        } else {
            lemma_bound_to(env, vars, places, (n - 1) as nat, v);
        }
    }
}

/// Variables bound to the places of nodes.
pub proof fn lemma_bound_well(fwd: ForwardV, vars: Seq<u32>, places: Seq<usize>)
    requires
        well_placed(fwd),
        all_placed(places, fwd),
    ensures
        well_placed(with_bound(fwd, vars, places)),
{
    let after = with_bound(fwd, vars, places);
    lemma_same_symbols(fwd, after);
    lemma_nodes_stay(fwd, after);
    assert forall|v: u32| #[trigger] after.env.contains_key(v) implies after.env[v]
        < after.nodes.len() by {
        lemma_bound_to(fwd.env, vars, places, paired(vars, places), v);
    }
}

/// Translation puts children before their parents, gives every variable the place of
/// a node, and leaves no symbol that stands for nothing, as long as the nodes can be
/// counted.
pub proof fn lemma_walked_well(
    e: CExprV,
    funcs: Seq<CTopLevelFnV>,
    fwd: ForwardV,
    fresh: FreshVars,
    depth: nat,
)
    requires
        well_placed(fwd),
        countable(walked(e, funcs, fwd, fresh, depth).fwd),
    ensures
        well_placed(walked(e, funcs, fwd, fresh, depth).fwd),
    decreases depth, e, 3nat, 0nat,
{
    let end = walked(e, funcs, fwd, fresh, depth).fwd;
    match e {
        CExprV::LetPrim { var, ty, op, args, cont } => if pure_op(op) {
            let p = placed_all(fwd, args);
            match p.places {
                None => lemma_placed_well(fwd, args, args.len()),
                Some(places) => {
                    let next = with_op(p.fwd, var, ty, op, places);
                    lemma_op_grows(p.fwd, var, ty, op, places);
                    lemma_walked_grows(*cont, funcs, next, fresh, depth);
                    lemma_placed_well(fwd, args, args.len());
                    lemma_op_node_well(
                        p.fwd,
                        next,
                        var,
                        op_symbol(ty, op, places.len()),
                        places,
                    );
                    lemma_walked_well(*cont, funcs, next, fresh, depth);
                },
            }
        },
        CExprV::Fix { defs, body } => match counted_loop(defs, *body) {
            None => lemma_walked_call_well(e, funcs, fwd, fresh, depth),
            Some(l) => {
                let init = placed_all(fwd, l.carried_init);
                match init.places {
                    None => lemma_walked_call_well(e, funcs, fwd, fresh, depth),
                    Some(places) => {
                        let t = turned(e, l, l.start, funcs, init.fwd, fresh, places, depth);
                        lemma_turned_grows(e, l, l.start, funcs, init.fwd, fresh, places, depth);
                        match t.carried {
                            None => lemma_walked_call_well(e, funcs, fwd, fresh, depth),
                            Some(carried) => {
                                let bound = with_bound(t.fwd, l.carried_params, carried);
                                lemma_shapes_shrink(e, defs, *body, l);
                                lemma_walked_grows(l.after, funcs, bound, t.fresh, depth);
                                lemma_placed_well(fwd, l.carried_init, l.carried_init.len());
                                lemma_turned_well(
                                    e,
                                    l,
                                    l.start,
                                    funcs,
                                    init.fwd,
                                    fresh,
                                    places,
                                    depth,
                                );
                                lemma_bound_well(t.fwd, l.carried_params, carried);
                                lemma_walked_well(l.after, funcs, bound, t.fresh, depth);
                            },
                        }
                    },
                }
            },
        },
        _ => {},
    }
}

pub proof fn lemma_turned_well(
    e: CExprV,
    l: LoopV,
    idx: u64,
    funcs: Seq<CTopLevelFnV>,
    fwd: ForwardV,
    fresh: FreshVars,
    carried: Seq<usize>,
    depth: nat,
)
    requires
        well_placed(fwd),
        all_placed(carried, fwd),
        countable(turned(e, l, idx, funcs, fwd, fresh, carried, depth).fwd),
    ensures
        well_placed(turned(e, l, idx, funcs, fwd, fresh, carried, depth).fwd),
        turned(e, l, idx, funcs, fwd, fresh, carried, depth).carried matches Some(c)
            ==> all_placed(c, turned(e, l, idx, funcs, fwd, fresh, carried, depth).fwd),
    decreases depth, e, 1nat, l.end - idx,
{
    if idx < l.end && depth > 0 {
        let counted = ForwardV {
            env: fwd.env.insert(l.i_var, next_place(fwd)),
            ..with_node(fwd, CleaveLangV::Int(idx))
        };
        let entered = with_bound(counted, l.carried_params, carried);
        let body = renamed(l.turn, Map::empty(), fresh);
        let w = walked(body.expr, funcs, entered, body.fresh, (depth - 1) as nat);
        lemma_walked_grows(body.expr, funcs, entered, body.fresh, (depth - 1) as nat);
        if let CExprV::App { func: CValV::Label(target), args } = w.rest {
            if target == l.name && args.len() > 0 {
                let sent = args.subrange(1, args.len() as int);
                let next = placed_all(w.fwd, sent);
                lemma_placed_grows(w.fwd, sent, sent.len());
                if let Some(places) = next.places {
                    lemma_turned_grows(
                        e,
                        l,
                        (idx + 1) as u64,
                        funcs,
                        next.fwd,
                        w.fresh,
                        places,
                        depth,
                    );
                }
            }
        }
        assert(countable(w.fwd));
        lemma_same_symbols(fwd, counted);
        lemma_nodes_stay(fwd, counted);
        assert(well_placed(counted));
        assert(all_placed(carried, counted));
        lemma_bound_well(counted, l.carried_params, carried);
        lemma_walked_well(body.expr, funcs, entered, body.fresh, (depth - 1) as nat);
        if let CExprV::App { func: CValV::Label(target), args } = w.rest {
            if target == l.name && args.len() > 0 {
                let sent = args.subrange(1, args.len() as int);
                let next = placed_all(w.fwd, sent);
                lemma_placed_well(w.fwd, sent, sent.len());
                if let Some(places) = next.places {
                    lemma_turned_well(
                        e,
                        l,
                        (idx + 1) as u64,
                        funcs,
                        next.fwd,
                        w.fresh,
                        places,
                        depth,
                    );
                }
            }
        }
    }
}

pub proof fn lemma_walked_call_well(
    e: CExprV,
    funcs: Seq<CTopLevelFnV>,
    fwd: ForwardV,
    fresh: FreshVars,
    depth: nat,
)
    requires
        well_placed(fwd),
        countable(walked_call(e, funcs, fwd, fresh, depth).fwd),
    ensures
        well_placed(walked_call(e, funcs, fwd, fresh, depth).fwd),
    decreases depth, e, 2nat, 0nat,
{
    if let CExprV::Fix { defs, body } = e {
        if let Some(call) = real_call(defs, *body) {
            if let Some(callee) = unit_of(funcs, call.unit) {
                let p = placed_all(fwd, call.args);
                assert(decreases_to!(e => defs));
                assert(decreases_to!(defs => defs[0]));
                assert(decreases_to!(defs[0] => defs[0].body));
                if straight_line(callee.def.body) {
                    match p.places {
                        None => lemma_placed_well(fwd, call.args, call.args.len()),
                        Some(places) => {
                            let next = with_call(p.fwd, call, callee, places);
                            lemma_call_grows(p.fwd, call, callee, places);
                            lemma_walked_grows(call.rest, funcs, next, fresh, depth);
                            lemma_placed_well(fwd, call.args, call.args.len());
                            lemma_op_node_well(
                                p.fwd,
                                next,
                                call.result_var,
                                call.unit,
                                places,
                            );
                            lemma_walked_well(call.rest, funcs, next, fresh, depth);
                        },
                    }
                } else if transparent(callee.def.body, funcs, Set::empty()) {
                    match p.places {
                        None => lemma_placed_well(fwd, call.args, call.args.len()),
                        Some(places) => {
                            let i = inlined(e, callee, places, funcs, p.fwd, fresh, depth);
                            lemma_inlined_grows(e, callee, places, funcs, p.fwd, fresh, depth);
                            match i.result {
                                None => {
                                    lemma_placed_well(fwd, call.args, call.args.len());
                                    lemma_inlined_well(
                                        e,
                                        callee,
                                        places,
                                        funcs,
                                        p.fwd,
                                        fresh,
                                        depth,
                                    );
                                },
                                Some(place) => {
                                    let next = ForwardV {
                                        env: i.fwd.env.insert(call.result_var, place),
                                        ..i.fwd
                                    };
                                    lemma_walked_grows(call.rest, funcs, next, i.fresh, depth);
                                    lemma_placed_well(fwd, call.args, call.args.len());
                                    lemma_inlined_well(
                                        e,
                                        callee,
                                        places,
                                        funcs,
                                        p.fwd,
                                        fresh,
                                        depth,
                                    );
                                    lemma_same_symbols(i.fwd, next);
                                    lemma_nodes_stay(i.fwd, next);
                                    lemma_walked_well(call.rest, funcs, next, i.fresh, depth);
                                },
                            }
                        },
                    }
                }
            }
        }
    }
}

pub proof fn lemma_inlined_well(
    e: CExprV,
    callee: CTopLevelFnV,
    places: Seq<usize>,
    funcs: Seq<CTopLevelFnV>,
    fwd: ForwardV,
    fresh: FreshVars,
    depth: nat,
)
    requires
        well_placed(fwd),
        all_placed(places, fwd),
        countable(inlined(e, callee, places, funcs, fwd, fresh, depth).fwd),
    ensures
        well_placed(inlined(e, callee, places, funcs, fwd, fresh, depth).fwd),
        inlined(e, callee, places, funcs, fwd, fresh, depth).result matches Some(p) ==> p
            < inlined(e, callee, places, funcs, fwd, fresh, depth).fwd.nodes.len(),
    decreases depth, e, 1nat, 0nat,
{
    if depth > 0 {
        let p = renamed_params(
            callee.def.params,
            ordinary_count(callee.def.params),
            Map::empty(),
            fresh,
        );
        let body = renamed(callee.def.body, p.map, p.fresh);
        let bound = with_bound(fwd, p.params, places);
        let w = walked(body.expr, funcs, bound, body.fresh, (depth - 1) as nat);
        if let CExprV::App { args, .. } = w.rest {
            if args.len() > 0 {
                lemma_one_placed_grows(w.fwd, args.last());
            }
        }
        lemma_bound_well(fwd, p.params, places);
        lemma_walked_well(body.expr, funcs, bound, body.fresh, (depth - 1) as nat);
        if let CExprV::App { args, .. } = w.rest {
            if args.len() > 0 {
                lemma_one_placed_well(w.fwd, args.last());
            }
        }
    }
}

/// Translation keeps the nodes that it has found, in their places.
pub proof fn lemma_walked_keeps_nodes(
    e: CExprV,
    funcs: Seq<CTopLevelFnV>,
    fwd: ForwardV,
    fresh: FreshVars,
    depth: nat,
)
    ensures
        fwd.nodes.len() <= walked(e, funcs, fwd, fresh, depth).fwd.nodes.len(),
        forall|i: int|
            0 <= i < fwd.nodes.len() ==> #[trigger] walked(e, funcs, fwd, fresh, depth).fwd.nodes[i]
                == fwd.nodes[i],
{
    lemma_walked_grows(e, funcs, fwd, fresh, depth);
}

/// A translation that has found nothing is well placed.
pub proof fn lemma_nothing_well_placed()
    ensures
        well_placed(nothing_found()),
{
}

} // verus!
