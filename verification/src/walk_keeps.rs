//! What translation keeps of what it has found: nodes, free values, what symbols
//! stand for, and the places of variables that it does not bind.

use vstd::prelude::*;

use crate::alike::lemma_in_sum;
use crate::cps::{CExprV, CTopLevelFnV, CValV, PrimOpV};
use crate::cps_laws::{
    binds, binds_first, counts_from, lemma_renamed_binds_fresh, lemma_renamed_params_count,
};
use crate::forward::{
    bound_to, free_symbol, inlined, next_place, op_symbol, ordinary_count, paired, placed,
    placed_all, placed_first, turned, walked, walked_call, with_bound, with_call, with_node,
    with_op, with_op_noted, FieldOpV, ForwardV, LoadOpV, RawOpV, StructOpV, WalkedV,
};
use crate::fresh::FreshVars;
use crate::lang::CleaveLangV;
use crate::listing::{entry_of, noted};
use crate::rebuild::op_of;
use crate::rename::{renamed, renamed_params};
use crate::shapes::{counted_loop, pure_op, real_call, straight_line, transparent, unit_of};
use crate::shapes::{LoopV, RealCallV};
use crate::text::{decimal, digit_char};
use crate::ty::TyV;
use crate::walk_laws::{
    lemma_inlined_grows, lemma_one_placed_grows, lemma_placed_grows, lemma_shapes_shrink,
    lemma_turned_grows, lemma_walked_grows,
};

verus! {

/// Whether the term of a variable from outside is the free symbol that stands for it.
pub open spec fn outside_at(fwd: ForwardV, v: u32) -> bool {
    let place = fwd.external_vars[v];
    &&& place < fwd.nodes.len()
    &&& fwd.nodes[place as int] matches CleaveLangV::Free(s)
    &&& fwd.free_vars.contains_key(s)
    &&& fwd.free_vars[s] == CValV::Var(v)
}

/// Whether the free symbols are those of the numbers up to the next one, and stand for
/// the variables from outside.
pub open spec fn numbered(fwd: ForwardV) -> bool {
    &&& fwd.next_free <= fwd.nodes.len()
    &&& forall|v: u32| #[trigger] fwd.external_vars.contains_key(v) ==> outside_at(fwd, v)
    &&& forall|s: Seq<char>| #[trigger]
        fwd.free_vars.contains_key(s) ==> fwd.free_vars[s] is Var && exists|k: u32|
            k < fwd.next_free && s == #[trigger] free_symbol(k)
}

/// Whether a symbol is that of an operation, with some number of values.
pub open spec fn symbol_of(s: Seq<char>, ty: TyV, op: PrimOpV) -> bool {
    pure_op(op) && exists|count: nat| s == #[trigger] op_symbol(ty, op, count)
}

/// Whether a symbol, if it stands for an operation, is that operation's.
pub open spec fn honest_at(fwd: ForwardV, s: Seq<char>) -> bool {
    op_of(fwd, s) matches Some(o) ==> symbol_of(s, o.1, o.0)
}

/// Whether every symbol that stands for an operation is that operation's.
pub open spec fn honest(fwd: ForwardV) -> bool {
    forall|s: Seq<char>| #![trigger op_of(fwd, s)] honest_at(fwd, s)
}

/// Whether the second translation has the nodes, the free values and the operations of
/// the first.
pub open spec fn keeps(a: ForwardV, b: ForwardV) -> bool {
    &&& a.nodes.len() <= b.nodes.len()
    &&& forall|i: int| 0 <= i < a.nodes.len() ==> #[trigger] b.nodes[i] == a.nodes[i]
    &&& forall|s: Seq<char>| #[trigger]
        a.free_vars.contains_key(s) ==> b.free_vars.contains_key(s) && b.free_vars[s]
            == a.free_vars[s]
    &&& forall|s: Seq<char>| #[trigger] op_of(a, s) is Some ==> op_of(b, s) is Some
}

/// Whether a variable has the same place, or none, in both.
pub open spec fn same_at(a: Map<u32, usize>, b: Map<u32, usize>, v: u32) -> bool {
    a.contains_key(v) == b.contains_key(v) && (a.contains_key(v) ==> a[v] == b[v])
}

/// Whether every variable below the bound has the same place in both, but for some.
pub open spec fn env_kept(
    a: Map<u32, usize>,
    b: Map<u32, usize>,
    bound: int,
    changed: Seq<u32>,
) -> bool {
    forall|v: u32| v < bound && !changed.contains(v) ==> #[trigger] same_at(a, b, v)
}

/// What is kept of what is kept is kept.
pub proof fn lemma_keeps_more(a: ForwardV, b: ForwardV, c: ForwardV)
    requires
        keeps(a, b),
        keeps(b, c),
    ensures
        keeps(a, c),
{
    assert forall|i: int| 0 <= i < a.nodes.len() implies #[trigger] c.nodes[i] == a.nodes[i] by {
        assert(b.nodes[i] == a.nodes[i]);
    }
    assert forall|s: Seq<char>| #[trigger] op_of(a, s) is Some implies op_of(c, s) is Some by {
        assert(op_of(b, s) is Some);
    }
}

proof fn lemma_env_kept_more(
    a: Map<u32, usize>,
    b: Map<u32, usize>,
    c: Map<u32, usize>,
    first: int,
    second: int,
    changed: Seq<u32>,
)
    requires
        first <= second,
        env_kept(a, b, first, changed),
        env_kept(b, c, second, changed),
    ensures
        env_kept(a, c, first, changed),
{
    assert forall|v: u32| v < first && !changed.contains(v) implies #[trigger] same_at(a, c, v) by {
        assert(same_at(a, b, v));
        assert(same_at(b, c, v));
    }
}

proof fn lemma_decimal_tells(a: nat, b: nat)
    requires
        decimal(a) == decimal(b),
    ensures
        a == b,
    decreases a,
{
    assert(decimal(a / 10).len() > 0);
    assert(decimal(b / 10).len() > 0);
    assert(a < 10 ==> a % 10 == a);
    assert(b < 10 ==> b % 10 == b);
    assert(decimal(a).last() == digit_char(a % 10));
    assert(decimal(b).last() == digit_char(b % 10));
    assert(digit_char(a % 10) == digit_char(b % 10));
    if a >= 10 && b >= 10 {
        assert(decimal(a).drop_last() =~= decimal(a / 10));
        assert(decimal(b).drop_last() =~= decimal(b / 10));
        lemma_decimal_tells(a / 10, b / 10);
    }
}

/// Free symbols with different numbers differ.
proof fn lemma_free_symbols_differ(a: u32, b: u32)
    requires
        free_symbol(a) == free_symbol(b),
    ensures
        a == b,
{
    let n = "fv"@.len() as int;
    assert(free_symbol(a).subrange(n, free_symbol(a).len() as int) =~= decimal(a as nat));
    assert(free_symbol(b).subrange(n, free_symbol(b).len() as int) =~= decimal(b as nat));
    lemma_decimal_tells(a as nat, b as nat);
}

/// Symbols stand for the same operations where the lists of operations are the same.
proof fn lemma_same_ops(a: ForwardV, b: ForwardV)
    requires
        a.raw_ops == b.raw_ops,
        a.struct_ops == b.struct_ops,
        a.field_ops == b.field_ops,
        a.array_ops == b.array_ops,
        a.array_repeat_ops == b.array_repeat_ops,
        a.load_ops == b.load_ops,
    ensures
        forall|s: Seq<char>| #[trigger] op_of(a, s) == op_of(b, s),
        honest(a) ==> honest(b),
{
    assert forall|s: Seq<char>| #[trigger] op_of(a, s) == op_of(b, s) by {}
    if honest(a) {
        assert forall|s: Seq<char>| #![trigger op_of(b, s)] honest_at(b, s) by {
            assert(op_of(a, s) == op_of(b, s));
            assert(honest_at(a, s));
        }
    }
}

/// A translation of which only the places of variables were changed.
pub proof fn lemma_rebound_keeps(a: ForwardV, b: ForwardV)
    requires
        b == (ForwardV { env: b.env, ..a }),
        numbered(a),
    ensures
        keeps(a, b),
        numbered(b),
        honest(a) ==> honest(b),
{
    lemma_same_ops(a, b);
}

/// A value.
pub proof fn lemma_placed_keeps(fwd: ForwardV, v: CValV)
    requires
        numbered(fwd),
        placed(fwd, v).fwd.nodes.len() <= u32::MAX,
    ensures
        keeps(fwd, placed(fwd, v).fwd),
        numbered(placed(fwd, v).fwd),
        honest(fwd) ==> honest(placed(fwd, v).fwd),
        placed(fwd, v).fwd.env == fwd.env,
{
    let after = placed(fwd, v).fwd;
    lemma_same_ops(fwd, after);
    if let CValV::Var(cv) = v {
        if !fwd.env.contains_key(cv) && !fwd.external_vars.contains_key(cv) {
            let sym = free_symbol(fwd.next_free);
            assert(!fwd.free_vars.contains_key(sym)) by {
                if fwd.free_vars.contains_key(sym) {
                    let k = choose|k: u32|
                        k < fwd.next_free && sym == #[trigger] free_symbol(k);
                    lemma_free_symbols_differ(k, fwd.next_free);
                }
            }
            assert forall|s: Seq<char>| #[trigger] after.free_vars.contains_key(s) implies exists|
                k: u32,
            |
                k < after.next_free && s == #[trigger] free_symbol(k) by {
                if s == sym {
                    assert(fwd.next_free < after.next_free);
                } else {
                    assert(fwd.free_vars.contains_key(s));
                    let k = choose|k: u32| k < fwd.next_free && s == #[trigger] free_symbol(k);
                    assert(k < after.next_free);
                }
            }
        }
    }
}

/// Several values.
pub proof fn lemma_placed_first_keeps(fwd: ForwardV, vals: Seq<CValV>, n: nat)
    requires
        numbered(fwd),
        placed_first(fwd, vals, n).fwd.nodes.len() <= u32::MAX,
    ensures
        keeps(fwd, placed_first(fwd, vals, n).fwd),
        numbered(placed_first(fwd, vals, n).fwd),
        honest(fwd) ==> honest(placed_first(fwd, vals, n).fwd),
        placed_first(fwd, vals, n).fwd.env == fwd.env,
    decreases n,
{
    if !(n == 0 || n > vals.len()) {
        let before = placed_first(fwd, vals, (n - 1) as nat);
        if before.places is Some {
            lemma_one_placed_grows(before.fwd, vals[n - 1]);
            lemma_placed_first_keeps(fwd, vals, (n - 1) as nat);
            lemma_placed_keeps(before.fwd, vals[n - 1]);
            lemma_keeps_more(fwd, before.fwd, placed(before.fwd, vals[n - 1]).fwd);
        } else {
            lemma_placed_first_keeps(fwd, vals, (n - 1) as nat);
        }
    }
}

proof fn lemma_entry_noted<V>(
    s: Seq<(Seq<char>, V)>,
    name: Seq<char>,
    value: V,
    other: Seq<char>,
)
    ensures
        entry_of(noted(s, name, value), other) == (if entry_of(s, other) is None && other == name {
            Some(value)
        } else {
            entry_of(s, other)
        }),
    decreases s.len(),
{
    if entry_of(s, name) is None {
        lemma_entry_pushed(s, name, value, other);
    }
}

proof fn lemma_entry_pushed<V>(
    s: Seq<(Seq<char>, V)>,
    name: Seq<char>,
    value: V,
    other: Seq<char>,
)
    ensures
        entry_of(s.push((name, value)), other) == (if entry_of(s, other) is None && other == name {
            Some(value)
        } else {
            entry_of(s, other)
        }),
    decreases s.len(),
{
    let t = s.push((name, value));
    if s.len() == 0 {
        let rest = t.subrange(1, t.len() as int);
        assert(entry_of(rest, other) is None);
    } else if s[0].0 != other {
        let rest = s.subrange(1, s.len() as int);
        assert(t.subrange(1, t.len() as int) =~= rest.push((name, value)));
        lemma_entry_pushed(rest, name, value, other);
    }
}

/// What a symbol stands for once an operation was noted.
proof fn lemma_op_of_noted(fwd: ForwardV, symbol: Seq<char>, ty: TyV, op: PrimOpV, s: Seq<char>)
    requires
        pure_op(op),
    ensures
        ({
            let now = op_of(with_op_noted(fwd, symbol, ty, op), s);
            &&& now == op_of(fwd, s) || (s == symbol && now == Some((op, ty)))
            &&& op_of(fwd, s) is Some || s == symbol ==> now is Some
        }),
{
    match op {
        PrimOpV::RawMlirOp { op: name, attrs } => {
            lemma_entry_noted(fwd.raw_ops, symbol, RawOpV { op: name, ty, attrs }, s);
        },
        PrimOpV::Struct(name, fields) => {
            lemma_entry_noted(fwd.struct_ops, symbol, StructOpV { name, fields, ty }, s);
        },
        PrimOpV::Field { struct_ty, field } => {
            lemma_entry_noted(fwd.field_ops, symbol, FieldOpV { struct_ty, field, ty }, s);
        },
        PrimOpV::Array => lemma_entry_noted(fwd.array_ops, symbol, ty, s),
        PrimOpV::ArrayRepeat => lemma_entry_noted(fwd.array_repeat_ops, symbol, ty, s),
        PrimOpV::Load { array_ty } => {
            lemma_entry_noted(fwd.load_ops, symbol, LoadOpV { array_ty, ty }, s);
        },
        _ => {},
    }
}

/// A pure operation.
pub proof fn lemma_op_keeps(fwd: ForwardV, var: u32, ty: TyV, op: PrimOpV, places: Seq<usize>)
    requires
        numbered(fwd),
        pure_op(op),
    ensures
        keeps(fwd, with_op(fwd, var, ty, op, places)),
        numbered(with_op(fwd, var, ty, op, places)),
        honest(fwd) ==> honest(with_op(fwd, var, ty, op, places)),
        op_of(with_op(fwd, var, ty, op, places), op_symbol(ty, op, places.len())) is Some,
{
    let symbol = op_symbol(ty, op, places.len());
    let mid = with_op_noted(fwd, symbol, ty, op);
    let after = with_op(fwd, var, ty, op, places);
    lemma_same_ops(mid, after);
    assert forall|s: Seq<char>| #[trigger] op_of(fwd, s) is Some implies op_of(after, s) is Some by {
        lemma_op_of_noted(fwd, symbol, ty, op, s);
        assert(op_of(mid, s) == op_of(after, s));
    }
    lemma_op_of_noted(fwd, symbol, ty, op, symbol);
    assert(op_of(mid, symbol) == op_of(after, symbol));
    if honest(fwd) {
        assert forall|s: Seq<char>| #![trigger op_of(after, s)] honest_at(after, s) by {
            lemma_op_of_noted(fwd, symbol, ty, op, s);
            assert(op_of(mid, s) == op_of(after, s));
            assert(honest_at(fwd, s));
        }
    }
}

/// A call of a straight-line function.
pub proof fn lemma_call_keeps(
    fwd: ForwardV,
    call: RealCallV,
    callee: CTopLevelFnV,
    places: Seq<usize>,
)
    requires
        numbered(fwd),
    ensures
        keeps(fwd, with_call(fwd, call, callee, places)),
        numbered(with_call(fwd, call, callee, places)),
        honest(fwd) ==> honest(with_call(fwd, call, callee, places)),
{
    lemma_same_ops(fwd, with_call(fwd, call, callee, places));
}

/// Whether the fresh variables last while an expression is translated.
pub open spec fn lasts(
    e: CExprV,
    funcs: Seq<CTopLevelFnV>,
    fwd: ForwardV,
    fresh: FreshVars,
    depth: nat,
) -> bool
    decreases depth, e, 3nat, 0nat,
{
    match e {
        CExprV::LetPrim { var, ty, op, args, cont } => {
            let p = placed_all(fwd, args);
            pure_op(op) && p.places is Some ==> lasts(
                *cont,
                funcs,
                with_op(p.fwd, var, ty, op, p.places->Some_0),
                fresh,
                depth,
            )
        },
        CExprV::Fix { defs, body } => match counted_loop(defs, *body) {
            None => call_lasts(e, funcs, fwd, fresh, depth),
            Some(l) => {
                let init = placed_all(fwd, l.carried_init);
                match init.places {
                    None => call_lasts(e, funcs, fwd, fresh, depth),
                    Some(places) => {
                        let t = turned(e, l, l.start, funcs, init.fwd, fresh, places, depth);
                        match t.carried {
                            None => call_lasts(e, funcs, fwd, fresh, depth),
                            Some(carried) => turns_last(
                                e,
                                l,
                                l.start,
                                funcs,
                                init.fwd,
                                fresh,
                                places,
                                depth,
                            ) && lasts(
                                l.after,
                                funcs,
                                with_bound(t.fwd, l.carried_params, carried),
                                t.fresh,
                                depth,
                            ),
                        }
                    },
                }
            },
        },
        _ => true,
    }
}

/// Whether the fresh variables last while the turns of a loop are translated.
pub open spec fn turns_last(
    e: CExprV,
    l: LoopV,
    idx: u64,
    funcs: Seq<CTopLevelFnV>,
    fwd: ForwardV,
    fresh: FreshVars,
    carried: Seq<usize>,
    depth: nat,
) -> bool
    decreases depth, e, 1nat, l.end - idx,
{
    if idx >= l.end || depth == 0 {
        true
    } else {
        let counted = ForwardV {
            env: fwd.env.insert(l.i_var, next_place(fwd)),
            ..with_node(fwd, CleaveLangV::Int(idx))
        };
        let entered = with_bound(counted, l.carried_params, carried);
        let body = renamed(l.turn, Map::empty(), fresh);
        let w = walked(body.expr, funcs, entered, body.fresh, (depth - 1) as nat);
        &&& fresh.upcoming_var + binds(l.turn).len() <= u32::MAX
        &&& lasts(body.expr, funcs, entered, body.fresh, (depth - 1) as nat)
        &&& match w.rest {
            CExprV::App { func: CValV::Label(target), args } => if target == l.name && args.len()
                > 0 {
                let next = placed_all(w.fwd, args.subrange(1, args.len() as int));
                match next.places {
                    None => true,
                    Some(places) => turns_last(
                        e,
                        l,
                        (idx + 1) as u64,
                        funcs,
                        next.fwd,
                        w.fresh,
                        places,
                        depth,
                    ),
                }
            } else {
                true
            },
            _ => true,
        }
    }
}

/// Whether the fresh variables last while a call and what follows it are translated.
pub open spec fn call_lasts(
    e: CExprV,
    funcs: Seq<CTopLevelFnV>,
    fwd: ForwardV,
    fresh: FreshVars,
    depth: nat,
) -> bool
    decreases depth, e, 2nat, 0nat,
{
    match e {
        CExprV::Fix { defs, body } => match real_call(defs, *body) {
            None => true,
            Some(call) => match unit_of(funcs, call.unit) {
                None => true,
                Some(callee) => if straight_line(callee.def.body) {
                    let p = placed_all(fwd, call.args);
                    match p.places {
                        None => true,
                        Some(places) => lasts(
                            call.rest,
                            funcs,
                            with_call(p.fwd, call, callee, places),
                            fresh,
                            depth,
                        ),
                    }
                } else if transparent(callee.def.body, funcs, Set::empty()) {
                    let p = placed_all(fwd, call.args);
                    match p.places {
                        None => true,
                        Some(places) => {
                            let i = inlined(e, callee, places, funcs, p.fwd, fresh, depth);
                            inlining_lasts(e, callee, places, funcs, p.fwd, fresh, depth)
                                && match i.result {
                                None => true,
                                Some(place) => lasts(
                                    call.rest,
                                    funcs,
                                    ForwardV {
                                        env: i.fwd.env.insert(call.result_var, place),
                                        ..i.fwd
                                    },
                                    i.fresh,
                                    depth,
                                ),
                            }
                        },
                    }
                } else {
                    true
                },
            },
        },
        _ => true,
    }
}

/// Whether the fresh variables last while the body of a called function is translated
/// in place.
pub open spec fn inlining_lasts(
    e: CExprV,
    callee: CTopLevelFnV,
    places: Seq<usize>,
    funcs: Seq<CTopLevelFnV>,
    fwd: ForwardV,
    fresh: FreshVars,
    depth: nat,
) -> bool
    decreases depth, e, 1nat, 0nat,
{
    if depth == 0 {
        true
    } else {
        let count = ordinary_count(callee.def.params);
        let p = renamed_params(callee.def.params, count, Map::empty(), fresh);
        let body = renamed(callee.def.body, p.map, p.fresh);
        &&& fresh.upcoming_var + count + binds(callee.def.body).len() <= u32::MAX
        &&& lasts(
            body.expr,
            funcs,
            with_bound(fwd, p.params, places),
            body.fresh,
            (depth - 1) as nat,
        )
    }
}

/// What follows a call, and what a loop binds and is followed by, bind no more than
/// the whole.
pub proof fn lemma_shapes_bind(e: CExprV)
    requires
        e is Fix,
    ensures
        real_call(e->defs, *e->Fix_body) matches Some(call) ==> binds(e).contains(call.result_var)
            && forall|v: u32| #[trigger] binds(call.rest).contains(v) ==> binds(e).contains(v),
        counted_loop(e->defs, *e->Fix_body) matches Some(l) ==> binds(e).contains(l.i_var) && (
        forall|v: u32| #[trigger] l.carried_params.contains(v) ==> binds(e).contains(v)) && (
        forall|v: u32| #[trigger] binds(l.after).contains(v) ==> binds(e).contains(v)),
{
    let defs = e->defs;
    let body = *e->Fix_body;
    lemma_in_sum(binds_first(defs, defs.len()), binds(body));
    if defs.len() == 1 {
        let d = defs[0];
        assert(binds_first(defs, 1) == binds_first(defs, 0) + d.params + binds(d.body));
        assert(binds_first(defs, 0) + d.params =~= d.params);
        lemma_in_sum(d.params, binds(d.body));
        if let Some(call) = real_call(defs, body) {
            assert(d.params[0] == call.result_var);
            assert(d.params.contains(call.result_var));
        }
        if let Some(l) = counted_loop(defs, body) {
            assert(d.params.contains(l.i_var));
            assert forall|v: u32| #[trigger] l.carried_params.contains(v) implies binds(
                e,
            ).contains(v) by {
                let k = choose|k: int|
                    0 <= k < l.carried_params.len() && l.carried_params[k] == v;
                assert(d.params[k + 1] == v);
                assert(d.params.contains(v));
            }
            let tests = d.body->defs;
            let test = *d.body->Fix_body;
            lemma_in_sum(binds_first(tests, tests.len()), binds(test));
            let choice = tests[0].body;
            assert(binds_first(tests, 1) == binds_first(tests, 0) + tests[0].params + binds(
                choice,
            ));
            lemma_in_sum(binds_first(tests, 0) + tests[0].params, binds(choice));
            lemma_in_sum(binds(l.turn), binds(l.after));
            assert(binds(choice) == binds(l.turn) + binds(l.after));
        }
    }
}

/// Binding variables leaves the place of any other.
pub proof fn lemma_bound_keeps_env(
    env: Map<u32, usize>,
    vars: Seq<u32>,
    places: Seq<usize>,
    n: nat,
    v: u32,
)
    requires
        !vars.contains(v),
    ensures
        same_at(env, bound_to(env, vars, places, n), v),
    decreases n,
{
    if !(n == 0 || n > vars.len() || n > places.len()) {
        lemma_bound_keeps_env(env, vars, places, (n - 1) as nat, v);
        assert(vars.contains(vars[n - 1]));
    }
}

/// Whether translation has kept what it had found, and every variable that was bound
/// has its place, but for some and for fresh ones.
pub open spec fn kept(
    a: ForwardV,
    before: FreshVars,
    b: ForwardV,
    after: FreshVars,
    changed: Seq<u32>,
) -> bool {
    &&& keeps(a, b)
    &&& numbered(b)
    &&& honest(a) ==> honest(b)
    &&& before.upcoming_var <= after.upcoming_var
    &&& env_kept(a.env, b.env, before.upcoming_var as int, changed)
}

/// What is kept twice over is kept.
pub proof fn lemma_kept_more(
    a: ForwardV,
    fa: FreshVars,
    b: ForwardV,
    fb: FreshVars,
    c: ForwardV,
    fc: FreshVars,
    changed: Seq<u32>,
)
    requires
        kept(a, fa, b, fb, changed),
        kept(b, fb, c, fc, changed),
    ensures
        kept(a, fa, c, fc, changed),
{
    lemma_keeps_more(a, b, c);
    lemma_env_kept_more(
        a.env,
        b.env,
        c.env,
        fa.upcoming_var as int,
        fb.upcoming_var as int,
        changed,
    );
}

/// What is kept but for some variables is kept but for more.
pub proof fn lemma_kept_but_more(
    a: ForwardV,
    fa: FreshVars,
    b: ForwardV,
    fb: FreshVars,
    few: Seq<u32>,
    many: Seq<u32>,
)
    requires
        kept(a, fa, b, fb, few),
        forall|v: u32| #[trigger] few.contains(v) ==> many.contains(v),
    ensures
        kept(a, fa, b, fb, many),
{
}

/// Translation keeps what it has found, as long as the nodes can be numbered and the
/// fresh variables last.
pub proof fn lemma_walked_keeps(
    e: CExprV,
    funcs: Seq<CTopLevelFnV>,
    fwd: ForwardV,
    fresh: FreshVars,
    depth: nat,
)
    requires
        numbered(fwd),
        lasts(e, funcs, fwd, fresh, depth),
        walked(e, funcs, fwd, fresh, depth).fwd.nodes.len() <= u32::MAX,
    ensures
        kept(
            fwd,
            fresh,
            walked(e, funcs, fwd, fresh, depth).fwd,
            walked(e, funcs, fwd, fresh, depth).fresh,
            binds(e),
        ),
    decreases depth, e, 3nat, 0nat,
{
    let end = walked(e, funcs, fwd, fresh, depth);
    match e {
        CExprV::LetPrim { var, ty, op, args, cont } => if pure_op(op) {
            let p = placed_all(fwd, args);
            match p.places {
                None => lemma_placed_first_keeps(fwd, args, args.len()),
                Some(places) => {
                    let next = with_op(p.fwd, var, ty, op, places);
                    lemma_walked_grows(*cont, funcs, next, fresh, depth);
                    lemma_placed_first_keeps(fwd, args, args.len());
                    lemma_op_keeps(p.fwd, var, ty, op, places);
                    lemma_keeps_more(fwd, p.fwd, next);
                    lemma_walked_keeps(*cont, funcs, next, fresh, depth);
                    lemma_let_binds(e);
                    assert(kept(fwd, fresh, next, fresh, binds(e)));
                    lemma_kept_but_more(next, fresh, end.fwd, end.fresh, binds(*cont), binds(e));
                    lemma_kept_more(fwd, fresh, next, fresh, end.fwd, end.fresh, binds(e));
                },
            }
        } else {
            lemma_rebound_keeps(fwd, fwd);
        },
        CExprV::Fix { defs, body } => match counted_loop(defs, *body) {
            None => lemma_walked_call_keeps(e, funcs, fwd, fresh, depth),
            Some(l) => {
                let init = placed_all(fwd, l.carried_init);
                lemma_shapes_bind(e);
                match init.places {
                    None => lemma_walked_call_keeps(e, funcs, fwd, fresh, depth),
                    Some(places) => {
                        let t = turned(e, l, l.start, funcs, init.fwd, fresh, places, depth);
                        match t.carried {
                            None => lemma_walked_call_keeps(e, funcs, fwd, fresh, depth),
                            Some(carried) => {
                                let rest = with_bound(t.fwd, l.carried_params, carried);
                                lemma_shapes_shrink(e, defs, *body, l);
                                lemma_walked_grows(l.after, funcs, rest, t.fresh, depth);
                                lemma_turned_grows(
                                    e,
                                    l,
                                    l.start,
                                    funcs,
                                    init.fwd,
                                    fresh,
                                    places,
                                    depth,
                                );
                                lemma_placed_first_keeps(
                                    fwd,
                                    l.carried_init,
                                    l.carried_init.len(),
                                );
                                lemma_turned_keeps(
                                    e,
                                    l,
                                    l.start,
                                    funcs,
                                    init.fwd,
                                    fresh,
                                    places,
                                    depth,
                                );
                                let changed = seq![l.i_var] + l.carried_params;
                                assert forall|v: u32| #[trigger] changed.contains(v) implies binds(
                                    e,
                                ).contains(v) by {
                                    let k = choose|k: int|
                                        0 <= k < changed.len() && changed[k] == v;
                                    if k > 0 {
                                        assert(l.carried_params[k - 1] == v);
                                        assert(l.carried_params.contains(v));
                                    }
                                }
                                lemma_kept_but_more(
                                    init.fwd,
                                    fresh,
                                    t.fwd,
                                    t.fresh,
                                    changed,
                                    binds(e),
                                );
                                lemma_kept_more(
                                    fwd,
                                    fresh,
                                    init.fwd,
                                    fresh,
                                    t.fwd,
                                    t.fresh,
                                    binds(e),
                                );
                                lemma_rebound_keeps(t.fwd, rest);
                                lemma_walked_keeps(l.after, funcs, rest, t.fresh, depth);
                                lemma_kept_but_more(
                                    rest,
                                    t.fresh,
                                    end.fwd,
                                    end.fresh,
                                    binds(l.after),
                                    binds(e),
                                );
                                assert forall|v: u32| !binds(e).contains(v) implies #[trigger]
                                    same_at(t.fwd.env, rest.env, v) by {
                                    assert(!l.carried_params.contains(v));
                                    lemma_bound_keeps_env(
                                        t.fwd.env,
                                        l.carried_params,
                                        carried,
                                        paired(l.carried_params, carried),
                                        v,
                                    );
                                }
                                lemma_kept_more(
                                    t.fwd,
                                    t.fresh,
                                    rest,
                                    t.fresh,
                                    end.fwd,
                                    end.fresh,
                                    binds(e),
                                );
                                lemma_kept_more(
                                    fwd,
                                    fresh,
                                    t.fwd,
                                    t.fresh,
                                    end.fwd,
                                    end.fresh,
                                    binds(e),
                                );
                            },
                        }
                    },
                }
            },
        },
        _ => lemma_rebound_keeps(fwd, fwd),
    }
}

/// What a binding and what follows it bind.
pub proof fn lemma_let_binds(e: CExprV)
    ensures
        e matches CExprV::LetPrim { var, cont, .. } ==> binds(e).contains(var) && forall|v: u32|
            #[trigger] binds(*cont).contains(v) ==> binds(e).contains(v),
{
    if let CExprV::LetPrim { var, cont, .. } = e {
        assert(binds(e)[0] == var);
        assert forall|v: u32| #[trigger] binds(*cont).contains(v) implies binds(e).contains(v) by {
            let k = choose|k: int| 0 <= k < binds(*cont).len() && binds(*cont)[k] == v;
            assert(binds(e)[k + 1] == v);
        }
    }
}

/// A variable below the first of a list that counts up is not in the list.
pub proof fn lemma_below_count(vars: Seq<u32>, first: u32, v: u32)
    requires
        counts_from(vars, first),
        v < first,
    ensures
        !vars.contains(v),
{
    if vars.contains(v) {
        let k = choose|k: int| 0 <= k < vars.len() && vars[k] == v;
        assert(vars[k] == first + k);
    }
}

/// One turn of a loop.
pub proof fn lemma_turn_keeps(
    e: CExprV,
    l: LoopV,
    idx: u64,
    funcs: Seq<CTopLevelFnV>,
    fwd: ForwardV,
    fresh: FreshVars,
    carried: Seq<usize>,
    depth: nat,
)
    requires
        idx < l.end,
        depth > 0,
        numbered(fwd),
        turns_last(e, l, idx, funcs, fwd, fresh, carried, depth),
        turn_taken(l, idx, funcs, fwd, fresh, carried, depth).fwd.nodes.len() <= u32::MAX,
    ensures
        numbered(turn_entered(l, idx, fwd, carried)),
        keeps(
            turn_entered(l, idx, fwd, carried),
            turn_taken(l, idx, funcs, fwd, fresh, carried, depth).fwd,
        ),
        kept(
            fwd,
            fresh,
            turn_taken(l, idx, funcs, fwd, fresh, carried, depth).fwd,
            turn_taken(l, idx, funcs, fwd, fresh, carried, depth).fresh,
            seq![l.i_var] + l.carried_params,
        ),
    decreases depth, e, 0nat, 0nat,
{
    let changed = seq![l.i_var] + l.carried_params;
    let counted = ForwardV {
        env: fwd.env.insert(l.i_var, next_place(fwd)),
        ..with_node(fwd, CleaveLangV::Int(idx))
    };
    let entered = turn_entered(l, idx, fwd, carried);
    let body = renamed(l.turn, Map::empty(), fresh);
    let w = turn_taken(l, idx, funcs, fwd, fresh, carried, depth);
    lemma_walked_grows(body.expr, funcs, entered, body.fresh, (depth - 1) as nat);
    lemma_renamed_binds_fresh(l.turn, Map::empty(), fresh);
    lemma_same_ops(fwd, entered);
    assert(keeps(fwd, entered));
    assert(numbered(entered));
    lemma_walked_keeps(body.expr, funcs, entered, body.fresh, (depth - 1) as nat);
    assert forall|v: u32| v < fresh.upcoming_var && !changed.contains(v) implies #[trigger] same_at(
        fwd.env,
        w.fwd.env,
        v,
    ) by {
        assert(changed[0] == l.i_var);
        assert(!l.carried_params.contains(v)) by {
            if l.carried_params.contains(v) {
                let k = choose|k: int| 0 <= k < l.carried_params.len() && l.carried_params[k] == v;
                assert(changed[k + 1] == v);
            }
        }
        lemma_bound_keeps_env(
            counted.env,
            l.carried_params,
            carried,
            paired(l.carried_params, carried),
            v,
        );
        lemma_below_count(binds(body.expr), fresh.upcoming_var, v);
        assert(same_at(entered.env, w.fwd.env, v));
    }
    lemma_keeps_more(fwd, entered, w.fwd);
}

/// What was found when a turn is entered.
pub open spec fn turn_entered(l: LoopV, idx: u64, fwd: ForwardV, carried: Seq<usize>) -> ForwardV {
    let counted = ForwardV {
        env: fwd.env.insert(l.i_var, next_place(fwd)),
        ..with_node(fwd, CleaveLangV::Int(idx))
    };
    with_bound(counted, l.carried_params, carried)
}

/// Where a turn has led.
pub open spec fn turn_taken(
    l: LoopV,
    idx: u64,
    funcs: Seq<CTopLevelFnV>,
    fwd: ForwardV,
    fresh: FreshVars,
    carried: Seq<usize>,
    depth: nat,
) -> WalkedV {
    let body = renamed(l.turn, Map::empty(), fresh);
    walked(
        body.expr,
        funcs,
        turn_entered(l, idx, fwd, carried),
        body.fresh,
        (depth - 1) as nat,
    )
}

/// The turns of a loop.
pub proof fn lemma_turned_keeps(
    e: CExprV,
    l: LoopV,
    idx: u64,
    funcs: Seq<CTopLevelFnV>,
    fwd: ForwardV,
    fresh: FreshVars,
    carried: Seq<usize>,
    depth: nat,
)
    requires
        numbered(fwd),
        turns_last(e, l, idx, funcs, fwd, fresh, carried, depth),
        turned(e, l, idx, funcs, fwd, fresh, carried, depth).fwd.nodes.len() <= u32::MAX,
    ensures
        kept(
            fwd,
            fresh,
            turned(e, l, idx, funcs, fwd, fresh, carried, depth).fwd,
            turned(e, l, idx, funcs, fwd, fresh, carried, depth).fresh,
            seq![l.i_var] + l.carried_params,
        ),
    decreases depth, e, 1nat, l.end - idx,
{
    let changed = seq![l.i_var] + l.carried_params;
    if idx >= l.end || depth == 0 {
        lemma_rebound_keeps(fwd, fwd);
    } else {
        let end = turned(e, l, idx, funcs, fwd, fresh, carried, depth);
        let w = turn_taken(l, idx, funcs, fwd, fresh, carried, depth);
        let jumps = w.rest matches CExprV::App { func: CValV::Label(target), args } && target
            == l.name && args.len() > 0;
        if jumps {
            let sent = w.rest->App_args.subrange(1, w.rest->App_args.len() as int);
            let next = placed_all(w.fwd, sent);
            lemma_placed_grows(w.fwd, sent, sent.len());
            if let Some(places) = next.places {
                lemma_turned_grows(
                    e,
                    l,
                    (idx + 1) as u64,
                    funcs,
                    next.fwd,
                    w.fresh,
                    places,
                    depth,
                );
            }
            lemma_turn_keeps(e, l, idx, funcs, fwd, fresh, carried, depth);
            lemma_placed_first_keeps(w.fwd, sent, sent.len());
            lemma_kept_more(fwd, fresh, w.fwd, w.fresh, next.fwd, w.fresh, changed);
            if let Some(places) = next.places {
                lemma_turned_keeps(
                    e,
                    l,
                    (idx + 1) as u64,
                    funcs,
                    next.fwd,
                    w.fresh,
                    places,
                    depth,
                );
                lemma_kept_more(fwd, fresh, next.fwd, w.fresh, end.fwd, end.fresh, changed);
            }
        } else {
            lemma_turn_keeps(e, l, idx, funcs, fwd, fresh, carried, depth);
        }
    }
}

/// A call and what follows it.
pub proof fn lemma_walked_call_keeps(
    e: CExprV,
    funcs: Seq<CTopLevelFnV>,
    fwd: ForwardV,
    fresh: FreshVars,
    depth: nat,
)
    requires
        numbered(fwd),
        call_lasts(e, funcs, fwd, fresh, depth),
        walked_call(e, funcs, fwd, fresh, depth).fwd.nodes.len() <= u32::MAX,
    ensures
        kept(
            fwd,
            fresh,
            walked_call(e, funcs, fwd, fresh, depth).fwd,
            walked_call(e, funcs, fwd, fresh, depth).fresh,
            binds(e),
        ),
    decreases depth, e, 2nat, 0nat,
{
    let end = walked_call(e, funcs, fwd, fresh, depth);
    lemma_rebound_keeps(fwd, fwd);
    if let CExprV::Fix { defs, body } = e {
        if let Some(call) = real_call(defs, *body) {
            if let Some(callee) = unit_of(funcs, call.unit) {
                let p = placed_all(fwd, call.args);
                lemma_shapes_bind(e);
                assert(decreases_to!(e => defs));
                assert(decreases_to!(defs => defs[0]));
                assert(decreases_to!(defs[0] => defs[0].body));
                if straight_line(callee.def.body) {
                    match p.places {
                        None => lemma_placed_first_keeps(fwd, call.args, call.args.len()),
                        Some(places) => {
                            let next = with_call(p.fwd, call, callee, places);
                            lemma_walked_grows(call.rest, funcs, next, fresh, depth);
                            lemma_placed_first_keeps(fwd, call.args, call.args.len());
                            lemma_call_keeps(p.fwd, call, callee, places);
                            lemma_keeps_more(fwd, p.fwd, next);
                            lemma_walked_keeps(call.rest, funcs, next, fresh, depth);
                            assert(kept(fwd, fresh, next, fresh, binds(e)));
                            lemma_kept_but_more(
                                next,
                                fresh,
                                end.fwd,
                                end.fresh,
                                binds(call.rest),
                                binds(e),
                            );
                            lemma_kept_more(fwd, fresh, next, fresh, end.fwd, end.fresh, binds(e));
                        },
                    }
                } else if transparent(callee.def.body, funcs, Set::empty()) {
                    match p.places {
                        None => lemma_placed_first_keeps(fwd, call.args, call.args.len()),
                        Some(places) => {
                            let i = inlined(e, callee, places, funcs, p.fwd, fresh, depth);
                            let next = match i.result {
                                None => i.fwd,
                                Some(place) => ForwardV {
                                    env: i.fwd.env.insert(call.result_var, place),
                                    ..i.fwd
                                },
                            };
                            if i.result is Some {
                                lemma_walked_grows(call.rest, funcs, next, i.fresh, depth);
                            }
                            lemma_inlined_grows(e, callee, places, funcs, p.fwd, fresh, depth);
                            lemma_placed_first_keeps(fwd, call.args, call.args.len());
                            lemma_inlined_keeps(e, callee, places, funcs, p.fwd, fresh, depth);
                            lemma_kept_but_more(
                                p.fwd,
                                fresh,
                                i.fwd,
                                i.fresh,
                                Seq::empty(),
                                binds(e),
                            );
                            lemma_kept_more(fwd, fresh, p.fwd, fresh, i.fwd, i.fresh, binds(e));
                            if i.result is Some {
                                lemma_rebound_keeps(i.fwd, next);
                                lemma_kept_more(
                                    fwd,
                                    fresh,
                                    i.fwd,
                                    i.fresh,
                                    next,
                                    i.fresh,
                                    binds(e),
                                );
                                lemma_walked_keeps(call.rest, funcs, next, i.fresh, depth);
                                lemma_kept_but_more(
                                    next,
                                    i.fresh,
                                    end.fwd,
                                    end.fresh,
                                    binds(call.rest),
                                    binds(e),
                                );
                                lemma_kept_more(
                                    fwd,
                                    fresh,
                                    next,
                                    i.fresh,
                                    end.fwd,
                                    end.fresh,
                                    binds(e),
                                );
                            }
                        },
                    }
                }
            }
        }
    }
}

/// The body of a called function.
pub proof fn lemma_inlined_keeps(
    e: CExprV,
    callee: CTopLevelFnV,
    places: Seq<usize>,
    funcs: Seq<CTopLevelFnV>,
    fwd: ForwardV,
    fresh: FreshVars,
    depth: nat,
)
    requires
        numbered(fwd),
        inlining_lasts(e, callee, places, funcs, fwd, fresh, depth),
        inlined(e, callee, places, funcs, fwd, fresh, depth).fwd.nodes.len() <= u32::MAX,
    ensures
        kept(
            fwd,
            fresh,
            inlined(e, callee, places, funcs, fwd, fresh, depth).fwd,
            inlined(e, callee, places, funcs, fwd, fresh, depth).fresh,
            Seq::empty(),
        ),
    decreases depth, e, 1nat, 0nat,
{
    if depth == 0 {
        lemma_rebound_keeps(fwd, fwd);
    } else {
        let count = ordinary_count(callee.def.params);
        let p = renamed_params(callee.def.params, count, Map::empty(), fresh);
        let body = renamed(callee.def.body, p.map, p.fresh);
        let bound = with_bound(fwd, p.params, places);
        let w = walked(body.expr, funcs, bound, body.fresh, (depth - 1) as nat);
        lemma_renamed_params_count(callee.def.params, count, Map::empty(), fresh);
        lemma_renamed_binds_fresh(callee.def.body, p.map, p.fresh);
        if let CExprV::App { args, .. } = w.rest {
            if args.len() > 0 {
                lemma_one_placed_grows(w.fwd, args.last());
            }
        }
        lemma_rebound_keeps(fwd, bound);
        lemma_walked_keeps(body.expr, funcs, bound, body.fresh, (depth - 1) as nat);
        lemma_keeps_more(fwd, bound, w.fwd);
        assert forall|v: u32| v < fresh.upcoming_var implies #[trigger] same_at(
            fwd.env,
            w.fwd.env,
            v,
        ) by {
            lemma_below_count(p.params, fresh.upcoming_var, v);
            lemma_bound_keeps_env(fwd.env, p.params, places, paired(p.params, places), v);
            lemma_below_count(binds(body.expr), p.fresh.upcoming_var, v);
            assert(same_at(bound.env, w.fwd.env, v));
        }
        if let CExprV::App { args, .. } = w.rest {
            if args.len() > 0 {
                lemma_placed_keeps(w.fwd, args.last());
                lemma_keeps_more(fwd, w.fwd, placed(w.fwd, args.last()).fwd);
            }
        }
    }
}

} // verus!
