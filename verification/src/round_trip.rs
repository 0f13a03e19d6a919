//! Translation gives variables terms that mean what the code computes, and turning
//! them back gives code that computes the same.

use vstd::prelude::*;

use crate::alike::{
    alike, alike_first, all_apart, apart, keeps_names, lemma_alike_call, lemma_alike_itself,
    lemma_alike_loop, lemma_alike_renamed, lemma_names_kept, lemma_parts_used,
    lemma_parts_used_first, lemma_renamed_params_names, lemma_shapes_used, name_in, named_in,
    names_below, sent_val, sent_vals, with_name, with_names, within,
};
use crate::cps::{CExprV, CFunDefV, CTopLevelFnV, CValV, PrimOpV};
use crate::cps_laws::{binds, lemma_renamed_binds_fresh, lemma_renamed_params_count};
use crate::forward::{
    bound_to, free_symbol, inlined, next_place, op_symbol, ordinary_count, paired, placed,
    placed_all, placed_first, turned, walked, walked_call, with_bound, with_call, with_node,
    with_op, ForwardV,
};
use crate::fresh::FreshVars;
use crate::lang::CleaveLangV;
use crate::rebuild::{free_value, op_of};
use crate::rebuild_laws::{term_value, term_values, value_of, values_of, Meaning};
use crate::rename::{renamed, renamed_params};
use crate::running::{
    call_runs_body, calls_run_bodies, in_order, lemma_parts_in_order, lemma_parts_smaller,
    lemma_runs_fit, lemma_runs_to_end, lemma_unit_of, lemma_with_values, looped,
    names_are_no_symbols, plain_value, plain_values, program_in_order, runs_to, symbol_tells,
    symbols_tell, turns_left, with_values,
};
use crate::shapes::{counted_loop, pure_op, real_call, straight_line, transparent, unit_of};
use crate::shapes::{LoopV, RealCallV};
use crate::ty::TyV;
use crate::vars::{referenced_in, referenced_in_first, vars_of};
use crate::walk_keeps::{
    call_lasts, env_kept, honest, honest_at, inlining_lasts, keeps, kept, lasts,
    lemma_bound_keeps_env, lemma_call_keeps, lemma_inlined_keeps, lemma_keeps_more,
    lemma_let_binds, lemma_op_keeps, lemma_placed_first_keeps, lemma_placed_keeps,
    lemma_rebound_keeps, lemma_shapes_bind, lemma_turn_keeps, lemma_turned_keeps,
    lemma_walked_keeps, numbered, outside_at, same_at, turn_entered, turn_taken, turns_last,
};
use crate::walk_laws::{
    all_placed, countable, lemma_bound_well, lemma_call_grows, lemma_inlined_grows,
    lemma_inlined_well, lemma_nodes_stay, lemma_one_placed_grows, lemma_one_placed_well,
    lemma_op_grows, lemma_op_node_well, lemma_placed_grows, lemma_placed_well, lemma_same_symbols,
    lemma_turned_grows, lemma_turned_well, lemma_walked_grows, well_placed,
};

verus! {

/// What a translation is held against: what things mean, the program, the values of
/// variables at the start, and where the translation ends.
#[verifier::reject_recursive_types(V)]
pub struct Setting<V> {
    pub m: Meaning<V>,
    pub funcs: Seq<CTopLevelFnV>,
    pub start: Map<u32, V>,
    pub end: ForwardV,
    /// The functions use no variable from it on.
    pub bound: u32,
}

/// Whether the functions use no variable from the bound on.
pub open spec fn functions_below(funcs: Seq<CTopLevelFnV>, bound: u32) -> bool {
    forall|i: int, v: u32|
        0 <= i < funcs.len() && #[trigger] referenced_in((#[trigger] funcs[i]).def.body).contains(v)
            ==> v < bound
}

/// What the term at a place means.
pub open spec fn term_at<V>(c: Setting<V>, place: usize) -> V {
    term_value(c.m, c.end, Map::empty(), c.start, c.end.nodes, place as nat)
}

/// What a variable means by its place, or by its value at the start where it has none.
pub open spec fn means_at<V>(c: Setting<V>, env: Map<u32, usize>, v: u32) -> V {
    if env.contains_key(v) {
        term_at(c, env[v])
    } else {
        c.start[v]
    }
}

/// Whether variables mean by their places what their values are. `f` gives their names.
pub open spec fn mean_alike<V>(
    c: Setting<V>,
    env: Map<u32, usize>,
    f: spec_fn(u32) -> u32,
    rho: Map<u32, V>,
    used: Set<u32>,
) -> bool {
    forall|y: u32| #[trigger] used.contains(y) ==> means_at(c, env, f(y)) == rho[y]
}

/// Whether what things mean fits the program, and the end can be numbered.
pub open spec fn fits<V>(c: Setting<V>) -> bool {
    &&& symbols_tell(c.m)
    &&& calls_run_bodies(c.m, c.funcs)
    &&& names_are_no_symbols(c.funcs)
    &&& program_in_order(c.funcs)
    &&& functions_below(c.funcs, c.bound)
    &&& honest(c.end)
    &&& c.end.nodes.len() <= u32::MAX
}

/// Whether what was found so far can be gone on from.
pub open spec fn sound(fwd: ForwardV) -> bool {
    &&& well_placed(fwd)
    &&& numbered(fwd)
}

/// Whether the places are those of terms that mean the values.
pub open spec fn places_mean<V>(c: Setting<V>, places: Seq<usize>, values: Seq<V>) -> bool {
    &&& places.len() == values.len()
    &&& forall|k: int| 0 <= k < places.len() ==> term_at(c, #[trigger] places[k]) == values[k]
}

/// The place of a value is that of a term that means it.
proof fn lemma_placed_means<V>(
    c: Setting<V>,
    fwd: ForwardV,
    v: CValV,
    f: spec_fn(u32) -> u32,
    rho: Map<u32, V>,
)
    requires
        fits(c),
        sound(fwd),
        keeps(placed(fwd, sent_val(v, f)).fwd, c.end),
        v matches CValV::Var(y) ==> means_at(c, fwd.env, f(y)) == rho[y],
    ensures
        sound(placed(fwd, sent_val(v, f)).fwd),
        placed(fwd, sent_val(v, f)).fwd.env == fwd.env,
        placed(fwd, sent_val(v, f)).place is Some <==> plain_value(v),
        placed(fwd, sent_val(v, f)).place matches Some(p) ==> term_at(c, p) == value_of(
            c.m,
            rho,
            v,
        ),
{
    let x = sent_val(v, f);
    let after = placed(fwd, x).fwd;
    lemma_placed_keeps(fwd, x);
    lemma_one_placed_well(fwd, x);
    lemma_keeps_more(fwd, after, c.end);
    let p = next_place(fwd);
    if after.nodes.len() > fwd.nodes.len() {
        assert(c.end.nodes[p as int] == after.nodes[p as int]);
    }
    if let CValV::Var(y) = v {
        if fwd.external_vars.contains_key(f(y)) {
            assert(outside_at(fwd, f(y)));
            let place = fwd.external_vars[f(y)];
            assert(c.end.nodes[place as int] == fwd.nodes[place as int]);
            assert(term_at(c, place) == c.start[f(y)]);
        }
        if !fwd.env.contains_key(f(y)) && !fwd.external_vars.contains_key(f(y)) {
            let sym = free_symbol(fwd.next_free);
            assert(after.free_vars.contains_key(sym));
            assert(free_value(c.end, Map::empty(), sym) == Some(CValV::Var(f(y))));
            assert(term_at(c, p) == c.start[f(y)]);
        }
    }
}

/// The places of values are those of terms that mean them.
proof fn lemma_placed_first_means<V>(
    c: Setting<V>,
    fwd: ForwardV,
    vals: Seq<CValV>,
    n: nat,
    f: spec_fn(u32) -> u32,
    rho: Map<u32, V>,
)
    requires
        n <= vals.len(),
        fits(c),
        sound(fwd),
        keeps(placed_first(fwd, sent_vals(vals, f), n).fwd, c.end),
        mean_alike(c, fwd.env, f, rho, vars_of(vals)),
    ensures
        sound(placed_first(fwd, sent_vals(vals, f), n).fwd),
        placed_first(fwd, sent_vals(vals, f), n).fwd.env == fwd.env,
        placed_first(fwd, sent_vals(vals, f), n).places is Some <==> forall|i: int|
            0 <= i < n ==> plain_value(#[trigger] vals[i]),
        placed_first(fwd, sent_vals(vals, f), n).places matches Some(places) ==> places.len() == n
            && forall|k: int|
            0 <= k < n ==> term_at(c, #[trigger] places[k]) == value_of(c.m, rho, vals[k]),
    decreases n,
{
    if n > 0 {
        let sent = sent_vals(vals, f);
        let before = placed_first(fwd, sent, (n - 1) as nat);
        let after = placed_first(fwd, sent, n);
        if before.places is Some {
            lemma_one_placed_grows(before.fwd, sent[n - 1]);
            lemma_placed_first_keeps(fwd, sent, (n - 1) as nat);
            lemma_placed_keeps(before.fwd, sent[n - 1]);
            lemma_keeps_more(before.fwd, after.fwd, c.end);
            lemma_placed_first_means(c, fwd, vals, (n - 1) as nat, f, rho);
            if let CValV::Var(y) = vals[n - 1] {
                assert(vals.contains(CValV::Var(y)));
                assert(vars_of(vals).contains(y));
            }
            lemma_placed_means(c, before.fwd, vals[n - 1], f, rho);
        } else {
            lemma_placed_first_means(c, fwd, vals, (n - 1) as nat, f, rho);
        }
    }
}

/// All the values, as a list of what they mean.
proof fn lemma_placed_all_means<V>(
    c: Setting<V>,
    fwd: ForwardV,
    vals: Seq<CValV>,
    f: spec_fn(u32) -> u32,
    rho: Map<u32, V>,
)
    requires
        fits(c),
        sound(fwd),
        keeps(placed_all(fwd, sent_vals(vals, f)).fwd, c.end),
        mean_alike(c, fwd.env, f, rho, vars_of(vals)),
    ensures
        sound(placed_all(fwd, sent_vals(vals, f)).fwd),
        placed_all(fwd, sent_vals(vals, f)).fwd.env == fwd.env,
        placed_all(fwd, sent_vals(vals, f)).places is Some <==> plain_values(vals),
        placed_all(fwd, sent_vals(vals, f)).places matches Some(places) ==> places_mean(
            c,
            places,
            values_of(c.m, rho, vals),
        ) && all_placed(places, placed_all(fwd, sent_vals(vals, f)).fwd),
{
    lemma_placed_first_means(c, fwd, vals, vals.len(), f, rho);
    lemma_placed_well(fwd, sent_vals(vals, f), vals.len());
}

/// What the children of a node mean is what their terms do.
proof fn lemma_children_mean<V>(c: Setting<V>, parent: nat, places: Seq<usize>, n: nat)
    requires
        n <= places.len(),
        forall|k: int| 0 <= k < places.len() ==> #[trigger] places[k] < parent,
    ensures
        ({
            let t = term_values(
                c.m,
                c.end,
                Map::empty(),
                c.start,
                c.end.nodes,
                parent,
                places,
                n,
            );
            &&& t.len() == n
            &&& forall|k: int| 0 <= k < n ==> t[k] == term_at(c, #[trigger] places[k])
        }),
    decreases n,
{
    if n > 0 {
        lemma_children_mean(c, parent, places, (n - 1) as nat);
    }
}

/// The node of a pure operation means what the operation gives.
proof fn lemma_op_means<V>(
    c: Setting<V>,
    fwd: ForwardV,
    var: u32,
    ty: TyV,
    op: PrimOpV,
    places: Seq<usize>,
    values: Seq<V>,
)
    requires
        fits(c),
        sound(fwd),
        pure_op(op),
        all_placed(places, fwd),
        places_mean(c, places, values),
        keeps(with_op(fwd, var, ty, op, places), c.end),
    ensures
        sound(with_op(fwd, var, ty, op, places)),
        term_at(c, next_place(fwd)) == (c.m.op)(op, ty, values),
{
    let symbol = op_symbol(ty, op, places.len());
    let after = with_op(fwd, var, ty, op, places);
    lemma_op_keeps(fwd, var, ty, op, places);
    lemma_op_grows(fwd, var, ty, op, places);
    lemma_op_node_well(fwd, after, var, symbol, places);
    assert(op_of(after, symbol) is Some);
    assert(op_of(c.end, symbol) is Some);
    assert(honest_at(c.end, symbol));
    let o = op_of(c.end, symbol)->Some_0;
    let count = choose|count: nat| symbol == #[trigger] op_symbol(o.1, o.0, count);
    let p = fwd.nodes.len() as int;
    assert(c.end.nodes[p] == after.nodes[p]);
    lemma_children_mean(c, p as nat, places, places.len());
    let t = term_values(
        c.m,
        c.end,
        Map::empty(),
        c.start,
        c.end.nodes,
        p as nat,
        places,
        places.len(),
    );
    assert(t =~= values) by {
        assert forall|k: int| 0 <= k < t.len() implies t[k] == values[k] by {
            assert(term_at(c, places[k]) == values[k]);
        }
    }
    assert(symbol_tells(c.m, (op, ty, places.len()), (o.0, o.1, count), values));
}

/// The node of a call means what the call gives.
proof fn lemma_call_node_means<V>(
    c: Setting<V>,
    fwd: ForwardV,
    call: RealCallV,
    callee: CTopLevelFnV,
    places: Seq<usize>,
    values: Seq<V>,
)
    requires
        fits(c),
        sound(fwd),
        unit_of(c.funcs, call.unit) == Some(callee),
        all_placed(places, fwd),
        places_mean(c, places, values),
        keeps(with_call(fwd, call, callee, places), c.end),
    ensures
        sound(with_call(fwd, call, callee, places)),
        term_at(c, next_place(fwd)) == (c.m.call)(call.unit, values),
{
    let after = with_call(fwd, call, callee, places);
    lemma_call_keeps(fwd, call, callee, places);
    lemma_call_grows(fwd, call, callee, places);
    lemma_op_node_well(fwd, after, call.result_var, call.unit, places);
    lemma_unit_of(c.funcs, call.unit);
    let i = choose|i: int| 0 <= i < c.funcs.len() && #[trigger] c.funcs[i] == callee;
    assert(honest_at(c.end, call.unit));
    if let Some(o) = op_of(c.end, call.unit) {
        let count = choose|count: nat| call.unit == #[trigger] op_symbol(o.1, o.0, count);
        assert(c.funcs[i].def.name != op_symbol(o.1, o.0, count));
    }
    let p = fwd.nodes.len() as int;
    assert(c.end.nodes[p] == after.nodes[p]);
    lemma_children_mean(c, p as nat, places, places.len());
    let t = term_values(
        c.m,
        c.end,
        Map::empty(),
        c.start,
        c.end.nodes,
        p as nat,
        places,
        places.len(),
    );
    assert(t =~= values) by {
        assert forall|k: int| 0 <= k < t.len() implies t[k] == values[k] by {
            assert(term_at(c, places[k]) == values[k]);
        }
    }
}

/// Variables that are bound to places have them.
proof fn lemma_bound_at(env: Map<u32, usize>, vars: Seq<u32>, places: Seq<usize>, n: nat, k: int)
    requires
        n <= vars.len(),
        n <= places.len(),
        0 <= k < n,
        vars.no_duplicates(),
    ensures
        bound_to(env, vars, places, n).contains_key(vars[k]),
        bound_to(env, vars, places, n)[vars[k]] == places[k],
    decreases n,
{
    if k < n - 1 {
        lemma_bound_at(env, vars, places, (n - 1) as nat, k);
        assert(vars[k] != vars[n - 1]);
    }
}

/// Where the code has got to that a translation has got to.
#[verifier::reject_recursive_types(V)]
pub struct Reached<V> {
    pub e: CExprV,
    pub rho: Map<u32, V>,
    pub f: spec_fn(u32) -> u32,
}

/// Whether a translation of `x`, which is `e` with other names, can be followed.
pub open spec fn ready<V>(
    c: Setting<V>,
    e: CExprV,
    x: CExprV,
    f: spec_fn(u32) -> u32,
    rho: Map<u32, V>,
    fwd: ForwardV,
    fresh: FreshVars,
) -> bool {
    &&& fits(c)
    &&& sound(fwd)
    &&& c.bound <= fresh.upcoming_var
    &&& alike(e, x, f)
    &&& in_order(e, c.funcs)
    &&& names_below(referenced_in(e), f, fresh.upcoming_var as int)
    &&& forall|v: u32| #[trigger] binds(x).contains(v) ==> v < fresh.upcoming_var
    &&& mean_alike(c, fwd.env, f, rho, referenced_in(e))
}

/// Whether running comes to where translation does, and variables mean by their places
/// what their values are there. Where names are kept, it is the same code.
pub open spec fn followed<V>(
    c: Setting<V>,
    e: CExprV,
    x: CExprV,
    f: spec_fn(u32) -> u32,
    rho: Map<u32, V>,
    fwd: ForwardV,
    rest: CExprV,
    r: Reached<V>,
) -> bool {
    &&& runs_to(c.m, c.funcs, e, rho, r.e, r.rho)
    &&& alike(r.e, rest, r.f)
    &&& mean_alike(c, fwd.env, r.f, r.rho, referenced_in(r.e))
    &&& sound(fwd)
    &&& e == x && keeps_names(f) ==> r.e == rest && keeps_names(r.f)
}

/// A translation that stops right away.
proof fn lemma_stopped<V>(
    c: Setting<V>,
    e: CExprV,
    x: CExprV,
    f: spec_fn(u32) -> u32,
    rho: Map<u32, V>,
    fwd: ForwardV,
    fresh: FreshVars,
    after: ForwardV,
) -> (r: Reached<V>)
    requires
        ready(c, e, x, f, rho, fwd, fresh),
        sound(after),
        env_kept(fwd.env, after.env, fresh.upcoming_var as int, Seq::empty()),
    ensures
        followed(c, e, x, f, rho, after, x, r),
{
    assert forall|y: u32| #[trigger] referenced_in(e).contains(y) implies means_at(
        c,
        after.env,
        f(y),
    ) == rho[y] by {
        assert(f(y) < fresh.upcoming_var);
        assert(!Seq::<u32>::empty().contains(f(y)));
        assert(same_at(fwd.env, after.env, f(y)));
        assert(means_at(c, fwd.env, f(y)) == rho[y]);
    }
    Reached { e, rho, f }
}

/// Binding one variable changes no other.
proof fn lemma_inserted(env: Map<u32, usize>, new: u32, place: usize, bound: int)
    ensures
        env_kept(env, env.insert(new, place), bound, seq![new]),
{
    assert forall|v: u32| v < bound && !seq![new].contains(v) implies #[trigger] same_at(
        env,
        env.insert(new, place),
        v,
    ) by {
        assert(seq![new][0] == new);
    }
}

/// Going on after a variable was bound to a place.
proof fn lemma_ready_bound<V>(
    c: Setting<V>,
    e: CExprV,
    f: spec_fn(u32) -> u32,
    rho: Map<u32, V>,
    fwd: ForwardV,
    fresh: FreshVars,
    cont: CExprV,
    cont_x: CExprV,
    var: u32,
    new: u32,
    value: V,
    next: ForwardV,
    later: FreshVars,
    place: usize,
)
    requires
        fits(c),
        sound(next),
        c.bound <= fresh.upcoming_var,
        fresh.upcoming_var <= later.upcoming_var,
        names_below(referenced_in(e), f, fresh.upcoming_var as int),
        mean_alike(c, fwd.env, f, rho, referenced_in(e)),
        within(referenced_in(cont), referenced_in(e)),
        apart(referenced_in(cont), var, f, new),
        alike(cont, cont_x, with_name(f, var, new)),
        in_order(cont, c.funcs),
        new < fresh.upcoming_var,
        forall|v: u32| #[trigger] binds(cont_x).contains(v) ==> v < fresh.upcoming_var,
        next.env.contains_key(new),
        next.env[new] == place,
        term_at(c, place) == value,
        env_kept(fwd.env, next.env, fresh.upcoming_var as int, seq![new]),
    ensures
        ready(c, cont, cont_x, with_name(f, var, new), rho.insert(var, value), next, later),
{
    let g = with_name(f, var, new);
    let now = rho.insert(var, value);
    assert forall|y: u32| #[trigger] referenced_in(cont).contains(y) implies means_at(
        c,
        next.env,
        g(y),
    ) == now[y] && g(y) < later.upcoming_var by {
        if y != var {
            assert(referenced_in(e).contains(y));
            assert(f(y) != new);
            assert(!seq![new].contains(f(y)));
            assert(same_at(fwd.env, next.env, f(y)));
            assert(means_at(c, fwd.env, f(y)) == rho[y]);
        }
    }
}

/// What variables mean inside a continuation whose parameters were bound.
proof fn lemma_inside_means<V>(
    c: Setting<V>,
    d: CFunDefV,
    d_x: CFunDefV,
    f: spec_fn(u32) -> u32,
    rho: Map<u32, V>,
    env: Map<u32, usize>,
    bound: int,
    now: Map<u32, V>,
    then: Map<u32, usize>,
    used: Set<u32>,
)
    requires
        d.params.len() == d_x.params.len(),
        d.params.no_duplicates(),
        all_apart(referenced_in(d.body), d.params, f, d_x.params),
        within(used, referenced_in(d.body)),
        forall|y: u32| #[trigger]
            used.contains(y) && !d.params.contains(y) ==> f(y) < bound && means_at(c, env, f(y))
                == rho[y] && now[y] == rho[y],
        forall|v: u32| v < bound && !d_x.params.contains(v) ==> #[trigger] same_at(env, then, v),
        forall|k: int|
            0 <= k < d.params.len() && used.contains(#[trigger] d.params[k]) ==> means_at(
                c,
                then,
                d_x.params[k],
            ) == now[d.params[k]],
    ensures
        mean_alike(c, then, with_names(f, d.params, d_x.params), now, used),
{
    let g = with_names(f, d.params, d_x.params);
    assert forall|y: u32| #[trigger] used.contains(y) implies means_at(c, then, g(y)) == now[y] by {
        if d.params.contains(y) {
            let k = d.params.index_of(y);
            assert(d.params[k] == y);
        } else {
            assert(referenced_in(d.body).contains(y));
            assert(!d_x.params.contains(f(y)));
            assert(same_at(env, then, f(y)));
        }
    }
}

/// The names of what a continuation uses stay below the bound.
proof fn lemma_inside_below(
    d: CFunDefV,
    d_x: CFunDefV,
    f: spec_fn(u32) -> u32,
    used: Set<u32>,
    bound: int,
)
    requires
        d.params.len() == d_x.params.len(),
        names_below(used, f, bound),
        forall|v: u32| #[trigger] d_x.params.contains(v) ==> v < bound,
    ensures
        names_below(used, with_names(f, d.params, d_x.params), bound),
{
    let g = with_names(f, d.params, d_x.params);
    assert forall|y: u32| #[trigger] used.contains(y) implies g(y) < bound by {
        if d.params.contains(y) {
            let k = d.params.index_of(y);
            assert(d_x.params.contains(d_x.params[k]));
        }
    }
}

/// The loop that a continuation is the header of.
proof fn lemma_loop_header(e: CExprV)
    requires
        e is Fix,
        counted_loop(e->defs, *e->Fix_body) is Some,
    ensures
        ({
            let l = counted_loop(e->defs, *e->Fix_body)->Some_0;
            let d = e->defs[0];
            &&& e->defs.len() == 1
            &&& d.params.len() == l.carried_params.len() + 1
            &&& d.params[0] == l.i_var
            &&& forall|k: int|
                0 <= k < l.carried_params.len() ==> #[trigger] l.carried_params[k] == d.params[k
                    + 1]
            &&& within(referenced_in(l.turn), referenced_in(d.body))
            &&& within(referenced_in(l.after), referenced_in(d.body))
            &&& within(referenced_in(d.body), referenced_in(e))
            &&& forall|v: u32| #[trigger] d.params.contains(v) ==> binds(e).contains(v)
            &&& real_call(e->defs, *e->Fix_body) is None
        }),
{
    let l = counted_loop(e->defs, *e->Fix_body)->Some_0;
    let d = e->defs[0];
    let tests = d.body->defs;
    lemma_parts_used(e);
    lemma_parts_used_first(e->defs, 1);
    lemma_parts_used(d.body);
    lemma_parts_used_first(tests, 1);
    lemma_parts_used(tests[0].body);
    assert forall|y: u32| #[trigger] referenced_in(l.turn).contains(y) implies referenced_in(
        d.body,
    ).contains(y) by {
        assert(referenced_in(tests[0].body).contains(y));
        assert(referenced_in_first(tests, 1).contains(y));
    }
    assert forall|y: u32| #[trigger] referenced_in(l.after).contains(y) implies referenced_in(
        d.body,
    ).contains(y) by {
        assert(referenced_in(tests[0].body).contains(y));
        assert(referenced_in_first(tests, 1).contains(y));
    }
    lemma_shapes_bind(e);
    assert forall|v: u32| #[trigger] d.params.contains(v) implies binds(e).contains(v) by {
        let k = choose|k: int| 0 <= k < d.params.len() && d.params[k] == v;
        if k > 0 {
            assert(l.carried_params[k - 1] == v);
            assert(l.carried_params.contains(v));
        }
    }
}

/// A loop whose turns were translated is gone on from.
proof fn lemma_ready_after<V>(
    c: Setting<V>,
    e: CExprV,
    x: CExprV,
    f: spec_fn(u32) -> u32,
    rho: Map<u32, V>,
    fwd: ForwardV,
    fresh: FreshVars,
    turns: ForwardV,
    later: FreshVars,
    carried: Seq<usize>,
    out: Seq<V>,
)
    requires
        ready(c, e, x, f, rho, fwd, fresh),
        e is Fix,
        x is Fix,
        counted_loop(e->defs, *e->Fix_body) is Some,
        counted_loop(x->defs, *x->Fix_body) is Some,
        sound(turns),
        all_placed(carried, turns),
        places_mean(c, carried, out),
        carried.len() == counted_loop(e->defs, *e->Fix_body)->Some_0.carried_params.len(),
        fresh.upcoming_var <= later.upcoming_var,
        env_kept(
            fwd.env,
            turns.env,
            fresh.upcoming_var as int,
            seq![counted_loop(x->defs, *x->Fix_body)->Some_0.i_var]
                + counted_loop(x->defs, *x->Fix_body)->Some_0.carried_params,
        ),
    ensures
        ({
            let l = counted_loop(e->defs, *e->Fix_body)->Some_0;
            let l_x = counted_loop(x->defs, *x->Fix_body)->Some_0;
            ready(
                c,
                l.after,
                l_x.after,
                with_names(f, e->defs[0].params, x->defs[0].params),
                with_values(rho, l.carried_params, out, l.carried_params.len()),
                with_bound(turns, l_x.carried_params, carried),
                later,
            )
        }),
{
    let l = counted_loop(e->defs, *e->Fix_body)->Some_0;
    let l_x = counted_loop(x->defs, *x->Fix_body)->Some_0;
    let d = e->defs[0];
    let d_x = x->defs[0];
    let bound = with_bound(turns, l_x.carried_params, carried);
    let now = with_values(rho, l.carried_params, out, l.carried_params.len());
    let changed = seq![l_x.i_var] + l_x.carried_params;
    let top = fresh.upcoming_var as int;
    lemma_loop_header(e);
    lemma_loop_header(x);
    assert(alike_first(e->defs, x->defs, 1, f));
    lemma_alike_loop(e->defs, *e->Fix_body, x->defs, *x->Fix_body, f);
    lemma_parts_in_order(e, c.funcs);
    lemma_shapes_bind(x);
    lemma_bound_well(turns, l_x.carried_params, carried);
    lemma_rebound_keeps(turns, bound);
    assert(l.carried_params.no_duplicates());
    assert(l_x.carried_params.no_duplicates());
    let used = referenced_in(l.after);
    assert forall|y: u32| #[trigger] used.contains(y) && !d.params.contains(y) implies f(y) < top
        && means_at(c, fwd.env, f(y)) == rho[y] && now[y] == rho[y] by {
        assert(referenced_in(e).contains(y));
        lemma_with_values(rho, l.carried_params, out, l.carried_params.len(), y);
        assert forall|k: int| 0 <= k < l.carried_params.len() implies l.carried_params[k] != y by {
            assert(d.params[k + 1] == l.carried_params[k]);
            assert(d.params.contains(d.params[k + 1]));
        }
    }
    assert forall|v: u32| v < top && !d_x.params.contains(v) implies #[trigger] same_at(
        fwd.env,
        bound.env,
        v,
    ) by {
        lemma_not_changed(x, v);
        assert(same_at(fwd.env, turns.env, v));
        lemma_bound_keeps_env(
            turns.env,
            l_x.carried_params,
            carried,
            paired(l_x.carried_params, carried),
            v,
        );
    }
    assert forall|k: int|
        0 <= k < d.params.len() && used.contains(#[trigger] d.params[k]) implies means_at(
        c,
        bound.env,
        d_x.params[k],
    ) == now[d.params[k]] by {
        assert(k != 0);
        assert(l.carried_params[k - 1] == d.params[k]);
        assert(l_x.carried_params[k - 1] == d_x.params[k]);
        lemma_bound_at(
            turns.env,
            l_x.carried_params,
            carried,
            l_x.carried_params.len(),
            k - 1,
        );
        lemma_with_values(rho, l.carried_params, out, l.carried_params.len(), d.params[k]);
        assert(term_at(c, carried[k - 1]) == out[k - 1]);
    }
    lemma_inside_means(c, d, d_x, f, rho, fwd.env, top, now, bound.env, used);
    lemma_inside_below(d, d_x, f, used, top);
    let g = with_names(f, d.params, d_x.params);
    assert forall|y: u32| #[trigger] used.contains(y) implies g(y) < later.upcoming_var by {}
}

/// A variable that is no parameter of a loop header is not changed by the turns.
proof fn lemma_not_changed(x: CExprV, v: u32)
    requires
        x is Fix,
        counted_loop(x->defs, *x->Fix_body) is Some,
        !x->defs[0].params.contains(v),
    ensures
        ({
            let l = counted_loop(x->defs, *x->Fix_body)->Some_0;
            !(seq![l.i_var] + l.carried_params).contains(v) && !l.carried_params.contains(v)
                && v != l.i_var
        }),
{
    let l = counted_loop(x->defs, *x->Fix_body)->Some_0;
    let d = x->defs[0];
    let changed = seq![l.i_var] + l.carried_params;
    lemma_loop_header(x);
    assert(d.params.contains(d.params[0]));
    if changed.contains(v) {
        let k = choose|k: int| 0 <= k < changed.len() && changed[k] == v;
        assert(changed[k] == d.params[k]);
        assert(d.params.contains(d.params[k]));
    }
    if l.carried_params.contains(v) {
        let k = choose|k: int| 0 <= k < l.carried_params.len() && l.carried_params[k] == v;
        assert(d.params.contains(d.params[k + 1]));
    }
}

/// A turn that is entered with what is carried into it can be followed.
proof fn lemma_ready_turn<V>(
    c: Setting<V>,
    e: CExprV,
    x: CExprV,
    f: spec_fn(u32) -> u32,
    rho: Map<u32, V>,
    idx: u64,
    fwd: ForwardV,
    fresh: FreshVars,
    carried: Seq<usize>,
    values: Seq<V>,
)
    requires
        fits(c),
        sound(fwd),
        c.bound <= fresh.upcoming_var,
        e is Fix,
        x is Fix,
        alike(e, x, f),
        in_order(e, c.funcs),
        counted_loop(e->defs, *e->Fix_body) is Some,
        counted_loop(x->defs, *x->Fix_body) is Some,
        names_below(referenced_in(e), f, fresh.upcoming_var as int),
        forall|v: u32| #[trigger] binds(x).contains(v) ==> v < fresh.upcoming_var,
        forall|y: u32| #[trigger]
            referenced_in(e->defs[0].body).contains(y) && !e->defs[0].params.contains(y)
                ==> means_at(c, fwd.env, f(y)) == rho[y],
        all_placed(carried, fwd),
        places_mean(c, carried, values),
        carried.len() == counted_loop(e->defs, *e->Fix_body)->Some_0.carried_params.len(),
        fresh.upcoming_var + binds(
            counted_loop(x->defs, *x->Fix_body)->Some_0.turn,
        ).len() <= u32::MAX,
        keeps(turn_entered(counted_loop(x->defs, *x->Fix_body)->Some_0, idx, fwd, carried), c.end),
        numbered(turn_entered(counted_loop(x->defs, *x->Fix_body)->Some_0, idx, fwd, carried)),
    ensures
        ({
            let l = counted_loop(e->defs, *e->Fix_body)->Some_0;
            let l_x = counted_loop(x->defs, *x->Fix_body)->Some_0;
            let body = renamed(l_x.turn, Map::empty(), fresh);
            ready(
                c,
                l.turn,
                body.expr,
                named_in(Map::empty(), with_names(f, e->defs[0].params, x->defs[0].params)),
                with_values(
                    rho.insert(l.i_var, (c.m.literal)(CValV::Int(idx))),
                    l.carried_params,
                    values,
                    l.carried_params.len(),
                ),
                turn_entered(l_x, idx, fwd, carried),
                body.fresh,
            )
        }),
{
    let l = counted_loop(e->defs, *e->Fix_body)->Some_0;
    let l_x = counted_loop(x->defs, *x->Fix_body)->Some_0;
    let d = e->defs[0];
    let d_x = x->defs[0];
    let h = with_names(f, d.params, d_x.params);
    let g = named_in(Map::empty(), h);
    let counted = ForwardV {
        env: fwd.env.insert(l_x.i_var, next_place(fwd)),
        ..with_node(fwd, CleaveLangV::Int(idx))
    };
    let entered = turn_entered(l_x, idx, fwd, carried);
    let body = renamed(l_x.turn, Map::empty(), fresh);
    let first = rho.insert(l.i_var, (c.m.literal)(CValV::Int(idx)));
    let inside = with_values(first, l.carried_params, values, l.carried_params.len());
    let top = fresh.upcoming_var as int;
    let used = referenced_in(l.turn);
    lemma_loop_header(e);
    lemma_loop_header(x);
    assert(alike_first(e->defs, x->defs, 1, f));
    lemma_alike_loop(e->defs, *e->Fix_body, x->defs, *x->Fix_body, f);
    lemma_parts_in_order(e, c.funcs);
    assert(l.carried_params.no_duplicates());
    assert(l_x.carried_params.no_duplicates());
    lemma_entered_well(l_x, idx, fwd, carried);
    let place = next_place(fwd);
    assert(entered.nodes[place as int] == CleaveLangV::Int(idx));
    assert(c.end.nodes[place as int] == CleaveLangV::Int(idx));
    assert(term_at(c, place) == (c.m.literal)(CValV::Int(idx)));
    assert forall|y: u32| #[trigger] used.contains(y) && !d.params.contains(y) implies f(y) < top
        && means_at(c, fwd.env, f(y)) == rho[y] && inside[y] == rho[y] by {
        assert(referenced_in(d.body).contains(y));
        assert(referenced_in(e).contains(y));
        assert(d.params.contains(d.params[0]));
        lemma_with_values(first, l.carried_params, values, l.carried_params.len(), y);
        assert forall|k: int| 0 <= k < l.carried_params.len() implies l.carried_params[k] != y by {
            assert(d.params[k + 1] == l.carried_params[k]);
            assert(d.params.contains(d.params[k + 1]));
        }
    }
    assert forall|v: u32| v < top && !d_x.params.contains(v) implies #[trigger] same_at(
        fwd.env,
        entered.env,
        v,
    ) by {
        lemma_not_changed(x, v);
        lemma_bound_keeps_env(
            counted.env,
            l_x.carried_params,
            carried,
            paired(l_x.carried_params, carried),
            v,
        );
        assert(same_at(counted.env, entered.env, v));
    }
    assert forall|k: int|
        0 <= k < d.params.len() && used.contains(#[trigger] d.params[k]) implies means_at(
        c,
        entered.env,
        d_x.params[k],
    ) == inside[d.params[k]] by {
        lemma_with_values(first, l.carried_params, values, l.carried_params.len(), d.params[k]);
        if k == 0 {
            assert forall|j: int| 0 <= j < l.carried_params.len() implies l.carried_params[j]
                != d.params[0] by {
                assert(d.params[j + 1] == l.carried_params[j]);
            }
            assert(!l_x.carried_params.contains(l_x.i_var)) by {
                if l_x.carried_params.contains(l_x.i_var) {
                    let j = choose|j: int|
                        0 <= j < l_x.carried_params.len() && l_x.carried_params[j] == l_x.i_var;
                    assert(d_x.params[j + 1] == d_x.params[0]);
                }
            }
            lemma_bound_keeps_env(
                counted.env,
                l_x.carried_params,
                carried,
                paired(l_x.carried_params, carried),
                l_x.i_var,
            );
            assert(same_at(counted.env, entered.env, l_x.i_var));
        } else {
            assert(l.carried_params[k - 1] == d.params[k]);
            assert(l_x.carried_params[k - 1] == d_x.params[k]);
            lemma_bound_at(
                counted.env,
                l_x.carried_params,
                carried,
                l_x.carried_params.len(),
                k - 1,
            );
            assert(term_at(c, carried[k - 1]) == values[k - 1]);
        }
    }
    lemma_inside_means(c, d, d_x, f, rho, fwd.env, top, inside, entered.env, used);
    assert forall|y: u32| #[trigger] used.contains(y) implies f(y) < top by {
        assert(referenced_in(d.body).contains(y));
        assert(referenced_in(e).contains(y));
    }
    lemma_inside_below(d, d_x, f, used, top);
    assert(names_below(used, g, top));
    lemma_alike_renamed(l.turn, l_x.turn, h, Map::empty(), fresh);
    lemma_renamed_binds_fresh(l_x.turn, Map::empty(), fresh);
    assert forall|v: u32| #[trigger] binds(body.expr).contains(v) implies v
        < body.fresh.upcoming_var by {
        let k = choose|k: int| 0 <= k < binds(body.expr).len() && binds(body.expr)[k] == v;
        assert(binds(body.expr)[k] == fresh.upcoming_var + k);
    }
    assert(mean_alike(c, entered.env, g, inside, used));
}

/// What was found when a turn is entered is in place.
proof fn lemma_entered_well(l: LoopV, idx: u64, fwd: ForwardV, carried: Seq<usize>)
    requires
        well_placed(fwd),
        all_placed(carried, fwd),
        countable(turn_entered(l, idx, fwd, carried)),
    ensures
        well_placed(turn_entered(l, idx, fwd, carried)),
{
    let counted = ForwardV {
        env: fwd.env.insert(l.i_var, next_place(fwd)),
        ..with_node(fwd, CleaveLangV::Int(idx))
    };
    lemma_same_symbols(fwd, counted);
    lemma_nodes_stay(fwd, counted);
    assert(well_placed(counted));
    lemma_bound_well(counted, l.carried_params, carried);
}

/// What variables mean that a loop does not bind stays.
proof fn lemma_outer_kept<V>(
    c: Setting<V>,
    e: CExprV,
    x: CExprV,
    f: spec_fn(u32) -> u32,
    env: Map<u32, usize>,
    then: Map<u32, usize>,
    fresh: FreshVars,
    y: u32,
)
    requires
        e is Fix,
        x is Fix,
        alike(e, x, f),
        counted_loop(e->defs, *e->Fix_body) is Some,
        counted_loop(x->defs, *x->Fix_body) is Some,
        referenced_in(e->defs[0].body).contains(y),
        !e->defs[0].params.contains(y),
        f(y) < fresh.upcoming_var,
        env_kept(
            env,
            then,
            fresh.upcoming_var as int,
            seq![counted_loop(x->defs, *x->Fix_body)->Some_0.i_var]
                + counted_loop(x->defs, *x->Fix_body)->Some_0.carried_params,
        ),
    ensures
        means_at(c, then, f(y)) == means_at(c, env, f(y)),
{
    lemma_loop_header(e);
    lemma_loop_header(x);
    assert(alike_first(e->defs, x->defs, 1, f));
    assert(!x->defs[0].params.contains(f(y)));
    lemma_not_changed(x, f(y));
    assert(same_at(env, then, f(y)));
}

/// Translation follows running: it comes to code that running comes to, and gives
/// variables terms that mean their values there.
#[verifier::rlimit(60)]
pub proof fn lemma_walk_followed<V>(
    c: Setting<V>,
    e: CExprV,
    x: CExprV,
    f: spec_fn(u32) -> u32,
    rho: Map<u32, V>,
    fwd: ForwardV,
    fresh: FreshVars,
    depth: nat,
) -> (r: Reached<V>)
    requires
        ready(c, e, x, f, rho, fwd, fresh),
        lasts(x, c.funcs, fwd, fresh, depth),
        keeps(walked(x, c.funcs, fwd, fresh, depth).fwd, c.end),
    ensures
        followed(
            c,
            e,
            x,
            f,
            rho,
            walked(x, c.funcs, fwd, fresh, depth).fwd,
            walked(x, c.funcs, fwd, fresh, depth).rest,
            r,
        ),
    decreases depth, x, 3nat, 0nat,
{
    let w = walked(x, c.funcs, fwd, fresh, depth);
    lemma_parts_used(e);
    match (e, x) {
        (CExprV::LetPrim { .. }, CExprV::LetPrim { .. }) => {
            lemma_let_followed(c, e, x, f, rho, fwd, fresh, depth)
        },
        (CExprV::Fix { defs, body }, CExprV::Fix { defs: defs_x, body: body_x }) => {
            lemma_alike_loop(defs, *body, defs_x, *body_x, f);
            match counted_loop(defs_x, *body_x) {
                None => lemma_call_followed(c, e, x, f, rho, fwd, fresh, depth),
                Some(l_x) => {
                    let l = counted_loop(defs, *body)->Some_0;
                    let init = placed_all(fwd, l_x.carried_init);
                    lemma_loop_header(x);
                    lemma_shapes_used(e);
                    match init.places {
                        None => {
                            lemma_no_call(x, c.funcs, fwd, fresh, depth);
                            lemma_stopped(c, e, x, f, rho, fwd, fresh, fwd)
                        },
                        Some(places) => lemma_loop_followed(
                            c,
                            e,
                            x,
                            f,
                            rho,
                            fwd,
                            fresh,
                            depth,
                        ),
                    }
                },
            }
        },
        _ => lemma_stopped(c, e, x, f, rho, fwd, fresh, fwd),
    }
}

/// Where no call is made, none is translated.
proof fn lemma_no_call(
    x: CExprV,
    funcs: Seq<CTopLevelFnV>,
    fwd: ForwardV,
    fresh: FreshVars,
    depth: nat,
)
    requires
        x is Fix,
        real_call(x->defs, *x->Fix_body) is None,
    ensures
        walked_call(x, funcs, fwd, fresh, depth).fwd == fwd,
        walked_call(x, funcs, fwd, fresh, depth).rest == x,
{
    if let CExprV::Fix { defs, body } = x {
        assert(real_call(defs, *body) is None);
    }
}

/// A pure operation and what follows it.
#[verifier::rlimit(60)]
proof fn lemma_let_followed<V>(
    c: Setting<V>,
    e: CExprV,
    x: CExprV,
    f: spec_fn(u32) -> u32,
    rho: Map<u32, V>,
    fwd: ForwardV,
    fresh: FreshVars,
    depth: nat,
) -> (r: Reached<V>)
    requires
        ready(c, e, x, f, rho, fwd, fresh),
        e is LetPrim,
        x is LetPrim,
        lasts(x, c.funcs, fwd, fresh, depth),
        keeps(walked(x, c.funcs, fwd, fresh, depth).fwd, c.end),
    ensures
        followed(
            c,
            e,
            x,
            f,
            rho,
            walked(x, c.funcs, fwd, fresh, depth).fwd,
            walked(x, c.funcs, fwd, fresh, depth).rest,
            r,
        ),
    decreases depth, x, 2nat, 1nat,
{
    let w = walked(x, c.funcs, fwd, fresh, depth);
    lemma_parts_used(e);
    match (e, x) {
        (
            CExprV::LetPrim { var, ty, op, args, cont },
            CExprV::LetPrim { var: new, args: args_x, cont: cont_x, .. },
        ) => if pure_op(op) {
            let p = placed_all(fwd, args_x);
            match p.places {
                None => {
                    lemma_placed_all_means(c, fwd, args, f, rho);
                    lemma_stopped(c, e, x, f, rho, fwd, fresh, p.fwd)
                },
                Some(places) => {
                    let next = with_op(p.fwd, new, ty, op, places);
                    let value = (c.m.op)(op, ty, values_of(c.m, rho, args));
                    let g = with_name(f, var, new);
                    lemma_walked_grows(*cont_x, c.funcs, next, fresh, depth);
                    lemma_placed_first_keeps(fwd, args_x, args_x.len());
                    lemma_op_keeps(p.fwd, new, ty, op, places);
                    lemma_walked_keeps(*cont_x, c.funcs, next, fresh, depth);
                    lemma_keeps_more(next, w.fwd, c.end);
                    lemma_keeps_more(p.fwd, next, c.end);
                    lemma_placed_all_means(c, fwd, args, f, rho);
                    lemma_op_means(c, p.fwd, new, ty, op, places, values_of(c.m, rho, args));
                    lemma_let_binds(x);
                    lemma_inserted(fwd.env, new, next_place(p.fwd), fresh.upcoming_var as int);
                    lemma_ready_bound(
                        c,
                        e,
                        f,
                        rho,
                        fwd,
                        fresh,
                        *cont,
                        *cont_x,
                        var,
                        new,
                        value,
                        next,
                        fresh,
                        next_place(p.fwd),
                    );
                    lemma_walk_followed(
                        c,
                        *cont,
                        *cont_x,
                        g,
                        rho.insert(var, value),
                        next,
                        fresh,
                        depth,
                    )
                },
            }
        } else {
            lemma_stopped(c, e, x, f, rho, fwd, fresh, fwd)
        },
        _ => lemma_stopped(c, e, x, f, rho, fwd, fresh, fwd),
    }
}

/// A counted loop and what follows it.
#[verifier::rlimit(60)]
proof fn lemma_loop_followed<V>(
    c: Setting<V>,
    e: CExprV,
    x: CExprV,
    f: spec_fn(u32) -> u32,
    rho: Map<u32, V>,
    fwd: ForwardV,
    fresh: FreshVars,
    depth: nat,
) -> (r: Reached<V>)
    requires
        ready(c, e, x, f, rho, fwd, fresh),
        e is Fix,
        x is Fix,
        counted_loop(e->defs, *e->Fix_body) is Some,
        counted_loop(x->defs, *x->Fix_body) is Some,
        placed_all(
            fwd,
            counted_loop(x->defs, *x->Fix_body)->Some_0.carried_init,
        ).places is Some,
        lasts(x, c.funcs, fwd, fresh, depth),
        keeps(walked(x, c.funcs, fwd, fresh, depth).fwd, c.end),
    ensures
        followed(
            c,
            e,
            x,
            f,
            rho,
            walked(x, c.funcs, fwd, fresh, depth).fwd,
            walked(x, c.funcs, fwd, fresh, depth).rest,
            r,
        ),
    decreases depth, x, 2nat, 1nat,
{
    let w = walked(x, c.funcs, fwd, fresh, depth);
    let l = counted_loop(e->defs, *e->Fix_body)->Some_0;
    let l_x = counted_loop(x->defs, *x->Fix_body)->Some_0;
    let init = placed_all(fwd, l_x.carried_init);
    let places = init.places->Some_0;
    let values = values_of(c.m, rho, l.carried_init);
    let t = turned(x, l_x, l_x.start, c.funcs, init.fwd, fresh, places, depth);
    lemma_alike_loop(e->defs, *e->Fix_body, x->defs, *x->Fix_body, f);
    lemma_loop_header(e);
    lemma_loop_header(x);
    lemma_shapes_used(e);
    match t.carried {
        None => {
            lemma_no_call(x, c.funcs, fwd, fresh, depth);
            lemma_stopped(c, e, x, f, rho, fwd, fresh, fwd)
        },
        Some(carried) => {
            let bound = with_bound(t.fwd, l_x.carried_params, carried);
            let g = with_names(f, e->defs[0].params, x->defs[0].params);
            lemma_parts_smaller(x);
            lemma_walked_grows(l_x.after, c.funcs, bound, t.fresh, depth);
            lemma_turned_grows(
                x,
                l_x,
                l_x.start,
                c.funcs,
                init.fwd,
                fresh,
                places,
                depth,
            );
            lemma_placed_first_keeps(fwd, l_x.carried_init, l_x.carried_init.len());
            lemma_turned_keeps(x, l_x, l_x.start, c.funcs, init.fwd, fresh, places, depth);
            lemma_rebound_keeps(t.fwd, bound);
            lemma_walked_keeps(l_x.after, c.funcs, bound, t.fresh, depth);
            lemma_keeps_more(bound, w.fwd, c.end);
            lemma_keeps_more(t.fwd, bound, c.end);
            lemma_keeps_more(init.fwd, t.fwd, c.end);
            lemma_placed_all_means(c, fwd, l.carried_init, f, rho);
            let out = lemma_turns_mean(
                c,
                e,
                x,
                f,
                rho,
                l.start,
                init.fwd,
                fresh,
                places,
                values,
                depth,
            );
            lemma_turned_well(x, l_x, l_x.start, c.funcs, init.fwd, fresh, places, depth);
            lemma_ready_after(c, e, x, f, rho, fwd, fresh, t.fwd, t.fresh, carried, out);
            if e == x && keeps_names(f) {
                lemma_names_kept(f, e->defs[0].params);
            }
            lemma_walk_followed(
                c,
                l.after,
                l_x.after,
                g,
                with_values(rho, l.carried_params, out, l.carried_params.len()),
                bound,
                t.fresh,
                depth,
            )
        },
    }
}

/// The turns of a loop carry what running them carries.
#[verifier::rlimit(60)]
proof fn lemma_turns_mean<V>(
    c: Setting<V>,
    e: CExprV,
    x: CExprV,
    f: spec_fn(u32) -> u32,
    rho: Map<u32, V>,
    idx: u64,
    fwd: ForwardV,
    fresh: FreshVars,
    carried: Seq<usize>,
    values: Seq<V>,
    depth: nat,
) -> (out: Seq<V>)
    requires
        fits(c),
        sound(fwd),
        c.bound <= fresh.upcoming_var,
        e is Fix,
        x is Fix,
        alike(e, x, f),
        in_order(e, c.funcs),
        counted_loop(e->defs, *e->Fix_body) is Some,
        counted_loop(x->defs, *x->Fix_body) is Some,
        names_below(referenced_in(e), f, fresh.upcoming_var as int),
        forall|v: u32| #[trigger] binds(x).contains(v) ==> v < fresh.upcoming_var,
        forall|y: u32| #[trigger]
            referenced_in(e->defs[0].body).contains(y) && !e->defs[0].params.contains(y) ==> means_at(
                c,
                fwd.env,
                f(y),
            ) == rho[y],
        all_placed(carried, fwd),
        places_mean(c, carried, values),
        carried.len() == counted_loop(e->defs, *e->Fix_body)->Some_0.carried_params.len(),
        turns_last(
            x,
            counted_loop(x->defs, *x->Fix_body)->Some_0,
            idx,
            c.funcs,
            fwd,
            fresh,
            carried,
            depth,
        ),
        turned(
            x,
            counted_loop(x->defs, *x->Fix_body)->Some_0,
            idx,
            c.funcs,
            fwd,
            fresh,
            carried,
            depth,
        ).carried is Some,
        keeps(
            turned(
                x,
                counted_loop(x->defs, *x->Fix_body)->Some_0,
                idx,
                c.funcs,
                fwd,
                fresh,
                carried,
                depth,
            ).fwd,
            c.end,
        ),
    ensures
        looped(c.m, c.funcs, e, idx, rho, values) == Some(out),
        ({
            let t = turned(
                x,
                counted_loop(x->defs, *x->Fix_body)->Some_0,
                idx,
                c.funcs,
                fwd,
                fresh,
                carried,
                depth,
            );
            &&& places_mean(c, t.carried->Some_0, out)
            &&& sound(t.fwd)
            &&& out.len() == counted_loop(e->defs, *e->Fix_body)->Some_0.carried_params.len()
        }),
    decreases depth, x, 1nat, turns_left(x, idx),
{
    let l = counted_loop(e->defs, *e->Fix_body)->Some_0;
    let l_x = counted_loop(x->defs, *x->Fix_body)->Some_0;
    lemma_alike_loop(e->defs, *e->Fix_body, x->defs, *x->Fix_body, f);
    if idx >= l.end {
        values
    } else {
        let end = turned(x, l_x, idx, c.funcs, fwd, fresh, carried, depth);
        let entered = turn_entered(l_x, idx, fwd, carried);
        let body = renamed(l_x.turn, Map::empty(), fresh);
        let w = turn_taken(l_x, idx, c.funcs, fwd, fresh, carried, depth);
        let sent = w.rest->App_args.subrange(1, w.rest->App_args.len() as int);
        let next = placed_all(w.fwd, sent);
        let places = next.places->Some_0;
        let g = named_in(Map::empty(), with_names(f, e->defs[0].params, x->defs[0].params));
        let inside = with_values(
            rho.insert(l.i_var, (c.m.literal)(CValV::Int(idx))),
            l.carried_params,
            values,
            l.carried_params.len(),
        );
        lemma_turned_grows(
            x,
            l_x,
            (idx + 1) as u64,
            c.funcs,
            next.fwd,
            w.fresh,
            places,
            depth,
        );
        lemma_placed_grows(w.fwd, sent, sent.len());
        lemma_walked_grows(
            body.expr,
            c.funcs,
            entered,
            body.fresh,
            (depth - 1) as nat,
        );
        lemma_turn_keeps(x, l_x, idx, c.funcs, fwd, fresh, carried, depth);
        lemma_placed_first_keeps(w.fwd, sent, sent.len());
        lemma_turned_keeps(
            x,
            l_x,
            (idx + 1) as u64,
            c.funcs,
            next.fwd,
            w.fresh,
            places,
            depth,
        );
        lemma_keeps_more(next.fwd, end.fwd, c.end);
        lemma_keeps_more(w.fwd, next.fwd, c.end);
        lemma_keeps_more(entered, w.fwd, c.end);
        lemma_ready_turn(c, e, x, f, rho, idx, fwd, fresh, carried, values);
        let r = lemma_walk_followed(
            c,
            l.turn,
            body.expr,
            g,
            inside,
            entered,
            body.fresh,
            (depth - 1) as nat,
        );
        lemma_runs_to_end(c.m, c.funcs, l.turn, inside, r.e, r.rho);
        lemma_runs_fit(
            c.m,
            c.funcs,
            l.turn,
            inside,
            r.e,
            r.rho,
            l.name,
            l.carried_params.len() + 1,
        );
        let args = r.e->App_args;
        let handed = args.subrange(1, args.len() as int);
        assert(r.e->func == CValV::Label(l.name));
        assert(sent =~= sent_vals(handed, r.f));
        lemma_parts_used(r.e);
        assert forall|y: u32| #[trigger] vars_of(handed).contains(y) implies vars_of(
            args,
        ).contains(y) by {
            let k = choose|k: int| 0 <= k < handed.len() && handed[k] == CValV::Var(y);
            assert(args[k + 1] == CValV::Var(y));
        }
        lemma_placed_all_means(c, w.fwd, handed, r.f, r.rho);
        let more = values_of(c.m, r.rho, handed);
        assert forall|y: u32| #[trigger]
            referenced_in(e->defs[0].body).contains(y) && !e->defs[0].params.contains(y) implies means_at(
            c,
            next.fwd.env,
            f(y),
        ) == rho[y] by {
            lemma_loop_header(e);
            assert(referenced_in(e).contains(y));
            lemma_outer_kept(c, e, x, f, fwd.env, next.fwd.env, fresh, y);
        }
        lemma_turns_mean(
            c,
            e,
            x,
            f,
            rho,
            (idx + 1) as u64,
            next.fwd,
            w.fresh,
            places,
            more,
            depth,
        )
    }
}

/// A call and what follows it.
proof fn lemma_call_followed<V>(
    c: Setting<V>,
    e: CExprV,
    x: CExprV,
    f: spec_fn(u32) -> u32,
    rho: Map<u32, V>,
    fwd: ForwardV,
    fresh: FreshVars,
    depth: nat,
) -> (r: Reached<V>)
    requires
        ready(c, e, x, f, rho, fwd, fresh),
        e is Fix,
        x is Fix,
        counted_loop(e->defs, *e->Fix_body) is None,
        call_lasts(x, c.funcs, fwd, fresh, depth),
        keeps(walked_call(x, c.funcs, fwd, fresh, depth).fwd, c.end),
    ensures
        followed(
            c,
            e,
            x,
            f,
            rho,
            walked_call(x, c.funcs, fwd, fresh, depth).fwd,
            walked_call(x, c.funcs, fwd, fresh, depth).rest,
            r,
        ),
    decreases depth, x, 2nat, 0nat,
{
    let w = walked_call(x, c.funcs, fwd, fresh, depth);
    lemma_alike_call(e->defs, *e->Fix_body, x->defs, *x->Fix_body, f);
    lemma_shapes_used(e);
    lemma_shapes_bind(x);
    lemma_parts_smaller(x);
    lemma_parts_in_order(e, c.funcs);
    match real_call(x->defs, *x->Fix_body) {
        None => lemma_stopped(c, e, x, f, rho, fwd, fresh, fwd),
        Some(call_x) => {
            let call = real_call(e->defs, *e->Fix_body)->Some_0;
            match unit_of(c.funcs, call_x.unit) {
                None => lemma_stopped(c, e, x, f, rho, fwd, fresh, fwd),
                Some(callee) => {
                    if straight_line(callee.def.body) {
                        lemma_straight_call_followed(c, e, x, f, rho, fwd, fresh, depth)
                    } else if transparent(callee.def.body, c.funcs, Set::empty()) {
                        lemma_inlined_call_followed(c, e, x, f, rho, fwd, fresh, depth)
                    } else {
                        lemma_stopped(c, e, x, f, rho, fwd, fresh, fwd)
                    }
                },
            }
        },
    }
}

/// A call of a straight-line function and what follows it.
#[verifier::rlimit(60)]
proof fn lemma_straight_call_followed<V>(
    c: Setting<V>,
    e: CExprV,
    x: CExprV,
    f: spec_fn(u32) -> u32,
    rho: Map<u32, V>,
    fwd: ForwardV,
    fresh: FreshVars,
    depth: nat,
) -> (r: Reached<V>)
    requires
        ready(c, e, x, f, rho, fwd, fresh),
        e is Fix,
        x is Fix,
        counted_loop(e->defs, *e->Fix_body) is None,
        real_call(e->defs, *e->Fix_body) is Some,
        real_call(x->defs, *x->Fix_body) matches Some(call_x) && unit_of(c.funcs, call_x.unit)
            matches Some(callee) && straight_line(callee.def.body),
        call_lasts(x, c.funcs, fwd, fresh, depth),
        keeps(walked_call(x, c.funcs, fwd, fresh, depth).fwd, c.end),
    ensures
        followed(
            c,
            e,
            x,
            f,
            rho,
            walked_call(x, c.funcs, fwd, fresh, depth).fwd,
            walked_call(x, c.funcs, fwd, fresh, depth).rest,
            r,
        ),
    decreases depth, x, 1nat, 1nat,
{
    let w = walked_call(x, c.funcs, fwd, fresh, depth);
    let call = real_call(e->defs, *e->Fix_body)->Some_0;
    let call_x = real_call(x->defs, *x->Fix_body)->Some_0;
    let callee = unit_of(c.funcs, call_x.unit)->Some_0;
    let p = placed_all(fwd, call_x.args);
    let values = values_of(c.m, rho, call.args);
    let value = (c.m.call)(call.unit, values);
    let g = with_name(f, call.result_var, call_x.result_var);
    lemma_alike_call(e->defs, *e->Fix_body, x->defs, *x->Fix_body, f);
    lemma_shapes_used(e);
    lemma_shapes_bind(x);
    lemma_parts_smaller(x);
    lemma_parts_in_order(e, c.funcs);
    match p.places {
        None => {
            lemma_placed_all_means(c, fwd, call.args, f, rho);
            lemma_stopped(c, e, x, f, rho, fwd, fresh, p.fwd)
        },
        Some(places) => {
            let next = with_call(p.fwd, call_x, callee, places);
            lemma_walked_grows(
                call_x.rest,
                c.funcs,
                next,
                fresh,
                depth,
            );
            lemma_placed_first_keeps(fwd, call_x.args, call_x.args.len());
            lemma_call_keeps(p.fwd, call_x, callee, places);
            lemma_walked_keeps(call_x.rest, c.funcs, next, fresh, depth);
            lemma_keeps_more(next, w.fwd, c.end);
            lemma_keeps_more(p.fwd, next, c.end);
            lemma_placed_all_means(c, fwd, call.args, f, rho);
            lemma_call_node_means(c, p.fwd, call_x, callee, places, values);
            lemma_inserted(
                fwd.env,
                call_x.result_var,
                next_place(p.fwd),
                fresh.upcoming_var as int,
            );
            lemma_ready_bound(
                c,
                e,
                f,
                rho,
                fwd,
                fresh,
                call.rest,
                call_x.rest,
                call.result_var,
                call_x.result_var,
                value,
                next,
                fresh,
                next_place(p.fwd),
            );
            lemma_walk_followed(
                c,
                call.rest,
                call_x.rest,
                g,
                rho.insert(call.result_var, value),
                next,
                fresh,
                depth,
            )
        },
    }
}

/// A call of a function whose body is translated in place, and what follows it.
#[verifier::rlimit(60)]
proof fn lemma_inlined_call_followed<V>(
    c: Setting<V>,
    e: CExprV,
    x: CExprV,
    f: spec_fn(u32) -> u32,
    rho: Map<u32, V>,
    fwd: ForwardV,
    fresh: FreshVars,
    depth: nat,
) -> (r: Reached<V>)
    requires
        ready(c, e, x, f, rho, fwd, fresh),
        e is Fix,
        x is Fix,
        counted_loop(e->defs, *e->Fix_body) is None,
        real_call(e->defs, *e->Fix_body) is Some,
        real_call(x->defs, *x->Fix_body) matches Some(call_x) && unit_of(c.funcs, call_x.unit)
            matches Some(callee) && !straight_line(callee.def.body) && transparent(
            callee.def.body,
            c.funcs,
            Set::empty(),
        ),
        call_lasts(x, c.funcs, fwd, fresh, depth),
        keeps(walked_call(x, c.funcs, fwd, fresh, depth).fwd, c.end),
    ensures
        followed(
            c,
            e,
            x,
            f,
            rho,
            walked_call(x, c.funcs, fwd, fresh, depth).fwd,
            walked_call(x, c.funcs, fwd, fresh, depth).rest,
            r,
        ),
    decreases depth, x, 1nat, 1nat,
{
    let w = walked_call(x, c.funcs, fwd, fresh, depth);
    let call = real_call(e->defs, *e->Fix_body)->Some_0;
    let call_x = real_call(x->defs, *x->Fix_body)->Some_0;
    let callee = unit_of(c.funcs, call_x.unit)->Some_0;
    let p = placed_all(fwd, call_x.args);
    let values = values_of(c.m, rho, call.args);
    let value = (c.m.call)(call.unit, values);
    let g = with_name(f, call.result_var, call_x.result_var);
    lemma_alike_call(e->defs, *e->Fix_body, x->defs, *x->Fix_body, f);
    lemma_shapes_used(e);
    lemma_shapes_bind(x);
    lemma_parts_smaller(x);
    lemma_parts_in_order(e, c.funcs);
    match p.places {
        None => {
            lemma_placed_all_means(c, fwd, call.args, f, rho);
            lemma_stopped(c, e, x, f, rho, fwd, fresh, p.fwd)
        },
        Some(places) => {
            let i = inlined(
                x,
                callee,
                places,
                c.funcs,
                p.fwd,
                fresh,
                depth,
            );
            let next = match i.result {
                None => i.fwd,
                Some(place) => ForwardV {
                    env: i.fwd.env.insert(call_x.result_var, place),
                    ..i.fwd
                },
            };
            if i.result is Some {
                lemma_walked_grows(
                    call_x.rest,
                    c.funcs,
                    next,
                    i.fresh,
                    depth,
                );
            }
            lemma_inlined_grows(
                x,
                callee,
                places,
                c.funcs,
                p.fwd,
                fresh,
                depth,
            );
            lemma_placed_first_keeps(fwd, call_x.args, call_x.args.len());
            lemma_inlined_keeps(
                x,
                callee,
                places,
                c.funcs,
                p.fwd,
                fresh,
                depth,
            );
            if i.result is Some {
                lemma_rebound_keeps(i.fwd, next);
                lemma_walked_keeps(
                    call_x.rest,
                    c.funcs,
                    next,
                    i.fresh,
                    depth,
                );
                lemma_keeps_more(next, w.fwd, c.end);
                lemma_keeps_more(i.fwd, next, c.end);
            }
            lemma_keeps_more(p.fwd, i.fwd, c.end);
            lemma_placed_all_means(c, fwd, call.args, f, rho);
            lemma_unit_of(c.funcs, call.unit);
            lemma_inlined_well(
                x,
                callee,
                places,
                c.funcs,
                p.fwd,
                fresh,
                depth,
            );
            lemma_inlined_means(
                c,
                x,
                callee,
                places,
                values,
                p.fwd,
                fresh,
                depth,
            );
            match i.result {
                None => lemma_stopped(c, e, x, f, rho, fwd, fresh, i.fwd),
                Some(place) => {
                    assert forall|v: u32|
                        v < fresh.upcoming_var && !seq![
                            call_x.result_var,
                        ].contains(v) implies #[trigger] same_at(
                        fwd.env,
                        next.env,
                        v,
                    ) by {
                        assert(seq![call_x.result_var][0]
                            == call_x.result_var);
                        assert(!Seq::<u32>::empty().contains(v));
                        assert(same_at(p.fwd.env, i.fwd.env, v));
                    }
                    lemma_ready_bound(
                        c,
                        e,
                        f,
                        rho,
                        fwd,
                        fresh,
                        call.rest,
                        call_x.rest,
                        call.result_var,
                        call_x.result_var,
                        value,
                        next,
                        i.fresh,
                        place,
                    );
                    lemma_walk_followed(
                        c,
                        call.rest,
                        call_x.rest,
                        g,
                        rho.insert(call.result_var, value),
                        next,
                        i.fresh,
                        depth,
                    )
                },
            }
        },
    }
}

/// The body of a called function, translated in place, means what the call gives.
#[verifier::rlimit(60)]
proof fn lemma_inlined_means<V>(
    c: Setting<V>,
    x: CExprV,
    callee: CTopLevelFnV,
    places: Seq<usize>,
    values: Seq<V>,
    fwd: ForwardV,
    fresh: FreshVars,
    depth: nat,
)
    requires
        fits(c),
        sound(fwd),
        c.bound <= fresh.upcoming_var,
        unit_of(c.funcs, callee.def.name) == Some(callee),
        transparent(callee.def.body, c.funcs, Set::empty()),
        all_placed(places, fwd),
        places_mean(c, places, values),
        places.len() == ordinary_count(callee.def.params),
        inlining_lasts(x, callee, places, c.funcs, fwd, fresh, depth),
        keeps(inlined(x, callee, places, c.funcs, fwd, fresh, depth).fwd, c.end),
    ensures
        inlined(x, callee, places, c.funcs, fwd, fresh, depth).result matches Some(p) ==> sound(
            inlined(x, callee, places, c.funcs, fwd, fresh, depth).fwd,
        ) && term_at(c, p) == (c.m.call)(callee.def.name, values),
    decreases depth, x, 1nat, 0nat,
{
    let i = inlined(x, callee, places, c.funcs, fwd, fresh, depth);
    if i.result is Some {
        let count = ordinary_count(callee.def.params);
        let params = callee.def.params;
        let code = callee.def.body;
        let p = renamed_params(params, count, Map::empty(), fresh);
        let body = renamed(code, p.map, p.fresh);
        let bound = with_bound(fwd, p.params, places);
        let w = walked(body.expr, c.funcs, bound, body.fresh, (depth - 1) as nat);
        let same = |y: u32| y;
        let g = named_in(p.map, same);
        let rho = Map::new(|y: u32| true, |y: u32| means_at(c, bound.env, g(y)));
        let args_x = w.rest->App_args;
        lemma_unit_of(c.funcs, callee.def.name);
        let k = choose|k: int| 0 <= k < c.funcs.len() && #[trigger] c.funcs[k] == callee;
        assert(c.funcs[k].def.params.no_duplicates());
        lemma_renamed_params_count(params, count, Map::empty(), fresh);
        lemma_renamed_params_names(params, count, Map::empty(), fresh);
        lemma_renamed_binds_fresh(code, p.map, p.fresh);
        lemma_one_placed_grows(w.fwd, args_x.last());
        lemma_walked_grows(
            body.expr,
            c.funcs,
            bound,
            body.fresh,
            (depth - 1) as nat,
        );
        lemma_rebound_keeps(fwd, bound);
        lemma_walked_keeps(body.expr, c.funcs, bound, body.fresh, (depth - 1) as nat);
        lemma_placed_keeps(w.fwd, args_x.last());
        lemma_keeps_more(w.fwd, i.fwd, c.end);
        lemma_keeps_more(bound, w.fwd, c.end);
        lemma_bound_well(fwd, p.params, places);
        lemma_alike_itself(code, c.funcs, same);
        assert forall|y: u32| #[trigger] referenced_in(code).contains(y) implies g(y)
            < p.fresh.upcoming_var by {
            assert(referenced_in(c.funcs[k].def.body).contains(y));
            if forall|j: int| 0 <= j < count ==> params[j] != y {
                assert(name_in(p.map, y) == name_in(Map::empty(), y));
            } else {
                let j = choose|j: int| 0 <= j < count && params[j] == y;
                assert(name_in(p.map, params[j]) == fresh.upcoming_var + j);
            }
        }
        lemma_alike_renamed(code, code, same, p.map, p.fresh);
        assert forall|v: u32| #[trigger] binds(body.expr).contains(v) implies v
            < body.fresh.upcoming_var by {
            let j = choose|j: int| 0 <= j < binds(body.expr).len() && binds(body.expr)[j] == v;
            assert(binds(body.expr)[j] == p.fresh.upcoming_var + j);
        }
        assert(mean_alike(c, bound.env, g, rho, referenced_in(code)));
        let r = lemma_walk_followed(
            c,
            code,
            body.expr,
            g,
            rho,
            bound,
            body.fresh,
            (depth - 1) as nat,
        );
        lemma_runs_to_end(c.m, c.funcs, code, rho, r.e, r.rho);
        let args = r.e->App_args;
        assert(args_x.last() == sent_val(args.last(), r.f));
        if let CValV::Var(y) = args.last() {
            lemma_parts_used(r.e);
            assert(args.contains(CValV::Var(y)));
            assert(vars_of(args).contains(y));
            assert(referenced_in(r.e).contains(y));
        }
        lemma_placed_means(c, w.fwd, args.last(), r.f, r.rho);
        assert forall|j: int| 0 <= j < values.len() implies rho[#[trigger] params[j]]
            == values[j] by {
            assert(name_in(p.map, params[j]) == fresh.upcoming_var + j);
            assert(p.params[j] == fresh.upcoming_var + j);
            assert(p.params.no_duplicates());
            lemma_bound_at(fwd.env, p.params, places, count, j);
            assert(term_at(c, places[j]) == values[j]);
        }
        assert(call_runs_body(c.m, c.funcs, callee, rho, values));
    }
}

} // verus!
