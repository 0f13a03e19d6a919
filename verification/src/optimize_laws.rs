//! What holds of a function whose straight part was translated into a term, and of the
//! code that a form of that term is turned back into.

use vstd::prelude::*;

use crate::alike::{lemma_alike_itself, lemma_parts_used, lemma_shapes_used, within};
use crate::cps::{CExprV, CTopLevelFnV, CValV};
use crate::cps_laws::{binds, lemma_framed_call_is_call};
use crate::forward::{walked, ForwardV, WalkedV, WALK_DEPTH};
use crate::fresh::FreshVars;
use crate::lang::CleaveLangV;
use crate::optimize::{entered, planned, root_place, SegmentPlanV};
use crate::rebuild::{
    framed, is_only, op_of, rebuilt, rebuilt_first, segment_rebuilt, stepped, substituted_var,
    wrapped, FrameV, RebuildV, RebuiltV,
};
use crate::rebuild_laws::{
    after_steps, free_below, lemma_rebuilt_means_term, lemma_start_is_faithful, lemma_steps_keep,
    term_value, value_of, values_of, Meaning,
};
use crate::registry::Registry;
use crate::round_trip::{functions_below, lemma_walk_followed, means_at, Setting};
use crate::running::{
    calls_run_bodies, lemma_parts_smaller, lemma_runs_on, looped, names_are_no_symbols,
    plain_value, plain_values, program_in_order, runs_to, symbols_tell, with_values,
};
use crate::shapes::{counted_loop, pure_op, real_call};
use crate::vars::referenced_in;
use crate::walk_calls::{calls_straight, lemma_walked_calls};
use crate::walk_keeps::{
    honest, honest_at, lasts, lemma_rebound_keeps, lemma_walked_keeps, numbered,
};

verus! {

/// Whether what things mean fits a program: operations with the same symbol mean the
/// same, no function is named like an operation, and calls of functions that do nothing
/// but compute mean what running their bodies gives. The program is built as programs
/// are.
pub open spec fn meant<V>(m: Meaning<V>, funcs: Seq<CTopLevelFnV>) -> bool {
    &&& symbols_tell(m)
    &&& calls_run_bodies(m, funcs)
    &&& names_are_no_symbols(funcs)
    &&& program_in_order(funcs)
}

/// Whether the fresh variables are above those of the program and last, and the nodes
/// can be numbered, while a function is translated.
pub open spec fn translated(
    funcs: Seq<CTopLevelFnV>,
    f: CTopLevelFnV,
    fresh: FreshVars,
) -> bool {
    let w = body_walked(funcs, f, fresh);
    &&& functions_below(funcs, fresh.upcoming_var)
    &&& forall|v: u32| #[trigger] binds(f.def.body).contains(v) ==> v < fresh.upcoming_var
    &&& lasts(f.def.body, funcs, entered(f), fresh, WALK_DEPTH as nat)
    &&& w.fwd.nodes.len() <= u32::MAX
}

/// Where the translation of a function's body leads.
pub open spec fn body_walked(
    funcs: Seq<CTopLevelFnV>,
    f: CTopLevelFnV,
    fresh: FreshVars,
) -> WalkedV {
    walked(f.def.body, funcs, entered(f), fresh, WALK_DEPTH as nat)
}

/// What a variable means by its term, or by its value at the start where it has none.
pub open spec fn meaning_at<V>(
    m: Meaning<V>,
    fwd: ForwardV,
    start: Map<u32, V>,
    v: u32,
) -> V {
    if fwd.env.contains_key(v) {
        term_value(m, fwd, Map::empty(), start, fwd.nodes, fwd.env[v] as nat)
    } else {
        start[v]
    }
}

/// Whether running a function's body comes to what its translation has left, and every
/// variable that this uses means by its term what its value is there.
pub open spec fn body_followed<V>(
    m: Meaning<V>,
    funcs: Seq<CTopLevelFnV>,
    f: CTopLevelFnV,
    fresh: FreshVars,
    start: Map<u32, V>,
    then: Map<u32, V>,
) -> bool {
    let w = body_walked(funcs, f, fresh);
    &&& runs_to(m, funcs, f.def.body, start, w.rest, then)
    &&& forall|v: u32| #[trigger]
        referenced_in(w.rest).contains(v) ==> meaning_at(m, w.fwd, start, v) == then[v]
}

/// Translation gives variables terms that mean what the code computes: running the body
/// of a function, through pure operations, counted loops and calls of functions that do
/// nothing but compute, comes to what translation has left of it, and every variable
/// that this uses has the value there that its term means.
pub proof fn lemma_translation_means_code<V>(
    m: Meaning<V>,
    funcs: Seq<CTopLevelFnV>,
    i: int,
    fresh: FreshVars,
    start: Map<u32, V>,
) -> (then: Map<u32, V>)
    requires
        meant(m, funcs),
        0 <= i < funcs.len(),
        translated(funcs, funcs[i], fresh),
    ensures
        body_followed(m, funcs, funcs[i], fresh, start, then),
{
    let f = funcs[i];
    let w = body_walked(funcs, f, fresh);
    let same = |y: u32| y;
    let c = Setting { m, funcs, start, end: w.fwd, bound: fresh.upcoming_var };
    let fwd = entered(f);
    assert forall|s: Seq<char>| #![trigger op_of(fwd, s)] honest_at(fwd, s) by {}
    lemma_walked_keeps(f.def.body, funcs, fwd, fresh, WALK_DEPTH as nat);
    lemma_rebound_keeps(w.fwd, w.fwd);
    lemma_alike_itself(f.def.body, funcs, same);
    assert forall|v: u32| #[trigger] referenced_in(f.def.body).contains(v) implies v
        < fresh.upcoming_var by {
        assert(referenced_in(funcs[i].def.body).contains(v));
    }
    let r = lemma_walk_followed(
        c,
        f.def.body,
        f.def.body,
        same,
        start,
        fwd,
        fresh,
        WALK_DEPTH as nat,
    );
    assert forall|v: u32| #[trigger] referenced_in(w.rest).contains(v) implies meaning_at(
        m,
        w.fwd,
        start,
        v,
    ) == r.rho[v] by {
        assert((r.f)(v) == v);
        assert(means_at(c, w.fwd.env, v) == meaning_at(m, w.fwd, start, v));
    }
    r.rho
}

/// Whether a step is a pure operation or a call of a function that was called before,
/// on values that terms can hold.
pub open spec fn good_step(fwd: ForwardV, frame: FrameV) -> bool {
    match frame {
        FrameV::Let { op, args, .. } => pure_op(op) && plain_values(args),
        FrameV::Call { unit, args, .. } => fwd.call_units.contains(unit) && plain_values(args),
    }
}

/// Whether what was turned back so far is made of such steps and values.
pub open spec fn good_so_far(fwd: ForwardV, st: RebuildV) -> bool {
    &&& forall|k: int| 0 <= k < st.frames.len() ==> good_step(fwd, #[trigger] st.frames[k])
    &&& forall|id: usize| #[trigger] st.memo.contains_key(id) ==> plain_value(st.memo[id])
}

proof fn lemma_rebuilt_good(
    nodes: Seq<CleaveLangV>,
    id: usize,
    fwd: ForwardV,
    st: RebuildV,
)
    requires
        honest(fwd),
        numbered(fwd),
        good_so_far(fwd, st),
    ensures
        good_so_far(fwd, rebuilt(nodes, id, fwd, Map::empty(), st).st),
        rebuilt(nodes, id, fwd, Map::empty(), st).value matches Some(v) ==> plain_value(v),
    decreases id, 1nat, 0nat,
{
    if !st.memo.contains_key(id) && id < nodes.len() {
        if let CleaveLangV::Op(symbol, children) = nodes[id as int] {
            let a = rebuilt_first(nodes, id, children, children.len(), fwd, Map::empty(), st);
            lemma_rebuilt_first_good(nodes, id, children, children.len(), fwd, st);
            if let Some(args) = a.values {
                let b = stepped(fwd, id, symbol, args, a.st);
                assert(honest_at(fwd, symbol));
                assert forall|k: int| 0 <= k < b.st.frames.len() implies good_step(
                    fwd,
                    #[trigger] b.st.frames[k],
                ) by {
                    if k < a.st.frames.len() {
                        assert(b.st.frames[k] == a.st.frames[k]);
                    }
                }
            }
        }
    }
}

proof fn lemma_rebuilt_first_good(
    nodes: Seq<CleaveLangV>,
    id: usize,
    children: Seq<usize>,
    n: nat,
    fwd: ForwardV,
    st: RebuildV,
)
    requires
        honest(fwd),
        numbered(fwd),
        good_so_far(fwd, st),
    ensures
        good_so_far(fwd, rebuilt_first(nodes, id, children, n, fwd, Map::empty(), st).st),
        rebuilt_first(nodes, id, children, n, fwd, Map::empty(), st).values matches Some(vals)
            ==> plain_values(vals),
    decreases id, 0nat, n,
{
    if !(n == 0 || n > children.len()) {
        let before = rebuilt_first(nodes, id, children, (n - 1) as nat, fwd, Map::empty(), st);
        lemma_rebuilt_first_good(nodes, id, children, (n - 1) as nat, fwd, st);
        if before.values is Some && children[n - 1] < id {
            lemma_rebuilt_good(nodes, children[n - 1], fwd, before.st);
        }
    }
}

/// Steps run one after the other, to what follows them.
proof fn lemma_steps_run<V>(
    m: Meaning<V>,
    funcs: Seq<CTopLevelFnV>,
    fwd: ForwardV,
    frames: Seq<FrameV>,
    tail: CExprV,
    rho: Map<u32, V>,
)
    requires
        calls_straight(fwd, funcs),
        forall|k: int| 0 <= k < frames.len() ==> good_step(fwd, #[trigger] frames[k]),
    ensures
        runs_to(m, funcs, wrapped(frames, tail), rho, tail, after_steps(m, rho, frames)),
    decreases frames.len(),
{
    if frames.len() > 0 {
        let fewer = frames.drop_last();
        let last = frames.last();
        let mid = framed(last, tail);
        let between = after_steps(m, rho, fewer);
        let then = after_steps(m, rho, frames);
        assert forall|k: int| 0 <= k < fewer.len() implies good_step(
            fwd,
            #[trigger] fewer[k],
        ) by {
            assert(fewer[k] == frames[k]);
        }
        lemma_steps_run(m, funcs, fwd, fewer, mid, rho);
        assert(good_step(fwd, frames[frames.len() - 1]));
        assert(runs_to(m, funcs, tail, then, tail, then));
        if let FrameV::Call { unit, .. } = last {
            lemma_framed_call_is_call(last, tail);
            assert(fwd.call_units.contains(unit));
        }
        assert(runs_to(m, funcs, mid, between, tail, then));
        lemma_runs_on(
            m,
            funcs,
            wrapped(frames, tail),
            rho,
            mid,
            between,
            tail,
            then,
        );
    }
}

/// Running leads to nothing that uses more.
proof fn lemma_runs_within<V>(
    m: Meaning<V>,
    funcs: Seq<CTopLevelFnV>,
    e: CExprV,
    rho: Map<u32, V>,
    there: CExprV,
    then: Map<u32, V>,
)
    requires
        runs_to(m, funcs, e, rho, there, then),
    ensures
        within(referenced_in(there), referenced_in(e)),
    decreases e,
{
    if !(e == there && rho == then) {
        lemma_parts_used(e);
        match e {
            CExprV::LetPrim { var, ty, op, args, cont } => {
                lemma_runs_within(
                    m,
                    funcs,
                    *cont,
                    rho.insert(var, (m.op)(op, ty, values_of(m, rho, args))),
                    there,
                    then,
                );
            },
            CExprV::Fix { defs, body } => {
                lemma_parts_smaller(e);
                lemma_shapes_used(e);
                match counted_loop(defs, *body) {
                    Some(l) => {
                        let values = looped(
                            m,
                            funcs,
                            e,
                            l.start,
                            rho,
                            values_of(m, rho, l.carried_init),
                        )->Some_0;
                        lemma_runs_within(
                            m,
                            funcs,
                            l.after,
                            with_values(rho, l.carried_params, values, l.carried_params.len()),
                            there,
                            then,
                        );
                    },
                    None => {
                        let call = real_call(defs, *body)->Some_0;
                        lemma_runs_within(
                            m,
                            funcs,
                            call.rest,
                            rho.insert(
                                call.result_var,
                                (m.call)(call.unit, values_of(m, rho, call.args)),
                            ),
                            there,
                            then,
                        );
                    },
                }
            },
            _ => {},
        }
    }
}

/// Whether the new body of a function comes to what translation has left of the old one,
/// with a value in place of the variable, and the value and every other variable that
/// this uses have the values there that the old body comes to it with.
pub open spec fn same_outcome<V>(
    m: Meaning<V>,
    funcs: Seq<CTopLevelFnV>,
    plan: SegmentPlanV,
    new: CExprV,
    start: Map<u32, V>,
    then: Map<u32, V>,
    value: CValV,
    now: Map<u32, V>,
) -> bool {
    &&& runs_to(
        m,
        funcs,
        new,
        start,
        substituted_var(plan.boundary, plan.root_var, value),
        now,
    )
    &&& value_of(m, now, value) == then[plan.root_var]
    &&& forall|v: u32| #[trigger]
        referenced_in(plan.boundary).contains(v) && v != plan.root_var ==> now[v] == then[v]
}

/// A new body that is made of a form that means what the old term does computes what the
/// old body does: both come to the same code with the same values. The values that the
/// form takes from outside lie below the fresh variables, and these last.
pub proof fn lemma_new_body_computes_the_same<V>(
    m: Meaning<V>,
    funcs: Seq<CTopLevelFnV>,
    i: int,
    registry: Registry,
    fresh: FreshVars,
    plan: SegmentPlanV,
    best: Seq<CleaveLangV>,
    later: FreshVars,
    start: Map<u32, V>,
) -> (r: (Map<u32, V>, CValV, Map<u32, V>))
    requires
        meant(m, funcs),
        0 <= i < funcs.len(),
        translated(funcs, funcs[i], fresh),
        planned(funcs[i], funcs, registry, fresh).plan == Some(plan),
        term_value(m, plan.fwd, Map::empty(), start, best, root_place(best) as nat) == term_value(
            m,
            plan.fwd,
            Map::empty(),
            start,
            plan.fwd.nodes,
            plan.root as nat,
        ),
        fresh.upcoming_var <= later.upcoming_var,
        free_below(plan.fwd, Map::empty(), later.upcoming_var as int),
        later.upcoming_var + turned_back(plan, best, later).st.frames.len() <= u32::MAX,
        segment_rebuilt(
            best,
            root_place(best),
            plan.root_var,
            plan.boundary,
            plan.fwd,
            later,
        ).expr is Some,
    ensures
        body_followed(m, funcs, funcs[i], fresh, start, r.0),
        same_outcome(
            m,
            funcs,
            plan,
            segment_rebuilt(
                best,
                root_place(best),
                plan.root_var,
                plan.boundary,
                plan.fwd,
                later,
            ).expr->Some_0,
            start,
            r.0,
            r.1,
            r.2,
        ),
{
    let f = funcs[i];
    let w = body_walked(funcs, f, fresh);
    let then = lemma_translation_means_code(m, funcs, i, fresh, start);
    let begin = RebuildV { fresh: later, memo: Map::empty(), frames: Seq::empty() };
    let b = turned_back(plan, best, later);
    let value = b.value->Some_0;
    let now = after_steps(m, start, b.st.frames);
    let root = root_place(best);
    let first = later.upcoming_var as int;
    let both = referenced_in(w.rest).intersect(w.fwd.env.dom());
    assert(exists|v: u32| is_only(both, v));
    assert(is_only(both, plan.root_var));
    assert(both.contains(plan.root_var));
    assert(referenced_in(w.rest).contains(plan.root_var));
    assert(meaning_at(m, w.fwd, start, plan.root_var) == then[plan.root_var]);
    lemma_start_is_faithful(m, plan.fwd, Map::empty(), start, best, later);
    lemma_rebuilt_means_term(m, best, root, plan.fwd, Map::empty(), start, first, begin);
    assert forall|s: Seq<char>| #![trigger op_of(entered(f), s)] honest_at(entered(f), s) by {}
    lemma_walked_keeps(f.def.body, funcs, entered(f), fresh, WALK_DEPTH as nat);
    lemma_walked_calls(f.def.body, funcs, entered(f), fresh, WALK_DEPTH as nat);
    lemma_rebuilt_good(best, root, plan.fwd, begin);
    let tail = substituted_var(plan.boundary, plan.root_var, value);
    lemma_steps_run(m, funcs, plan.fwd, b.st.frames, tail, start);
    lemma_runs_within(m, funcs, f.def.body, start, w.rest, then);
    assert forall|v: u32| #[trigger]
        referenced_in(plan.boundary).contains(v) && v != plan.root_var implies now[v] == then[v] by {
        assert(meaning_at(m, w.fwd, start, v) == then[v]);
        assert(!w.fwd.env.contains_key(v)) by {
            if w.fwd.env.contains_key(v) {
                assert(both.contains(v));
            }
        }
        assert(referenced_in(funcs[i].def.body).contains(v));
        lemma_steps_keep(m, plan.fwd, Map::empty(), start, best, first, b.st, v);
    }
    (then, value, now)
}

/// What the form that was found for a plan is turned back into.
pub open spec fn turned_back(
    plan: SegmentPlanV,
    best: Seq<CleaveLangV>,
    later: FreshVars,
) -> RebuiltV {
    rebuilt(
        best,
        root_place(best),
        plan.fwd,
        Map::empty(),
        RebuildV { fresh: later, memo: Map::empty(), frames: Seq::empty() },
    )
}

} // verus!
