//! What holds of a whole pass over a program.

use vstd::prelude::*;

use crate::cps::{CExprV, CTopLevelFnV};
use crate::lang::CleaveLangV;
use crate::optimize::{
    answered, begun, explained, next_plan, outcome_of, swapped, with_body, OptimizerV, OutcomeV,
};
use crate::registry::Registry;

verus! {

/// Where a pass leads that is handed the forms from the `k`th on, one for each plan, and
/// for each new body why it equals the old one.
pub open spec fn pass_from(
    pass: OptimizerV,
    registry: Registry,
    found: Seq<(Seq<CleaveLangV>, Seq<char>)>,
    k: nat,
) -> OptimizerV
    decreases found.len() - k,
{
    if k >= found.len() {
        pass
    } else {
        let next = next_plan(pass, registry);
        match next.plan {
            None => next.pass,
            Some(plan) => {
                let (best, why) = found[k as int];
                let taken = answered(next.pass, plan, best);
                let noted = match outcome_of(plan, best, next.pass.fresh) {
                    OutcomeV::Rebuilt(_) => explained(taken, plan, why),
                    _ => taken,
                };
                pass_from(noted, registry, found, k + 1)
            },
        }
    }
}

/// Whether no two functions have one name.
pub open spec fn names_differ(funcs: Seq<CTopLevelFnV>) -> bool {
    forall|i: int, j: int|
        0 <= i < funcs.len() && 0 <= j < funcs.len() && i != j ==> (#[trigger] funcs[i]).def.name
            != (#[trigger] funcs[j]).def.name
}

/// How many of the first `n` functions have a new body.
pub open spec fn replaced(
    funcs: Seq<CTopLevelFnV>,
    n: nat,
    bodies: Map<Seq<char>, CExprV>,
) -> nat
    decreases n,
{
    if n == 0 || n > funcs.len() {
        0
    } else {
        replaced(funcs, (n - 1) as nat, bodies) + if bodies.contains_key(funcs[n - 1].def.name) {
            1nat
        } else {
            0nat
        }
    }
}

/// Whether a note is about a function: it starts with the function's name.
pub open spec fn note_on(note: Seq<char>, f: CTopLevelFnV) -> bool {
    let head = f.def.name + ": "@;
    note.len() >= head.len() && note.subrange(0, head.len() as int) == head
}

/// Whether there is one note for each new body so far, and it is about the function.
spec fn accounted(pass: OptimizerV) -> bool {
    &&& pass.at <= pass.funcs.len()
    &&& forall|name: Seq<char>| #[trigger]
        pass.bodies.contains_key(name) ==> named_before(pass.funcs, pass.at, name)
    &&& replaced(pass.funcs, pass.at, pass.bodies) == pass.notes.len()
    &&& forall|i: int|
        0 <= i < pass.notes.len() ==> about_one(pass.funcs, pass.bodies, #[trigger] pass.notes[i])
}

spec fn named_before(funcs: Seq<CTopLevelFnV>, n: nat, name: Seq<char>) -> bool {
    exists|i: int| 0 <= i < n && i < funcs.len() && (#[trigger] funcs[i]).def.name == name
}

/// Whether a note is about a function that has a new body.
pub open spec fn about_one(
    funcs: Seq<CTopLevelFnV>,
    bodies: Map<Seq<char>, CExprV>,
    note: Seq<char>,
) -> bool {
    exists|i: int|
        0 <= i < funcs.len() && bodies.contains_key((#[trigger] funcs[i]).def.name) && note_on(
            note,
            funcs[i],
        )
}

proof fn lemma_next_plan(pass: OptimizerV, registry: Registry)
    requires
        pass.at <= pass.funcs.len(),
    ensures
        ({
            let next = next_plan(pass, registry);
            &&& next.pass.funcs == pass.funcs
            &&& next.pass.bodies == pass.bodies
            &&& next.pass.notes == pass.notes
            &&& pass.at <= next.pass.at <= pass.funcs.len()
            &&& next.plan matches Some(plan) ==> pass.at < next.pass.at && plan.name
                == pass.funcs[next.pass.at - 1].def.name
        }),
    decreases pass.funcs.len() - pass.at,
{
    if pass.at < pass.funcs.len() {
        let p = crate::optimize::planned(
            pass.funcs[pass.at as int],
            pass.funcs,
            registry,
            pass.fresh,
        );
        if p.plan is None {
            lemma_next_plan(OptimizerV { at: pass.at + 1, fresh: p.fresh, ..pass }, registry);
        }
    }
}

/// Functions whose names have no new bodies count for nothing.
proof fn lemma_none_replaced(
    funcs: Seq<CTopLevelFnV>,
    from: nat,
    n: nat,
    bodies: Map<Seq<char>, CExprV>,
)
    requires
        from <= n <= funcs.len(),
        forall|i: int| from <= i < n ==> !bodies.contains_key((#[trigger] funcs[i]).def.name),
    ensures
        replaced(funcs, n, bodies) == replaced(funcs, from, bodies),
    decreases n,
{
    if from < n {
        lemma_none_replaced(funcs, from, (n - 1) as nat, bodies);
        assert(!bodies.contains_key(funcs[n - 1].def.name));
    }
}

proof fn lemma_same_replaced(
    funcs: Seq<CTopLevelFnV>,
    n: nat,
    a: Map<Seq<char>, CExprV>,
    b: Map<Seq<char>, CExprV>,
)
    requires
        n <= funcs.len(),
        forall|i: int|
            0 <= i < n ==> a.contains_key((#[trigger] funcs[i]).def.name) == b.contains_key(
                funcs[i].def.name,
            ),
    ensures
        replaced(funcs, n, a) == replaced(funcs, n, b),
    decreases n,
{
    if n > 0 {
        lemma_same_replaced(funcs, (n - 1) as nat, a, b);
        assert(a.contains_key(funcs[n - 1].def.name) == b.contains_key(funcs[n - 1].def.name));
    }
}

proof fn lemma_pass_accounted(
    pass: OptimizerV,
    registry: Registry,
    found: Seq<(Seq<CleaveLangV>, Seq<char>)>,
    k: nat,
)
    requires
        accounted(pass),
        names_differ(pass.funcs),
    ensures
        accounted(pass_from(pass, registry, found, k)),
        pass_from(pass, registry, found, k).funcs == pass.funcs,
    decreases found.len() - k,
{
    if k < found.len() {
        let funcs = pass.funcs;
        let next = next_plan(pass, registry);
        let at = next.pass.at;
        lemma_next_plan(pass, registry);
        assert forall|i: int| pass.at <= i < at implies !pass.bodies.contains_key(
            (#[trigger] funcs[i]).def.name,
        ) by {
            if pass.bodies.contains_key(funcs[i].def.name) {
                assert(named_before(funcs, pass.at, funcs[i].def.name));
                let j = choose|j: int|
                    0 <= j < pass.at && j < funcs.len() && (#[trigger] funcs[j]).def.name
                        == funcs[i].def.name;
                assert(funcs[j].def.name != funcs[i].def.name);
            }
        }
        lemma_none_replaced(funcs, pass.at, at, pass.bodies);
        assert forall|name: Seq<char>| #[trigger]
            pass.bodies.contains_key(name) implies named_before(funcs, at, name) by {
            let j = choose|j: int|
                0 <= j < pass.at && j < funcs.len() && (#[trigger] funcs[j]).def.name == name;
            assert(funcs[j].def.name == name);
        }
        assert(accounted(next.pass));
        if let Some(plan) = next.plan {
            let (best, why) = found[k as int];
            let taken = answered(next.pass, plan, best);
            let f = funcs[at - 1];
            if let OutcomeV::Rebuilt(e) = outcome_of(plan, best, next.pass.fresh) {
                let noted = explained(taken, plan, why);
                lemma_none_replaced(funcs, pass.at, (at - 1) as nat, pass.bodies);
                assert forall|i: int| 0 <= i < at - 1 implies taken.bodies.contains_key(
                    (#[trigger] funcs[i]).def.name,
                ) == pass.bodies.contains_key(funcs[i].def.name) by {
                    assert(funcs[i].def.name != funcs[at - 1].def.name);
                }
                lemma_same_replaced(funcs, (at - 1) as nat, taken.bodies, pass.bodies);
                assert(replaced(funcs, at, taken.bodies) == pass.notes.len() + 1);
                assert forall|name: Seq<char>| #[trigger]
                    noted.bodies.contains_key(name) implies named_before(funcs, at, name) by {
                    if name == plan.name {
                        assert(funcs[at - 1].def.name == name);
                    } else {
                        assert(pass.bodies.contains_key(name));
                    }
                }
                assert forall|i: int| 0 <= i < noted.notes.len() implies about_one(
                    funcs,
                    noted.bodies,
                    #[trigger] noted.notes[i],
                ) by {
                    if i < pass.notes.len() {
                        assert(noted.notes[i] == pass.notes[i]);
                        assert(about_one(funcs, pass.bodies, pass.notes[i]));
                        let j = choose|j: int|
                            0 <= j < funcs.len() && pass.bodies.contains_key(
                                (#[trigger] funcs[j]).def.name,
                            ) && note_on(pass.notes[i], funcs[j]);
                        assert(noted.bodies.contains_key(funcs[j].def.name));
                    } else {
                        let head = f.def.name + ": "@;
                        assert((head + why).subrange(0, head.len() as int) =~= head);
                        assert(note_on(noted.notes[i], funcs[at - 1]));
                    }
                }
                assert(accounted(noted));
                lemma_pass_accounted(noted, registry, found, k + 1);
            } else {
                assert(accounted(taken));
                lemma_pass_accounted(taken, registry, found, k + 1);
            }
        }
    }
}

/// Which new bodies are left, and what the functions are.
proof fn lemma_swapped(funcs: Seq<CTopLevelFnV>, n: nat, bodies: Map<Seq<char>, CExprV>)
    requires
        n <= funcs.len(),
        names_differ(funcs),
    ensures
        ({
            let s = swapped(funcs, n, bodies);
            &&& s.funcs.len() == n
            &&& forall|i: int|
                0 <= i < n ==> #[trigger] s.funcs[i] == given_body(funcs[i], bodies)
            &&& forall|i: int|
                n <= i < funcs.len() ==> (s.left.contains_key((#[trigger] funcs[i]).def.name)
                    == bodies.contains_key(funcs[i].def.name) && s.left[funcs[i].def.name]
                    == bodies[funcs[i].def.name])
        }),
    decreases n,
{
    if n > 0 {
        lemma_swapped(funcs, (n - 1) as nat, bodies);
        let before = swapped(funcs, (n - 1) as nat, bodies);
        let s = swapped(funcs, n, bodies);
        assert forall|i: int| n <= i < funcs.len() implies (s.left.contains_key(
            (#[trigger] funcs[i]).def.name,
        ) == bodies.contains_key(funcs[i].def.name) && s.left[funcs[i].def.name]
            == bodies[funcs[i].def.name]) by {
            assert(funcs[i].def.name != funcs[n - 1].def.name);
        }
        assert(before.left.contains_key(funcs[n - 1].def.name) == bodies.contains_key(
            funcs[n - 1].def.name,
        ));
    }
}

/// A function with its new body, if it has one.
pub open spec fn given_body(f: CTopLevelFnV, bodies: Map<Seq<char>, CExprV>) -> CTopLevelFnV {
    if bodies.contains_key(f.def.name) {
        with_body(f, bodies[f.def.name])
    } else {
        f
    }
}

/// Where each new body is explained once, there are as many explanations as functions
/// whose bodies were replaced, and each starts with the name of such a function. The
/// functions are as many as before, in the same order, and differ in nothing else. No two
/// of them have one name.
pub proof fn lemma_one_note_for_each_body(
    funcs: Seq<CTopLevelFnV>,
    registry: Registry,
    found: Seq<(Seq<CleaveLangV>, Seq<char>)>,
)
    requires
        names_differ(funcs),
    ensures
        ({
            let pass = pass_from(begun(funcs), registry, found, 0);
            let out = swapped(pass.funcs, pass.funcs.len(), pass.bodies).funcs;
            &&& pass.funcs == funcs
            &&& out.len() == funcs.len()
            &&& forall|i: int|
                0 <= i < funcs.len() ==> #[trigger] out[i] == given_body(funcs[i], pass.bodies)
            &&& replaced(funcs, funcs.len(), pass.bodies) == pass.notes.len()
            &&& forall|i: int|
                0 <= i < pass.notes.len() ==> about_one(funcs, pass.bodies, #[trigger] pass.notes[i])
        }),
{
    let start = begun(funcs);
    assert(accounted(start));
    lemma_pass_accounted(start, registry, found, 0);
    let pass = pass_from(start, registry, found, 0);
    assert forall|i: int| pass.at <= i < funcs.len() implies !pass.bodies.contains_key(
        (#[trigger] funcs[i]).def.name,
    ) by {
        if pass.bodies.contains_key(funcs[i].def.name) {
            assert(named_before(funcs, pass.at, funcs[i].def.name));
            let j = choose|j: int|
                0 <= j < pass.at && j < funcs.len() && (#[trigger] funcs[j]).def.name
                    == funcs[i].def.name;
            assert(funcs[j].def.name != funcs[i].def.name);
        }
    }
    lemma_none_replaced(funcs, pass.at, funcs.len(), pass.bodies);
    lemma_swapped(funcs, funcs.len(), pass.bodies);
}

} // verus!
