//! Where an expression stands inside another.

use vstd::prelude::*;

use crate::cps::{CExprV, CFunDefV, CValV};

verus! {

/// Whether an expression stands directly in another: after a binding, in a branch, as the
/// body of a continuation, or after continuations.
pub open spec fn directly_in(e: CExprV, f: CExprV) -> bool {
    match e {
        CExprV::LetPrim { cont, .. } => f == *cont,
        CExprV::App { .. } => false,
        CExprV::If { then_branch, else_branch, .. } => f == *then_branch || f == *else_branch,
        CExprV::Fix { defs, body } => f == *body || exists|i: int|
            0 <= i < defs.len() && f == (#[trigger] defs[i]).body,
    }
}

/// Whether expressions lead from one to another, each directly in the one before it.
pub open spec fn descent(e: CExprV, f: CExprV, p: Seq<CExprV>) -> bool {
    &&& p.len() > 0
    &&& p[0] == e
    &&& p.last() == f
    &&& forall|i: int| 0 <= i < p.len() - 1 ==> directly_in(#[trigger] p[i], p[i + 1])
}

/// Whether an expression holds another, itself or at any depth.
pub open spec fn holds(e: CExprV, f: CExprV) -> bool {
    exists|p: Seq<CExprV>| descent(e, f, p)
}

/// Whether an expression holds one, itself or at any depth, of which something is true.
pub open spec fn anywhere(e: CExprV, q: spec_fn(CExprV) -> bool) -> bool {
    exists|f: CExprV| #[trigger] holds(e, f) && q(f)
}

/// An expression holds itself.
pub proof fn lemma_holds_itself(e: CExprV)
    ensures
        holds(e, e),
{
    assert(descent(e, e, seq![e]));
}

/// An expression holds what its parts hold.
pub proof fn lemma_holds_more(e: CExprV, g: CExprV, f: CExprV)
    requires
        directly_in(e, g),
        holds(g, f),
    ensures
        holds(e, f),
{
    let p = choose|p: Seq<CExprV>| descent(g, f, p);
    let q = seq![e] + p;
    assert forall|i: int| 0 <= i < q.len() - 1 implies directly_in(#[trigger] q[i], q[i + 1]) by {
        if i > 0 {
            assert(q[i] == p[i - 1]);
            assert(q[i + 1] == p[(i - 1) + 1]);
        }
    }
    assert(q.last() == p.last());
    assert(descent(e, f, q));
}

/// What an expression holds is the expression itself, or one of its parts holds it.
pub proof fn lemma_holds_cases(e: CExprV, f: CExprV) -> (g: CExprV)
    requires
        holds(e, f),
        f != e,
    ensures
        directly_in(e, g),
        holds(g, f),
{
    let p = choose|p: Seq<CExprV>| descent(e, f, p);
    assert(p.len() > 1);
    assert(directly_in(p[0], p[1]));
    let q = p.subrange(1, p.len() as int);
    assert forall|i: int| 0 <= i < q.len() - 1 implies directly_in(#[trigger] q[i], q[i + 1]) by {
        assert(directly_in(p[i + 1], p[(i + 1) + 1]));
    }
    assert(descent(p[1], f, q));
    p[1]
}

/// An expression holds what an expression holds that it holds.
pub proof fn lemma_holds_through(e: CExprV, g: CExprV, f: CExprV)
    requires
        holds(e, g),
        holds(g, f),
    ensures
        holds(e, f),
    decreases e,
{
    if e != g {
        let h = lemma_holds_cases(e, g);
        lemma_smaller(e, h);
        lemma_holds_through(h, g, f);
        lemma_holds_more(e, h, f);
    }
}

proof fn lemma_smaller(e: CExprV, f: CExprV)
    requires
        directly_in(e, f),
    ensures
        decreases_to!(e => f),
{
    match e {
        CExprV::Fix { defs, body } => {
            if f != *body {
                let i = choose|i: int| 0 <= i < defs.len() && f == (#[trigger] defs[i]).body;
                assert(decreases_to!(e => defs));
                assert(decreases_to!(defs => defs[i]));
                assert(decreases_to!(defs[i] => defs[i].body));
            }
        },
        _ => {},
    }
}

/// Whether one of the first `n` continuations holds an expression of which something is true.
pub open spec fn anywhere_first(
    defs: Seq<CFunDefV>,
    n: nat,
    q: spec_fn(CExprV) -> bool,
) -> bool {
    exists|i: int| 0 <= i < n && i < defs.len() && anywhere((#[trigger] defs[i]).body, q)
}

proof fn lemma_anywhere_in(e: CExprV, g: CExprV, q: spec_fn(CExprV) -> bool)
    requires
        directly_in(e, g),
        anywhere(g, q),
    ensures
        anywhere(e, q),
{
    let f = choose|f: CExprV| #[trigger] holds(g, f) && q(f);
    lemma_holds_more(e, g, f);
}

/// Something is true in an expression if it is true of the expression or in one of its parts.
pub proof fn lemma_anywhere(e: CExprV, q: spec_fn(CExprV) -> bool)
    ensures
        anywhere(e, q) <==> q(e) || match e {
            CExprV::LetPrim { cont, .. } => anywhere(*cont, q),
            CExprV::App { .. } => false,
            CExprV::If { then_branch, else_branch, .. } => anywhere(*then_branch, q) || anywhere(
                *else_branch,
                q,
            ),
            CExprV::Fix { defs, body } => anywhere_first(defs, defs.len(), q) || anywhere(*body, q),
        },
{
    if q(e) {
        lemma_holds_itself(e);
    }
    match e {
        CExprV::LetPrim { cont, .. } => {
            if anywhere(*cont, q) {
                lemma_anywhere_in(e, *cont, q);
            }
        },
        CExprV::App { .. } => {},
        CExprV::If { then_branch, else_branch, .. } => {
            if anywhere(*then_branch, q) {
                lemma_anywhere_in(e, *then_branch, q);
            }
            if anywhere(*else_branch, q) {
                lemma_anywhere_in(e, *else_branch, q);
            }
        },
        CExprV::Fix { defs, body } => {
            if anywhere(*body, q) {
                lemma_anywhere_in(e, *body, q);
            }
            if anywhere_first(defs, defs.len(), q) {
                let i = choose|i: int|
                    0 <= i < defs.len() && i < defs.len() && anywhere(
                        (#[trigger] defs[i]).body,
                        q,
                    );
                lemma_anywhere_in(e, defs[i].body, q);
            }
        },
    }
    if anywhere(e, q) && !q(e) {
        let f = choose|f: CExprV| #[trigger] holds(e, f) && q(f);
        let g = lemma_holds_cases(e, f);
        assert(anywhere(g, q));
        if let CExprV::Fix { defs, body } = e {
            if g != *body {
                let i = choose|i: int| 0 <= i < defs.len() && g == (#[trigger] defs[i]).body;
                assert(anywhere(defs[i].body, q));
            }
        }
    }
}

/// One more continuation.
pub proof fn lemma_anywhere_first(defs: Seq<CFunDefV>, n: nat, q: spec_fn(CExprV) -> bool)
    requires
        0 < n <= defs.len(),
    ensures
        anywhere_first(defs, n, q) <==> anywhere_first(defs, (n - 1) as nat, q) || anywhere(
            defs[n - 1].body,
            q,
        ),
{
    if anywhere_first(defs, n, q) {
        let i = choose|i: int|
            0 <= i < n && i < defs.len() && anywhere((#[trigger] defs[i]).body, q);
        if i < n - 1 {
            assert(0 <= i < n - 1 && anywhere(defs[i].body, q));
        }
    }
    if anywhere_first(defs, (n - 1) as nat, q) {
        let i = choose|i: int|
            0 <= i < n - 1 && i < defs.len() && anywhere((#[trigger] defs[i]).body, q);
        assert(0 <= i < n && anywhere(defs[i].body, q));
    }
    if anywhere(defs[n - 1].body, q) {
        assert(0 <= n - 1 < n);
    }
}

// ---- what an expression itself does ----

/// Whether an expression itself binds a variable: to a result, or as a parameter of a
/// continuation.
pub open spec fn binds(f: CExprV, v: u32) -> bool {
    match f {
        CExprV::LetPrim { var, .. } => var == v,
        CExprV::Fix { defs, .. } => exists|i: int|
            0 <= i < defs.len() && (#[trigger] defs[i]).params.contains(v),
        _ => false,
    }
}

/// Whether an expression itself mentions a value: as an argument, as what is jumped to, or as
/// a condition.
pub open spec fn mentions(f: CExprV, x: CValV) -> bool {
    match f {
        CExprV::LetPrim { args, .. } => args.contains(x),
        CExprV::App { func, args } => func == x || args.contains(x),
        CExprV::If { cond, .. } => cond == x,
        CExprV::Fix { .. } => false,
    }
}

/// Whether an expression is a jump to a label.
pub open spec fn goes_to(f: CExprV, name: Seq<char>) -> bool {
    f matches CExprV::App { func, .. } && func == CValV::Label(name)
}

/// Whether an expression itself builds a struct and binds it to a variable.
pub open spec fn builds(f: CExprV, v: u32) -> bool {
    f matches CExprV::LetPrim { var, op, .. } && var == v && op is Struct
}

/// Whether a continuation is one of those that an expression itself holds.
pub open spec fn defines(f: CExprV, d: CFunDefV) -> bool {
    f matches CExprV::Fix { defs, .. } && defs.contains(d)
}

} // verus!
