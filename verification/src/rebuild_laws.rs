//! What holds of terms that are turned back into steps: they can be turned back if
//! their symbols stand for something, once each, and the steps compute what the
//! terms mean.

use vstd::prelude::*;

use crate::cps::{CValV, PrimOpV};
use crate::forward::ForwardV;
use crate::fresh::FreshVars;
use crate::lang::CleaveLangV;
use crate::rebuild::{free_value, op_of, rebuilt, rebuilt_first, stepped, FrameV, RebuildV};
use crate::ty::TyV;
use crate::walk_laws::good_node;

verus! {

/// Whether every node of a term has its children before it, and a symbol that
/// stands for something.
pub open spec fn good_nodes(fwd: ForwardV, nodes: Seq<CleaveLangV>) -> bool {
    forall|i: int| 0 <= i < nodes.len() ==> good_node(fwd, i, #[trigger] nodes[i])
}

/// A term whose symbols stand for something can be turned back.
pub proof fn lemma_good_term_is_rebuilt(
    nodes: Seq<CleaveLangV>,
    id: usize,
    fwd: ForwardV,
    subst: Map<u32, u32>,
    st: RebuildV,
)
    requires
        good_nodes(fwd, nodes),
        id < nodes.len(),
    ensures
        rebuilt(nodes, id, fwd, subst, st).value is Some,
    decreases id, 1nat, 0nat,
{
    assert(good_node(fwd, id as int, nodes[id as int]));
    if !st.memo.contains_key(id) {
        if let CleaveLangV::Op(symbol, children) = nodes[id as int] {
            lemma_good_children_are_rebuilt(nodes, id, children, children.len(), fwd, subst, st);
        }
    }
}

proof fn lemma_good_children_are_rebuilt(
    nodes: Seq<CleaveLangV>,
    id: usize,
    children: Seq<usize>,
    n: nat,
    fwd: ForwardV,
    subst: Map<u32, u32>,
    st: RebuildV,
)
    requires
        good_nodes(fwd, nodes),
        id < nodes.len(),
        n <= children.len(),
        forall|k: int| 0 <= k < children.len() ==> #[trigger] children[k] < id,
    ensures
        rebuilt_first(nodes, id, children, n, fwd, subst, st).values is Some,
    decreases id, 0nat, n,
{
    if n > 0 {
        let before = rebuilt_first(nodes, id, children, (n - 1) as nat, fwd, subst, st);
        lemma_good_children_are_rebuilt(nodes, id, children, (n - 1) as nat, fwd, subst, st);
        assert(children[n - 1] < id);
        lemma_good_term_is_rebuilt(nodes, children[n - 1], fwd, subst, before.st);
    }
}

/// A node that was turned back gives the same value again, with no more steps.
pub proof fn lemma_rebuilt_once(
    nodes: Seq<CleaveLangV>,
    id: usize,
    fwd: ForwardV,
    subst: Map<u32, u32>,
    st: RebuildV,
)
    requires
        rebuilt(nodes, id, fwd, subst, st).value is Some,
    ensures
        ({
            let first = rebuilt(nodes, id, fwd, subst, st);
            let again = rebuilt(nodes, id, fwd, subst, first.st);
            again.value == first.value && again.st == first.st
        }),
{
}

/// What literals, operations and calls mean, in whatever values.
#[verifier::reject_recursive_types(V)]
pub struct Meaning<V> {
    pub literal: spec_fn(CValV) -> V,
    pub op: spec_fn(PrimOpV, TyV, Seq<V>) -> V,
    pub call: spec_fn(Seq<char>, Seq<V>) -> V,
}

/// What a value means where variables have values.
pub open spec fn value_of<V>(m: Meaning<V>, rho: Map<u32, V>, v: CValV) -> V {
    match v {
        CValV::Var(x) => rho[x],
        other => (m.literal)(other),
    }
}

/// What values mean where variables have values.
pub open spec fn values_of<V>(m: Meaning<V>, rho: Map<u32, V>, vals: Seq<CValV>) -> Seq<V> {
    Seq::new(vals.len(), |i: int| value_of(m, rho, vals[i]))
}

/// What the node at a place means where variables have values.
pub open spec fn term_value<V>(
    m: Meaning<V>,
    fwd: ForwardV,
    subst: Map<u32, u32>,
    rho: Map<u32, V>,
    nodes: Seq<CleaveLangV>,
    id: nat,
) -> V
    decreases id, 1nat, 0nat,
{
    match nodes[id as int] {
        CleaveLangV::Int(n) => value_of(m, rho, CValV::Int(n)),
        CleaveLangV::Float(n) => value_of(m, rho, CValV::Float(n)),
        CleaveLangV::Bool(b) => value_of(m, rho, CValV::Bool(b)),
        CleaveLangV::Free(symbol) => match free_value(fwd, subst, symbol) {
            Some(v) => value_of(m, rho, v),
            None => arbitrary(),
        },
        CleaveLangV::Op(symbol, children) => {
            let args = term_values(m, fwd, subst, rho, nodes, id, children, children.len());
            match op_of(fwd, symbol) {
                Some((op, ty)) => (m.op)(op, ty, args),
                None => (m.call)(symbol, args),
            }
        },
    }
}

/// What the first `n` children of the node at `parent` mean.
pub open spec fn term_values<V>(
    m: Meaning<V>,
    fwd: ForwardV,
    subst: Map<u32, u32>,
    rho: Map<u32, V>,
    nodes: Seq<CleaveLangV>,
    parent: nat,
    children: Seq<usize>,
    n: nat,
) -> Seq<V>
    decreases parent, 0nat, n,
{
    if n == 0 || n > children.len() {
        Seq::empty()
    } else {
        let child = children[n - 1] as nat;
        term_values(m, fwd, subst, rho, nodes, parent, children, (n - 1) as nat).push(
            if child < parent {
                term_value(m, fwd, subst, rho, nodes, child)
            } else {
                arbitrary()
            },
        )
    }
}

/// The variable that a step binds.
pub open spec fn bound_by(frame: FrameV) -> u32 {
    match frame {
        FrameV::Let { var, .. } => var,
        FrameV::Call { result_var, .. } => result_var,
    }
}

/// What a step computes where variables have values.
pub open spec fn step_value<V>(m: Meaning<V>, rho: Map<u32, V>, frame: FrameV) -> V {
    match frame {
        FrameV::Let { ty, op, args, .. } => (m.op)(op, ty, values_of(m, rho, args)),
        FrameV::Call { unit, args, .. } => (m.call)(unit, values_of(m, rho, args)),
    }
}

/// The values of variables after steps, in order.
pub open spec fn after_steps<V>(m: Meaning<V>, rho: Map<u32, V>, frames: Seq<FrameV>) -> Map<u32, V>
    decreases frames.len(),
{
    if frames.len() == 0 {
        rho
    } else {
        let before = after_steps(m, rho, frames.drop_last());
        before.insert(bound_by(frames.last()), step_value(m, before, frames.last()))
    }
}

/// Whether a value mentions no variable from the bound on.
pub open spec fn below(v: CValV, bound: int) -> bool {
    v matches CValV::Var(x) ==> x < bound
}

/// Whether the free values mention no variable from the bound on.
pub open spec fn free_below(fwd: ForwardV, subst: Map<u32, u32>, bound: int) -> bool {
    forall|symbol: Seq<char>| #[trigger]
        free_value(fwd, subst, symbol) matches Some(v) ==> below(v, bound)
}

/// Whether the steps bind one variable after the other, from the first on.
spec fn in_order(frames: Seq<FrameV>, first: int) -> bool {
    forall|k: int| 0 <= k < frames.len() ==> bound_by(#[trigger] frames[k]) == first + k
}

/// Whether the second list of steps starts with the first.
spec fn goes_on(a: Seq<FrameV>, b: Seq<FrameV>) -> bool {
    a.len() <= b.len() && forall|k: int| 0 <= k < a.len() ==> b[k] == #[trigger] a[k]
}

/// Further steps do not change the values of variables below those that they bind.
proof fn lemma_later_steps<V>(
    m: Meaning<V>,
    rho: Map<u32, V>,
    a: Seq<FrameV>,
    b: Seq<FrameV>,
    first: int,
    v: CValV,
)
    requires
        goes_on(a, b),
        in_order(b, first),
        below(v, first + a.len()),
    ensures
        value_of(m, after_steps(m, rho, b), v) == value_of(m, after_steps(m, rho, a), v),
    decreases b.len(),
{
    if a.len() == b.len() {
        assert(a =~= b);
    } else {
        let less = b.drop_last();
        assert forall|k: int| 0 <= k < a.len() implies less[k] == #[trigger] a[k] by {
            assert(b[k] == a[k]);
        }
        assert forall|k: int| 0 <= k < less.len() implies bound_by(#[trigger] less[k]) == first
            + k by {
            assert(b[k] == less[k]);
        }
        lemma_later_steps(m, rho, a, less, first, v);
        assert(bound_by(b[b.len() - 1]) == first + (b.len() - 1));
    }
}

proof fn lemma_goes_on_trans(a: Seq<FrameV>, b: Seq<FrameV>, c: Seq<FrameV>)
    requires
        goes_on(a, b),
        goes_on(b, c),
    ensures
        goes_on(a, c),
{
    assert forall|k: int| 0 <= k < a.len() implies c[k] == #[trigger] a[k] by {
        assert(b[k] == a[k]);
        assert(c[k] == b[k]);
    }
}

/// Turning back only adds steps.
proof fn lemma_rebuilt_goes_on(
    nodes: Seq<CleaveLangV>,
    id: usize,
    fwd: ForwardV,
    subst: Map<u32, u32>,
    st: RebuildV,
)
    ensures
        goes_on(st.frames, rebuilt(nodes, id, fwd, subst, st).st.frames),
    decreases id, 1nat, 0nat,
{
    if !st.memo.contains_key(id) && id < nodes.len() {
        if let CleaveLangV::Op(symbol, children) = nodes[id as int] {
            lemma_rebuilt_first_goes_on(nodes, id, children, children.len(), fwd, subst, st);
            let a = rebuilt_first(nodes, id, children, children.len(), fwd, subst, st);
            if let Some(args) = a.values {
                lemma_goes_on_trans(
                    st.frames,
                    a.st.frames,
                    stepped(fwd, id, symbol, args, a.st).st.frames,
                );
            }
        }
    }
}

proof fn lemma_rebuilt_first_goes_on(
    nodes: Seq<CleaveLangV>,
    id: usize,
    children: Seq<usize>,
    n: nat,
    fwd: ForwardV,
    subst: Map<u32, u32>,
    st: RebuildV,
)
    ensures
        goes_on(st.frames, rebuilt_first(nodes, id, children, n, fwd, subst, st).st.frames),
    decreases id, 0nat, n,
{
    if !(n == 0 || n > children.len()) {
        let before = rebuilt_first(nodes, id, children, (n - 1) as nat, fwd, subst, st);
        lemma_rebuilt_first_goes_on(nodes, id, children, (n - 1) as nat, fwd, subst, st);
        if before.values is Some && children[n - 1] < id {
            lemma_rebuilt_goes_on(nodes, children[n - 1], fwd, subst, before.st);
            lemma_goes_on_trans(
                st.frames,
                before.st.frames,
                rebuilt(nodes, children[n - 1], fwd, subst, before.st).st.frames,
            );
        }
    }
}

/// Whether the steps made so far bind one fresh variable each, and compute what the
/// nodes that they were made for mean.
pub closed spec fn faithful<V>(
    m: Meaning<V>,
    fwd: ForwardV,
    subst: Map<u32, u32>,
    rho: Map<u32, V>,
    nodes: Seq<CleaveLangV>,
    first: int,
    st: RebuildV,
) -> bool {
    &&& st.fresh.upcoming_var == first + st.frames.len()
    &&& in_order(st.frames, first)
    &&& forall|id: usize| #[trigger]
        st.memo.contains_key(id) ==> below(st.memo[id], first + st.frames.len()) && value_of(
            m,
            after_steps(m, rho, st.frames),
            st.memo[id],
        ) == term_value(m, fwd, subst, rho, nodes, id as nat)
}

/// Before any step, what was made so far is faithful.
pub proof fn lemma_start_is_faithful<V>(
    m: Meaning<V>,
    fwd: ForwardV,
    subst: Map<u32, u32>,
    rho: Map<u32, V>,
    nodes: Seq<CleaveLangV>,
    fresh: FreshVars,
)
    ensures
        faithful(
            m,
            fwd,
            subst,
            rho,
            nodes,
            fresh.upcoming_var as int,
            RebuildV { fresh, memo: Map::empty(), frames: Seq::empty() },
        ),
{
}

/// The steps that a term is turned back into compute what the term means: once they
/// have been taken, its value means what the term does. The free values lie below
/// the fresh variables, and these last.
pub proof fn lemma_rebuilt_means_term<V>(
    m: Meaning<V>,
    nodes: Seq<CleaveLangV>,
    id: usize,
    fwd: ForwardV,
    subst: Map<u32, u32>,
    rho: Map<u32, V>,
    first: int,
    st: RebuildV,
)
    requires
        faithful(m, fwd, subst, rho, nodes, first, st),
        free_below(fwd, subst, first),
        first + rebuilt(nodes, id, fwd, subst, st).st.frames.len() <= u32::MAX,
    ensures
        faithful(m, fwd, subst, rho, nodes, first, rebuilt(nodes, id, fwd, subst, st).st),
        rebuilt(nodes, id, fwd, subst, st).value matches Some(v) ==> below(
            v,
            first + rebuilt(nodes, id, fwd, subst, st).st.frames.len(),
        ) && value_of(
            m,
            after_steps(m, rho, rebuilt(nodes, id, fwd, subst, st).st.frames),
            v,
        ) == term_value(m, fwd, subst, rho, nodes, id as nat),
    decreases id, 1nat, 0nat,
{
    if !st.memo.contains_key(id) && id < nodes.len() {
        match nodes[id as int] {
            CleaveLangV::Free(symbol) => {
                if let Some(v) = free_value(fwd, subst, symbol) {
                    assert(below(v, first));
                    assert(goes_on(Seq::empty(), st.frames));
                    lemma_later_steps(m, rho, Seq::empty(), st.frames, first, v);
                }
            },
            CleaveLangV::Op(symbol, children) => {
                let a = rebuilt_first(nodes, id, children, children.len(), fwd, subst, st);
                if let Some(args) = a.values {
                    lemma_children_mean_terms(
                        m,
                        nodes,
                        id,
                        children,
                        children.len(),
                        fwd,
                        subst,
                        rho,
                        first,
                        st,
                    );
                    lemma_step_means_node(m, nodes, id, symbol, children, fwd, subst, rho, first, args, a.st);
                } else {
                    lemma_children_mean_terms(
                        m,
                        nodes,
                        id,
                        children,
                        children.len(),
                        fwd,
                        subst,
                        rho,
                        first,
                        st,
                    );
                }
            },
            _ => {},
        }
    }
}

/// The step that is made for a node, once its children have values.
proof fn lemma_step_means_node<V>(
    m: Meaning<V>,
    nodes: Seq<CleaveLangV>,
    id: usize,
    symbol: Seq<char>,
    children: Seq<usize>,
    fwd: ForwardV,
    subst: Map<u32, u32>,
    rho: Map<u32, V>,
    first: int,
    args: Seq<CValV>,
    st: RebuildV,
)
    requires
        id < nodes.len(),
        nodes[id as int] == CleaveLangV::Op(symbol, children),
        faithful(m, fwd, subst, rho, nodes, first, st),
        values_of(m, after_steps(m, rho, st.frames), args) == term_values(
            m,
            fwd,
            subst,
            rho,
            nodes,
            id as nat,
            children,
            children.len(),
        ),
        first + stepped(fwd, id, symbol, args, st).st.frames.len() <= u32::MAX,
    ensures
        faithful(m, fwd, subst, rho, nodes, first, stepped(fwd, id, symbol, args, st).st),
        stepped(fwd, id, symbol, args, st).value matches Some(v) ==> below(
            v,
            first + stepped(fwd, id, symbol, args, st).st.frames.len(),
        ) && value_of(
            m,
            after_steps(m, rho, stepped(fwd, id, symbol, args, st).st.frames),
            v,
        ) == term_value(m, fwd, subst, rho, nodes, id as nat),
{
    let r = stepped(fwd, id, symbol, args, st);
    if r.value is Some {
        let now = r.st.frames;
        assert(now.drop_last() =~= st.frames);
        assert(bound_by(now.last()) == first + st.frames.len());
        assert(goes_on(st.frames, now));
        assert forall|k: int| 0 <= k < now.len() implies bound_by(#[trigger] now[k]) == first
            + k by {
            if k < st.frames.len() {
                assert(now[k] == st.frames[k]);
            }
        }
        let v = r.value->Some_0;
        assert(value_of(m, after_steps(m, rho, now), v) == term_value(
            m,
            fwd,
            subst,
            rho,
            nodes,
            id as nat,
        ));
        assert forall|other: usize| #[trigger] r.st.memo.contains_key(other) implies below(
            r.st.memo[other],
            first + now.len(),
        ) && value_of(m, after_steps(m, rho, now), r.st.memo[other]) == term_value(
            m,
            fwd,
            subst,
            rho,
            nodes,
            other as nat,
        ) by {
            if other != id {
                assert(st.memo.contains_key(other));
                lemma_later_steps(m, rho, st.frames, now, first, st.memo[other]);
            }
        }
    }
}

proof fn lemma_children_mean_terms<V>(
    m: Meaning<V>,
    nodes: Seq<CleaveLangV>,
    id: usize,
    children: Seq<usize>,
    n: nat,
    fwd: ForwardV,
    subst: Map<u32, u32>,
    rho: Map<u32, V>,
    first: int,
    st: RebuildV,
)
    requires
        n <= children.len(),
        faithful(m, fwd, subst, rho, nodes, first, st),
        free_below(fwd, subst, first),
        first + rebuilt_first(nodes, id, children, n, fwd, subst, st).st.frames.len()
            <= u32::MAX,
    ensures
        faithful(
            m,
            fwd,
            subst,
            rho,
            nodes,
            first,
            rebuilt_first(nodes, id, children, n, fwd, subst, st).st,
        ),
        rebuilt_first(nodes, id, children, n, fwd, subst, st).values matches Some(vals) ==> (
        forall|k: int|
            0 <= k < vals.len() ==> below(
                #[trigger] vals[k],
                first + rebuilt_first(nodes, id, children, n, fwd, subst, st).st.frames.len(),
            )) && values_of(
            m,
            after_steps(
                m,
                rho,
                rebuilt_first(nodes, id, children, n, fwd, subst, st).st.frames,
            ),
            vals,
        ) == term_values(m, fwd, subst, rho, nodes, id as nat, children, n),
    decreases id, 0nat, n,
{
    let r = rebuilt_first(nodes, id, children, n, fwd, subst, st);
    if n > 0 {
        let before = rebuilt_first(nodes, id, children, (n - 1) as nat, fwd, subst, st);
        if before.values is Some && children[n - 1] < id {
            lemma_rebuilt_goes_on(nodes, children[n - 1], fwd, subst, before.st);
        }
        lemma_children_mean_terms(
            m,
            nodes,
            id,
            children,
            (n - 1) as nat,
            fwd,
            subst,
            rho,
            first,
            st,
        );
        if before.values is Some && children[n - 1] < id {
            let vals = before.values->Some_0;
            lemma_rebuilt_means_term(
                m,
                nodes,
                children[n - 1],
                fwd,
                subst,
                rho,
                first,
                before.st,
            );
            if r.values is Some {
                let all = r.values->Some_0;
                let now = after_steps(m, rho, r.st.frames);
                let earlier = after_steps(m, rho, before.st.frames);
                assert forall|k: int| 0 <= k < vals.len() implies value_of(m, now, vals[k])
                    == value_of(m, earlier, vals[k]) by {
                    lemma_later_steps(m, rho, before.st.frames, r.st.frames, first, vals[k]);
                }
                assert(values_of(m, now, all) =~= values_of(m, earlier, vals).push(
                    value_of(m, now, all.last()),
                ));
            }
        }
    } else {
        assert(values_of(m, after_steps(m, rho, st.frames), Seq::empty()) =~= Seq::empty());
    }
}

/// The steps leave the values of the variables below those that they bind.
pub proof fn lemma_steps_keep<V>(
    m: Meaning<V>,
    fwd: ForwardV,
    subst: Map<u32, u32>,
    rho: Map<u32, V>,
    nodes: Seq<CleaveLangV>,
    first: int,
    st: RebuildV,
    v: u32,
)
    requires
        faithful(m, fwd, subst, rho, nodes, first, st),
        v < first,
    ensures
        after_steps(m, rho, st.frames)[v] == rho[v],
{
    assert(goes_on(Seq::empty(), st.frames));
    lemma_later_steps(m, rho, Seq::empty(), st.frames, first, CValV::Var(v));
}

} // verus!
