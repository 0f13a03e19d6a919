//! What holds of what is known of classes of terms, and of the cost of terms.

use vstd::prelude::*;

use crate::lang::{
    abstract_op, agree, capped_sum, deps_of, folded_op, from_changed, made, marks_derivative,
    merged, node_cost, to_changed, CleaveLangV, FoldDataV, DERIVATIVE_PENALTY,
};
use crate::ty::TyV;

verus! {

/// Which of two agreeing classes is merged into which makes no difference.
pub proof fn lemma_merge_commutes(a: FoldDataV, b: FoldDataV)
    requires
        agree(a, b),
    ensures
        merged(a, b) == merged(b, a),
{
    assert(a.free_deps.intersect(b.free_deps) =~= b.free_deps.intersect(a.free_deps));
}

/// Merging a class with itself changes nothing, and says so.
pub proof fn lemma_merge_with_itself(a: FoldDataV)
    ensures
        merged(a, a) == a,
        !to_changed(a, a),
        !from_changed(a, a),
{
    assert(a.free_deps.intersect(a.free_deps) =~= a.free_deps);
}

/// A merged class may depend only on what both classes may depend on, and keeps the
/// integer that either of them equals.
pub proof fn lemma_merge_narrows(a: FoldDataV, b: FoldDataV)
    requires
        agree(a, b),
    ensures
        merged(a, b).free_deps.subset_of(a.free_deps),
        merged(a, b).free_deps.subset_of(b.free_deps),
        a.const_int is Some ==> merged(a, b).const_int == a.const_int,
        b.const_int is Some ==> merged(a, b).const_int == b.const_int,
{
}

/// Where merging is said not to have changed the first class, it did not.
pub proof fn lemma_to_unchanged(to: FoldDataV, from: FoldDataV)
    requires
        !to_changed(to, from),
    ensures
        merged(to, from) == to,
{
    assert(to.free_deps.intersect(from.free_deps) =~= to.free_deps);
}

/// Where merging is said not to have changed the second class, it did not, unless
/// only the first has a type.
pub proof fn lemma_from_unchanged(to: FoldDataV, from: FoldDataV)
    requires
        agree(to, from),
        !from_changed(to, from),
        to.own_ty is None || from.own_ty is Some,
    ensures
        merged(to, from) == from,
{
    assert(to.free_deps.intersect(from.free_deps) =~= from.free_deps);
}

/// Division is never folded.
pub proof fn lemma_division_not_folded(symbol: Seq<char>, args: Seq<Option<u64>>)
    requires
        abstract_op(symbol) == Some("div"@),
    ensures
        folded_op(symbol, args) is None,
{
    reveal_strlit("div");
    reveal_strlit("neg");
    assert("div"@[0] != "neg"@[0]);
}

/// An operation is not folded while an operand is not known.
pub proof fn lemma_unknown_not_folded(symbol: Seq<char>, args: Seq<Option<u64>>, i: int)
    requires
        0 <= i < args.len(),
        args[i] is None,
    ensures
        folded_op(symbol, args) is None,
{
}

/// A node may depend on a free value only if one of its children may, or if it is
/// that value.
pub proof fn lemma_deps_come_from_children(
    known: Map<Seq<char>, TyV>,
    node: CleaveLangV,
    children: Seq<FoldDataV>,
    symbol: Seq<char>,
)
    ensures
        made(known, node, children).free_deps.contains(symbol) <==> (match node {
            CleaveLangV::Op(_, _) => exists|i: int|
                0 <= i < children.len() && (#[trigger] children[i]).free_deps.contains(symbol),
            CleaveLangV::Free(s) => s == symbol,
            _ => false,
        }),
{
    lemma_deps_of(children, symbol);
}

proof fn lemma_deps_of(children: Seq<FoldDataV>, symbol: Seq<char>)
    ensures
        deps_of(children).contains(symbol) <==> exists|i: int|
            0 <= i < children.len() && (#[trigger] children[i]).free_deps.contains(symbol),
    decreases children.len(),
{
    if children.len() > 0 {
        let most = children.drop_last();
        lemma_deps_of(most, symbol);
        if deps_of(most).contains(symbol) {
            let i = choose|i: int|
                0 <= i < most.len() && (#[trigger] most[i]).free_deps.contains(symbol);
            assert(children[i].free_deps.contains(symbol));
        }
        if children.last().free_deps.contains(symbol) {
            assert(children[children.len() - 1].free_deps.contains(symbol));
        }
        if exists|i: int|
            0 <= i < children.len() && (#[trigger] children[i]).free_deps.contains(symbol) {
            let i = choose|i: int|
                0 <= i < children.len() && (#[trigger] children[i]).free_deps.contains(symbol);
            if i < most.len() {
                assert(most[i].free_deps.contains(symbol));
            }
        }
    }
}

proof fn lemma_capped_sum(start: nat, costs: Seq<usize>)
    requires
        start <= usize::MAX,
    ensures
        start <= capped_sum(start, costs) <= usize::MAX,
        forall|i: int| 0 <= i < costs.len() ==> #[trigger] costs[i] <= capped_sum(start, costs),
        start > 0 ==> forall|i: int|
            0 <= i < costs.len() ==> #[trigger] costs[i] < capped_sum(start, costs)
                || capped_sum(start, costs) == usize::MAX,
    decreases costs.len(),
{
    if costs.len() > 0 {
        let most = costs.drop_last();
        lemma_capped_sum(start, most);
        assert forall|i: int| 0 <= i < costs.len() implies #[trigger] costs[i] <= capped_sum(
            start,
            costs,
        ) by {
            if i < most.len() {
                assert(costs[i] == most[i]);
            }
        }
        assert forall|i: int| 0 <= i < costs.len() && start > 0 implies #[trigger] costs[i]
            < capped_sum(start, costs) || capped_sum(start, costs) == usize::MAX by {
            if i < most.len() {
                assert(costs[i] == most[i]);
            }
        }
    }
}

/// A node costs more than each of its children, unless the largest cost is reached.
pub proof fn lemma_cost_grows(node: CleaveLangV, costs: Seq<usize>, i: int)
    requires
        0 <= i < costs.len(),
    ensures
        costs[i] < node_cost(node, costs) || node_cost(node, costs) == usize::MAX,
{
    lemma_capped_sum(
        if marks_derivative(node) {
            1 + DERIVATIVE_PENALTY as nat
        } else {
            1
        },
        costs,
    );
}

/// A term that holds a marker of a derivative costs more than the penalty.
pub proof fn lemma_derivative_is_costly(node: CleaveLangV, costs: Seq<usize>)
    requires
        marks_derivative(node) || exists|i: int|
            0 <= i < costs.len() && #[trigger] costs[i] > DERIVATIVE_PENALTY,
    ensures
        node_cost(node, costs) > DERIVATIVE_PENALTY,
{
    lemma_capped_sum(
        if marks_derivative(node) {
            1 + DERIVATIVE_PENALTY as nat
        } else {
            1
        },
        costs,
    );
}

} // verus!
