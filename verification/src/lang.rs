//! The terms that a function body is turned into, and what is known of each.

use vstd::prelude::*;

use crate::const_eval::{binop_value, eval_binop, ConstValue};
use crate::listing::NameSet;
use crate::table::{dup_list, group_views, views, Dup, Table};
use crate::text;
use crate::text::{before_char, lemma_place_of_pair, place_of_pair};
use crate::ty::{Ty, TyV};
use crate::types::same_ty;

verus! {

broadcast use group_views;

/// A node of a term. A child is named by its place in the list of nodes.
#[derive(PartialEq, Eq, Debug)]
pub enum CleaveLang {
    Op(String, Vec<usize>),
    Int(u64),
    /// A floating-point number, by its bits.
    Float(u64),
    Bool(bool),
    /// A value that comes from outside the term.
    Free(String),
}

/// What a [`CleaveLang`] is, with texts and lists as sequences.
#[verifier::ext_equal]
pub enum CleaveLangV {
    Op(Seq<char>, Seq<usize>),
    Int(u64),
    Float(u64),
    Bool(bool),
    Free(Seq<char>),
}

impl View for CleaveLang {
    type V = CleaveLangV;

    open spec fn view(&self) -> CleaveLangV {
        match *self {
            CleaveLang::Op(sym, children) => CleaveLangV::Op(sym@, children@),
            CleaveLang::Int(n) => CleaveLangV::Int(n),
            CleaveLang::Float(n) => CleaveLangV::Float(n),
            CleaveLang::Bool(b) => CleaveLangV::Bool(b),
            CleaveLang::Free(sym) => CleaveLangV::Free(sym@),
        }
    }
}

/// A copy of a list of places.
pub fn dup_places(v: &Vec<usize>) -> (r: Vec<usize>)
    ensures
        r@ == v@,
{
    let r: Vec<usize> = dup_list(v);
    assert(views(r@) =~= r@);
    assert(views(v@) =~= v@);
    r
}

impl Dup for CleaveLang {
    fn dup(&self) -> (r: Self) {
        match self {
            CleaveLang::Op(sym, children) => CleaveLang::Op(sym.clone(), dup_places(children)),
            CleaveLang::Int(n) => CleaveLang::Int(*n),
            CleaveLang::Float(n) => CleaveLang::Float(*n),
            CleaveLang::Bool(b) => CleaveLang::Bool(*b),
            CleaveLang::Free(sym) => CleaveLang::Free(sym.clone()),
        }
    }
}

/// The name of the abstract operation that a symbol stands for: for a method of an
/// algebra the method, without its types; for a machine operation that adds or
/// multiplies, that.
pub open spec fn abstract_op(symbol: Seq<char>) -> Option<Seq<char>> {
    let i = place_of_pair(symbol, ':', 0);
    if i < symbol.len() {
        let method = symbol.subrange(i as int + 2, place_of_pair(symbol, ':', i + 2) as int);
        Some(before_char(method, '<'))
    } else {
        let op = before_char(symbol, ':');
        if op == "arith.addi"@ || op == "arith.addf"@ {
            Some("add"@)
        } else if op == "arith.muli"@ || op == "arith.mulf"@ {
            Some("mul"@)
        } else {
            None
        }
    }
}

/// A text or nothing, as a sequence.
pub open spec fn opt_text(t: Option<String>) -> Option<Seq<char>> {
    match t {
        Some(s) => Some(s@),
        None => None,
    }
}

/// The text before the first place that holds the character.
pub fn text_before_char(s: &str, c: char) -> (r: String)
    ensures
        r@ == before_char(s@, c),
{
    let chars: Vec<char> = text::chars_of(s);
    let end: usize = text::find_char(&chars, c, 0);
    s.substring_char(0, end).to_owned()
}

/// The name of the abstract operation that a symbol stands for.
pub fn abstract_op_name(symbol: &str) -> (r: Option<String>)
    ensures
        opt_text(r) == abstract_op(symbol@),
{
    let chars: Vec<char> = text::chars_of(symbol);
    let i: usize = text::find_pair(&chars, ':', 0);
    proof {
        lemma_place_of_pair(symbol@, ':', 0);
    }
    if i < chars.len() {
        let end: usize = text::find_pair(&chars, ':', i + 2);
        let method = symbol.substring_char(i + 2, end);
        Some(text_before_char(method, '<'))
    } else {
        let op: String = text_before_char(symbol, ':');
        if text::same(op.as_str(), "arith.addi") || text::same(op.as_str(), "arith.addf") {
            Some("add".to_owned())
        } else if text::same(op.as_str(), "arith.muli") || text::same(op.as_str(), "arith.mulf") {
            Some("mul".to_owned())
        } else {
            None
        }
    }
}

/// What is known of a class of equal terms.
#[derive(Debug)]
pub struct FoldData {
    /// The integer that its terms equal.
    pub const_int: Option<u64>,
    /// The free values that its value may depend on.
    pub free_deps: NameSet,
    pub own_ty: Option<Ty>,
}

/// What a [`FoldData`] is.
#[verifier::ext_equal]
pub struct FoldDataV {
    pub const_int: Option<u64>,
    pub free_deps: Set<Seq<char>>,
    pub own_ty: Option<TyV>,
}

/// A type or nothing, by its view.
pub open spec fn opt_ty(t: Option<Ty>) -> Option<TyV> {
    match t {
        Some(ty) => Some(ty@),
        None => None,
    }
}

impl View for FoldData {
    type V = FoldDataV;

    open spec fn view(&self) -> FoldDataV {
        FoldDataV {
            const_int: self.const_int,
            free_deps: self.free_deps@,
            own_ty: opt_ty(self.own_ty),
        }
    }
}

/// The integer that an operation on integers gives. Division is left alone: the
/// operands do not say whether they are signed.
pub open spec fn folded_op(symbol: Seq<char>, args: Seq<Option<u64>>) -> Option<u64> {
    match abstract_op(symbol) {
        None => None,
        Some(name) => if args.len() == 1 && name == "neg"@ {
            match args[0] {
                Some(a) => Some(0u64.wrapping_sub(a)),
                None => None,
            }
        } else if args.len() == 2 && name != "div"@ {
            match (args[0], args[1]) {
                (Some(a), Some(b)) => match binop_value(name, ConstValue::Int(a), ConstValue::Int(b)) {
                    Some(ConstValue::Int(n)) => Some(n),
                    _ => None,
                },
                _ => None,
            }
        } else {
            None
        },
    }
}

/// The integers that the classes equal.
pub open spec fn ints_of(children: Seq<FoldDataV>) -> Seq<Option<u64>> {
    Seq::new(children.len(), |i: int| children[i].const_int)
}

/// The free values that some class may depend on.
pub open spec fn deps_of(children: Seq<FoldDataV>) -> Set<Seq<char>>
    decreases children.len(),
{
    if children.len() == 0 {
        Set::empty()
    } else {
        deps_of(children.drop_last()).union(children.last().free_deps)
    }
}

/// The type that is known for a symbol.
pub open spec fn type_of(known: Map<Seq<char>, TyV>, symbol: Seq<char>) -> Option<TyV> {
    if known.contains_key(symbol) {
        Some(known[symbol])
    } else {
        None
    }
}

/// What is known of a node from what is known of its children.
pub open spec fn made(
    known: Map<Seq<char>, TyV>,
    node: CleaveLangV,
    children: Seq<FoldDataV>,
) -> FoldDataV {
    match node {
        CleaveLangV::Op(symbol, _) => FoldDataV {
            const_int: folded_op(symbol, ints_of(children)),
            free_deps: deps_of(children),
            own_ty: type_of(known, symbol),
        },
        CleaveLangV::Int(n) => FoldDataV {
            const_int: Some(n),
            free_deps: Set::empty(),
            own_ty: None,
        },
        CleaveLangV::Free(symbol) => FoldDataV {
            const_int: None,
            free_deps: set![symbol],
            own_ty: type_of(known, symbol),
        },
        _ => FoldDataV { const_int: None, free_deps: Set::empty(), own_ty: None },
    }
}

/// Whether what is known of two classes allows that they are the same: they do not
/// equal different integers.
pub open spec fn agree(to: FoldDataV, from: FoldDataV) -> bool {
    match (to.const_int, from.const_int) {
        (Some(a), Some(b)) => a == b,
        _ => true,
    }
}

/// What is known of a class that two classes have become. A value that two terms
/// have depends on no free value that one of them does not mention.
pub open spec fn merged(to: FoldDataV, from: FoldDataV) -> FoldDataV {
    FoldDataV {
        const_int: if to.const_int is Some {
            to.const_int
        } else {
            from.const_int
        },
        free_deps: to.free_deps.intersect(from.free_deps),
        own_ty: match (to.own_ty, from.own_ty) {
            (Some(a), Some(b)) => if a == b {
                Some(a)
            } else {
                None
            },
            (Some(a), None) => Some(a),
            (None, t) => t,
        },
    }
}

/// Whether merging changed what the first class is known by. The type counts only
/// where the first class gained one or the two disagreed.
pub open spec fn to_changed(to: FoldDataV, from: FoldDataV) -> bool {
    ||| to.const_int is None && from.const_int is Some
    ||| !to.free_deps.subset_of(from.free_deps)
    ||| match (to.own_ty, from.own_ty) {
        (Some(a), Some(b)) => a != b,
        (None, Some(_)) => true,
        _ => false,
    }
}

/// Whether merging changed what the second class is known by. That it lacked a type
/// does not count.
pub open spec fn from_changed(to: FoldDataV, from: FoldDataV) -> bool {
    ||| to.const_int is Some && from.const_int is None
    ||| !from.free_deps.subset_of(to.free_deps)
    ||| match (to.own_ty, from.own_ty) {
        (Some(a), Some(b)) => a != b,
        _ => false,
    }
}

/// The analysis that folds integers and keeps types and dependencies.
pub struct ConstantFold {
    /// The types of symbols.
    pub known_types: Table<String, Ty>,
}

fn find_type(known: &Table<String, Ty>, symbol: &String) -> (r: Option<Ty>)
    ensures
        opt_ty(r) == type_of(known@, symbol@),
{
    match known.get(symbol) {
        Some(t) => Some(t.dup()),
        None => None,
    }
}

/// The integer that an operation on the classes gives.
fn fold_op(symbol: &String, children: &Vec<FoldData>) -> (r: Option<u64>)
    ensures
        r == folded_op(symbol@, ints_of(views(children@))),
{
    let ghost args = ints_of(views(children@));
    let name: String = match abstract_op_name(symbol.as_str()) {
        None => {
            return None;
        },
        Some(name) => name,
    };
    if children.len() == 1 && text::same(name.as_str(), "neg") {
        proof {
            reveal_strlit("add");
            reveal_strlit("sub");
            assert("add"@[0] != "sub"@[0]);
        }
        assert(args[0] == children@[0].const_int);
        match children[0].const_int {
            None => None,
            Some(a) => match eval_binop("sub", ConstValue::Int(0), ConstValue::Int(a)) {
                Some(ConstValue::Int(n)) => Some(n),
                _ => None,
            },
        }
    } else if children.len() == 2 && !text::same(name.as_str(), "div") {
        assert(args[0] == children@[0].const_int);
        assert(args[1] == children@[1].const_int);
        match (children[0].const_int, children[1].const_int) {
            (Some(a), Some(b)) => match eval_binop(
                name.as_str(),
                ConstValue::Int(a),
                ConstValue::Int(b),
            ) {
                Some(ConstValue::Int(n)) => Some(n),
                _ => None,
            },
            _ => None,
        }
    } else {
        None
    }
}

impl ConstantFold {
    /// What is known of a node. `children` says what is known of each of its
    /// children.
    pub fn make(&self, enode: &CleaveLang, children: &Vec<FoldData>) -> (r: FoldData)
        ensures
            r@ == made(self.known_types@, enode@, views(children@)),
    {
        match enode {
            CleaveLang::Op(symbol, _) => {
                let const_int: Option<u64> = fold_op(symbol, children);
                let mut free_deps: NameSet = NameSet::new();
                let mut i: usize = 0;
                let ghost all = views(children@);
                assert(all.subrange(0, 0) =~= Seq::<FoldDataV>::empty());
                while i < children.len()
                    invariant
                        i <= children.len(),
                        all == views(children@),
                        free_deps@ == deps_of(all.subrange(0, i as int)),
                    decreases children.len() - i,
                {
                    free_deps.add_names(&children[i].free_deps);
                    i = i + 1;
                    proof {
                        let now = all.subrange(0, i as int);
                        assert(now.drop_last() =~= all.subrange(0, i - 1));
                        assert(now.last() == children@[i - 1]@);
                    }
                }
                assert(all.subrange(0, i as int) =~= all);
                FoldData { const_int, free_deps, own_ty: find_type(&self.known_types, symbol) }
            },
            CleaveLang::Int(n) => FoldData {
                const_int: Some(*n),
                free_deps: NameSet::new(),
                own_ty: None,
            },
            CleaveLang::Free(symbol) => {
                let mut free_deps: NameSet = NameSet::new();
                free_deps.add_name(symbol);
                assert(free_deps@ =~= set![symbol@]);
                FoldData { const_int: None, free_deps, own_ty: find_type(&self.known_types, symbol) }
            },
            _ => FoldData { const_int: None, free_deps: NameSet::new(), own_ty: None },
        }
    }

    /// Puts into `to` what is known of the class that the two have become, and says
    /// whether each of the two changed.
    pub fn merge(&self, to: &mut FoldData, from: FoldData) -> (r: (bool, bool))
        requires
            agree(old(to)@, from@),
        ensures
            final(to)@ == merged(old(to)@, from@),
            r == (to_changed(old(to)@, from@), from_changed(old(to)@, from@)),
    {
        let mut to_did: bool = false;
        let mut from_did: bool = false;
        match (to.const_int, from.const_int) {
            (None, Some(n)) => {
                to.const_int = Some(n);
                to_did = true;
            },
            (Some(_), None) => {
                from_did = true;
            },
            _ => {},
        }
        if !to.free_deps.within(&from.free_deps) {
            to_did = true;
        }
        if !from.free_deps.within(&to.free_deps) {
            from_did = true;
        }
        let common: NameSet = to.free_deps.common(&from.free_deps);
        to.free_deps = common;
        let differ: bool = match (&to.own_ty, &from.own_ty) {
            (Some(a), Some(b)) => !same_ty(a, b),
            _ => false,
        };
        if differ {
            to.own_ty = None;
            to_did = true;
            from_did = true;
        } else if to.own_ty.is_none() && from.own_ty.is_some() {
            to.own_ty = from.own_ty;
            to_did = true;
        }
        (to_did, from_did)
    }
}

/// What each further marker of a derivative that is left in a term costs.
pub const DERIVATIVE_PENALTY: usize = 1_000_000;

/// The cost that keeps markers of derivatives out of terms.
pub struct DerivativeFreeCost;

/// A sum that stays at the largest number once it is reached.
pub open spec fn capped_sum(start: nat, costs: Seq<usize>) -> nat
    decreases costs.len(),
{
    let sum = if costs.len() == 0 {
        start
    } else {
        capped_sum(start, costs.drop_last()) + costs.last() as nat
    };
    if sum > usize::MAX {
        usize::MAX as nat
    } else {
        sum
    }
}

/// Whether a node marks a derivative.
pub open spec fn marks_derivative(node: CleaveLangV) -> bool {
    node matches CleaveLangV::Op(symbol, _) && symbol == "derivative"@
}

/// What a node costs, with what its children cost.
pub open spec fn node_cost(node: CleaveLangV, costs: Seq<usize>) -> nat {
    capped_sum(
        if marks_derivative(node) {
            1 + DERIVATIVE_PENALTY as nat
        } else {
            1
        },
        costs,
    )
}

/// Whether a node marks a derivative.
pub fn is_derivative(node: &CleaveLang) -> (r: bool)
    ensures
        r == marks_derivative(node@),
{
    match node {
        CleaveLang::Op(symbol, _) => text::same(symbol.as_str(), "derivative"),
        _ => false,
    }
}

impl DerivativeFreeCost {
    /// What a node costs. `costs` says what each of its children costs.
    pub fn cost(&self, enode: &CleaveLang, costs: &Vec<usize>) -> (r: usize)
        ensures
            r == node_cost(enode@, costs@),
    {
        let start: usize = if is_derivative(enode) { 1 + DERIVATIVE_PENALTY } else { 1 };
        let mut sum: usize = start;
        let mut i: usize = 0;
        assert(costs@.subrange(0, 0) =~= Seq::<usize>::empty());
        while i < costs.len()
            invariant
                i <= costs.len(),
                sum == capped_sum(start as nat, costs@.subrange(0, i as int)),
            decreases costs.len() - i,
        {
            sum = match sum.checked_add(costs[i]) {
                Some(n) => n,
                None => usize::MAX,
            };
            i = i + 1;
            proof {
                let now = costs@.subrange(0, i as int);
                assert(now.drop_last() =~= costs@.subrange(0, i - 1));
                assert(now.last() == costs@[i - 1]);
            }
        }
        assert(costs@.subrange(0, i as int) =~= costs@);
        sum
    }
}

/// The name under which a node that no rule differentiates is reported.
pub open spec fn reported_name(best: Seq<CleaveLangV>, children: Seq<usize>) -> Seq<char> {
    if children.len() > 0 && children[0] < best.len() {
        match best[children[0] as int] {
            CleaveLangV::Op(symbol, _) => symbol,
            _ => "<unknown>"@,
        }
    } else {
        "<unknown>"@
    }
}

/// The name of what the first marker of a derivative at or after `i` is applied to.
pub open spec fn undifferentiable_from(best: Seq<CleaveLangV>, i: nat) -> Option<Seq<char>>
    decreases best.len() - i,
{
    if i >= best.len() {
        None
    } else if marks_derivative(best[i as int]) {
        Some(reported_name(best, best[i as int]->Op_1))
    } else {
        undifferentiable_from(best, i + 1)
    }
}

/// The name of what the first marker of a derivative in a term is applied to.
pub fn undifferentiable_unit(best: &Vec<CleaveLang>) -> (r: Option<String>)
    ensures
        opt_text(r) == undifferentiable_from(views(best@), 0),
{
    let mut i: usize = 0;
    let ghost all = views(best@);
    while i < best.len()
        invariant
            i <= best.len(),
            all == views(best@),
            undifferentiable_from(all, 0) == undifferentiable_from(all, i as nat),
        decreases best.len() - i,
    {
        assert(all[i as int] == best@[i as int]@);
        if is_derivative(&best[i]) {
            if let CleaveLang::Op(_, children) = &best[i] {
                if children.len() > 0 && children[0] < best.len() {
                    let inner: usize = children[0];
                    assert(all[inner as int] == best@[inner as int]@);
                    if let CleaveLang::Op(symbol, _) = &best[inner] {
                        return Some(symbol.clone());
                    }
                }
                return Some("<unknown>".to_owned());
            }
        }
        i = i + 1;
    }
    None
}

/// The term with a node at its root, written out as a tree.
#[verifier::ext_equal]
pub enum TermV {
    Op(Seq<char>, Seq<TermV>),
    Leaf(CleaveLangV),
    /// A child that does not come before its parent.
    Missing,
}

/// The term whose root is the node at a place.
pub open spec fn term_at(nodes: Seq<CleaveLangV>, i: nat) -> TermV
    decreases i, 1nat, 0nat,
{
    if i >= nodes.len() {
        TermV::Missing
    } else {
        match nodes[i as int] {
            CleaveLangV::Op(symbol, children) => TermV::Op(
                symbol,
                terms_at(nodes, i, children, children.len()),
            ),
            leaf => TermV::Leaf(leaf),
        }
    }
}

/// The terms of the first `n` children of the node at `parent`.
pub open spec fn terms_at(nodes: Seq<CleaveLangV>, parent: nat, children: Seq<usize>, n: nat) -> Seq<
    TermV,
>
    decreases parent, 0nat, n,
{
    if n == 0 || n > children.len() {
        Seq::empty()
    } else {
        let child = children[n - 1] as nat;
        terms_at(nodes, parent, children, (n - 1) as nat).push(
            if child < parent {
                term_at(nodes, child)
            } else {
                TermV::Missing
            },
        )
    }
}

pub proof fn lemma_terms_len(nodes: Seq<CleaveLangV>, parent: nat, children: Seq<usize>, n: nat)
    requires
        n <= children.len(),
    ensures
        terms_at(nodes, parent, children, n).len() == n,
    decreases n,
{
    if n > 0 {
        lemma_terms_len(nodes, parent, children, (n - 1) as nat);
    }
}

/// Whether two nodes are the same leaf.
fn same_leaf(a: &CleaveLang, b: &CleaveLang) -> (r: bool)
    requires
        !(a is Op) || !(b is Op),
    ensures
        r == (a@ == b@),
{
    match (a, b) {
        (CleaveLang::Int(x), CleaveLang::Int(y)) => *x == *y,
        (CleaveLang::Float(x), CleaveLang::Float(y)) => *x == *y,
        (CleaveLang::Bool(x), CleaveLang::Bool(y)) => *x == *y,
        (CleaveLang::Free(x), CleaveLang::Free(y)) => *x == *y,
        _ => false,
    }
}

/// Whether the terms at two places of two lists are the same.
pub fn same_term(a: &Vec<CleaveLang>, i: usize, b: &Vec<CleaveLang>, j: usize) -> (r: bool)
    ensures
        r == (term_at(views(a@), i as nat) == term_at(views(b@), j as nat)),
    decreases i, 1nat,
{
    let ghost va = views(a@);
    let ghost vb = views(b@);
    if i >= a.len() || j >= b.len() {
        return i >= a.len() && j >= b.len();
    }
    assert(va[i as int] == a@[i as int]@);
    assert(vb[j as int] == b@[j as int]@);
    match (&a[i], &b[j]) {
        (CleaveLang::Op(x, xs), CleaveLang::Op(y, ys)) => {
            proof {
                lemma_terms_len(va, i as nat, xs@, xs@.len());
                lemma_terms_len(vb, j as nat, ys@, ys@.len());
            }
            *x == *y && xs.len() == ys.len() && same_children(a, i, xs, b, j, ys)
        },
        (x, y) => same_leaf(x, y),
    }
}

fn same_children(
    a: &Vec<CleaveLang>,
    i: usize,
    xs: &Vec<usize>,
    b: &Vec<CleaveLang>,
    j: usize,
    ys: &Vec<usize>,
) -> (r: bool)
    requires
        xs@.len() == ys@.len(),
    ensures
        r == (terms_at(views(a@), i as nat, xs@, xs@.len()) == terms_at(
            views(b@),
            j as nat,
            ys@,
            ys@.len(),
        )),
    decreases i, 0nat,
{
    let ghost va = views(a@);
    let ghost vb = views(b@);
    let mut k: usize = 0;
    let mut equal: bool = true;
    while k < xs.len()
        invariant
            k <= xs.len(),
            xs@.len() == ys@.len(),
            va == views(a@),
            vb == views(b@),
            equal == (terms_at(va, i as nat, xs@, k as nat) == terms_at(
                vb,
                j as nat,
                ys@,
                k as nat,
            )),
        decreases xs.len() - k,
    {
        let x: usize = xs[k];
        let y: usize = ys[k];
        let ghost before_a = terms_at(va, i as nat, xs@, k as nat);
        let ghost before_b = terms_at(vb, j as nat, ys@, k as nat);
        let here: bool = if x < i && y < j {
            same_term(a, x, b, y)
        } else if x < i {
            is_missing(a, x)
        } else if y < j {
            is_missing(b, y)
        } else {
            true
        };
        equal = equal && here;
        k = k + 1;
        proof {
            lemma_terms_len(va, i as nat, xs@, (k - 1) as nat);
            lemma_terms_len(vb, j as nat, ys@, (k - 1) as nat);
            let now_a = terms_at(va, i as nat, xs@, k as nat);
            let now_b = terms_at(vb, j as nat, ys@, k as nat);
            if now_a == now_b {
                assert(before_a =~= now_a.drop_last());
                assert(before_b =~= now_b.drop_last());
                assert(now_a.last() == now_b.last());
            }
        }
    }
    equal
}

fn is_missing(nodes: &Vec<CleaveLang>, i: usize) -> (r: bool)
    ensures
        r == (term_at(views(nodes@), i as nat) is Missing),
        r == (term_at(views(nodes@), i as nat) == TermV::Missing),
{
    i >= nodes.len()
}

} // verus!
