//! Which struct values outlive a jump.
//!
//! A value that a struct construction binds is a *slot* when it is live at some
//! jump that follows its binding, and a *temporary* otherwise. Live at a jump are
//! the variables that the jump mentions and, for each local continuation that it
//! mentions, what that continuation uses of its surroundings, itself or through
//! the continuations that it jumps to.

use std::collections::HashSet;

use vstd::prelude::*;

use crate::cps::{CExpr, CFunDef, CVal, CVar, CpsProgram, PrimOp};
use crate::cps::{group_cps, lemma_cexpr_view, CExprV, CFunDefV, CTopLevelFnV, CValV};
use crate::listing::NameSet;
use crate::table::{group_views, holds_name, views, Table};
use crate::vars::{referenced_in, referenced_in_first, VarSet};

verus! {

broadcast use {group_views, group_cps};

/// The variables that an expression binds, at any depth.
pub open spec fn bound_in(e: CExprV) -> Set<u32>
    decreases e, 0nat,
{
    match e {
        CExprV::LetPrim { var, cont, .. } => bound_in(*cont).insert(var),
        CExprV::App { .. } => Set::empty(),
        CExprV::If { then_branch, else_branch, .. } => bound_in(*then_branch).union(
            bound_in(*else_branch),
        ),
        CExprV::Fix { defs, body } => bound_in_first(defs, defs.len()).union(bound_in(*body)),
    }
}

/// The variables that the first `n` continuations bind, parameters included.
pub open spec fn bound_in_first(defs: Seq<CFunDefV>, n: nat) -> Set<u32>
    decreases defs, n,
{
    if n == 0 || n > defs.len() {
        Set::empty()
    } else {
        bound_in_first(defs, (n - 1) as nat).union(defs[n - 1].params.to_set()).union(
            bound_in(defs[n - 1].body),
        )
    }
}

/// The labels that an expression jumps to, at any depth.
pub open spec fn called_in(e: CExprV) -> Set<Seq<char>>
    decreases e, 0nat,
{
    match e {
        CExprV::LetPrim { cont, .. } => called_in(*cont),
        CExprV::App { func, .. } => match func {
            CValV::Label(name) => set![name],
            _ => Set::empty(),
        },
        CExprV::If { then_branch, else_branch, .. } => called_in(*then_branch).union(
            called_in(*else_branch),
        ),
        CExprV::Fix { defs, body } => called_in_first(defs, defs.len()).union(called_in(*body)),
    }
}

pub open spec fn called_in_first(defs: Seq<CFunDefV>, n: nat) -> Set<Seq<char>>
    decreases defs, n,
{
    if n == 0 || n > defs.len() {
        Set::empty()
    } else {
        called_in_first(defs, (n - 1) as nat).union(called_in(defs[n - 1].body))
    }
}

/// What a continuation itself uses of its surroundings.
pub open spec fn own_free(d: CFunDefV) -> Set<u32> {
    referenced_in(d.body).difference(d.params.to_set().union(bound_in(d.body)))
}

/// What is known of the continuations of a function.
#[verifier::ext_equal]
pub struct LocalsV {
    /// What each uses of its surroundings.
    pub free: Map<Seq<char>, Set<u32>>,
    /// The labels that each jumps to.
    pub calls: Map<Seq<char>, Set<Seq<char>>>,
}

/// `st` with the continuations of an expression noted, an inner one after the one
/// that holds it; a later one hides an earlier one of the same name.
pub open spec fn locals_in(e: CExprV, st: LocalsV) -> LocalsV
    decreases e, 0nat,
{
    match e {
        CExprV::LetPrim { cont, .. } => locals_in(*cont, st),
        CExprV::App { .. } => st,
        CExprV::If { then_branch, else_branch, .. } => locals_in(
            *else_branch,
            locals_in(*then_branch, st),
        ),
        CExprV::Fix { defs, body } => locals_in(*body, locals_in_first(defs, defs.len(), st)),
    }
}

pub open spec fn locals_in_first(defs: Seq<CFunDefV>, n: nat, st: LocalsV) -> LocalsV
    decreases defs, n,
{
    if n == 0 || n > defs.len() {
        st
    } else {
        let before = locals_in_first(defs, (n - 1) as nat, st);
        let d = defs[n - 1];
        locals_in(
            d.body,
            LocalsV {
                free: before.free.insert(d.name, own_free(d)),
                calls: before.calls.insert(d.name, called_in(d.body)),
            },
        )
    }
}

/// Whether continuation `a` jumps to the known continuation `b`.
pub open spec fn jumps_to(st: LocalsV, a: Seq<char>, b: Seq<char>) -> bool {
    st.calls.contains_key(a) && st.calls[a].contains(b) && st.free.contains_key(b)
}

/// Whether `p` is a chain of jumps that starts at `from`.
pub open spec fn jump_path(st: LocalsV, from: Seq<char>, p: Seq<Seq<char>>) -> bool {
    &&& p.len() > 0
    &&& p[0] == from
    &&& forall|i: int| 0 <= i < p.len() - 1 ==> #[trigger] jumps_to(st, p[i], p[i + 1])
}

/// Whether some chain of jumps from `from` ends at `to`.
pub open spec fn leads_to(st: LocalsV, from: Seq<char>, to: Seq<char>) -> bool {
    exists|p: Seq<Seq<char>>| #[trigger] jump_path(st, from, p) && p.last() == to
}

/// What a continuation uses of its surroundings, itself or through the
/// continuations that its jumps lead to.
pub open spec fn used_through(st: LocalsV, name: Seq<char>) -> Set<u32> {
    Set::new(
        |v: u32|
            exists|to: Seq<char>| #[trigger]
                leads_to(st, name, to) && st.free.contains_key(to) && st.free[to].contains(v),
    )
}

/// What each known continuation uses of its surroundings, jumps included.
pub open spec fn settled_free(st: LocalsV) -> Map<Seq<char>, Set<u32>> {
    Map::new(|n: Seq<char>| st.free.contains_key(n), |n: Seq<char>| used_through(st, n))
}

pub open spec fn no_locals() -> LocalsV {
    LocalsV { free: Map::empty(), calls: Map::empty() }
}

/// What each continuation of a function uses of its surroundings.
pub open spec fn free_of_locals(body: CExprV) -> Map<Seq<char>, Set<u32>> {
    settled_free(locals_in(body, no_locals()))
}

/// Whether a variable is live where a value is mentioned in a jump.
pub open spec fn live_through(v: u32, val: CValV, free: Map<Seq<char>, Set<u32>>) -> bool {
    match val {
        CValV::Var(x) => x == v,
        CValV::Label(name) => free.contains_key(name) && free[name].contains(v),
        _ => false,
    }
}

/// Whether a variable is live at a jump.
pub open spec fn live_at(
    v: u32,
    func: CValV,
    args: Seq<CValV>,
    free: Map<Seq<char>, Set<u32>>,
) -> bool {
    live_through(v, func, free) || exists|i: int|
        0 <= i < args.len() && live_through(v, #[trigger] args[i], free)
}

/// Whether a variable is live at some jump of an expression.
pub open spec fn live_at_any_app(v: u32, e: CExprV, free: Map<Seq<char>, Set<u32>>) -> bool
    decreases e, 0nat,
{
    match e {
        CExprV::App { func, args } => live_at(v, func, args, free),
        CExprV::LetPrim { cont, .. } => live_at_any_app(v, *cont, free),
        CExprV::If { then_branch, else_branch, .. } => live_at_any_app(v, *then_branch, free)
            || live_at_any_app(v, *else_branch, free),
        CExprV::Fix { defs, body } => live_in_first(v, defs, defs.len(), free) || live_at_any_app(
            v,
            *body,
            free,
        ),
    }
}

pub open spec fn live_in_first(
    v: u32,
    defs: Seq<CFunDefV>,
    n: nat,
    free: Map<Seq<char>, Set<u32>>,
) -> bool
    decreases defs, n,
{
    n > 0 && n <= defs.len() && (live_in_first(v, defs, (n - 1) as nat, free) || live_at_any_app(
        v,
        defs[n - 1].body,
        free,
    ))
}

/// The variables that a struct construction in the expression binds and that are
/// live at some jump after it.
pub open spec fn escaping_in(e: CExprV, free: Map<Seq<char>, Set<u32>>) -> Set<u32>
    decreases e, 0nat,
{
    match e {
        CExprV::LetPrim { var, op, cont, .. } => if op is Struct && live_at_any_app(
            var,
            *cont,
            free,
        ) {
            escaping_in(*cont, free).insert(var)
        } else {
            escaping_in(*cont, free)
        },
        CExprV::App { .. } => Set::empty(),
        CExprV::If { then_branch, else_branch, .. } => escaping_in(*then_branch, free).union(
            escaping_in(*else_branch, free),
        ),
        CExprV::Fix { defs, body } => escaping_in_first(defs, defs.len(), free).union(
            escaping_in(*body, free),
        ),
    }
}

pub open spec fn escaping_in_first(
    defs: Seq<CFunDefV>,
    n: nat,
    free: Map<Seq<char>, Set<u32>>,
) -> Set<u32>
    decreases defs, n,
{
    if n == 0 || n > defs.len() {
        Set::empty()
    } else {
        escaping_in_first(defs, (n - 1) as nat, free).union(escaping_in(defs[n - 1].body, free))
    }
}

/// The variables of the functions that escape.
pub open spec fn escaping_of(funcs: Seq<CTopLevelFnV>) -> Set<u32>
    decreases funcs.len(),
{
    if funcs.len() == 0 {
        Set::empty()
    } else {
        let body = funcs.last().def.body;
        escaping_of(funcs.drop_last()).union(escaping_in(body, free_of_locals(body)))
    }
}

/// Notes what an expression binds, uses and jumps to.
fn collect_bound_and_referenced_in(
    expr: &CExpr,
    bound: &mut VarSet,
    referenced: &mut VarSet,
    func_labels: &mut NameSet,
)
    ensures
        final(bound)@ == old(bound)@.union(bound_in(expr@)),
        final(referenced)@ == old(referenced)@.union(referenced_in(expr@)),
        final(func_labels)@ == old(func_labels)@.union(called_in(expr@)),
    decreases expr, 0nat,
{
    proof {
        lemma_cexpr_view(*expr);
    }
    match expr {
        CExpr::LetPrim { var, args, cont, .. } => {
            bound.add_var(*var);
            referenced.add_vars_of(args);
            collect_bound_and_referenced_in(cont, bound, referenced, func_labels);
        },
        CExpr::App { func, args } => {
            referenced.add_value(func);
            if let CVal::Label(name) = func {
                func_labels.add_name(name);
            }
            referenced.add_vars_of(args);
        },
        CExpr::If { cond, then_branch, else_branch } => {
            referenced.add_value(cond);
            collect_bound_and_referenced_in(then_branch, bound, referenced, func_labels);
            collect_bound_and_referenced_in(else_branch, bound, referenced, func_labels);
        },
        CExpr::Fix { defs, body } => {
            collect_in_defs(defs, bound, referenced, func_labels);
            collect_bound_and_referenced_in(body, bound, referenced, func_labels);
        },
    }
    assert(bound@ =~= old(bound)@.union(bound_in(expr@)));
    assert(referenced@ =~= old(referenced)@.union(referenced_in(expr@)));
    assert(func_labels@ =~= old(func_labels)@.union(called_in(expr@)));
}

fn collect_in_defs(
    defs: &Vec<CFunDef>,
    bound: &mut VarSet,
    referenced: &mut VarSet,
    func_labels: &mut NameSet,
)
    ensures
        final(bound)@ == old(bound)@.union(bound_in_first(views(defs@), defs@.len())),
        final(referenced)@ == old(referenced)@.union(
            referenced_in_first(views(defs@), defs@.len()),
        ),
        final(func_labels)@ == old(func_labels)@.union(called_in_first(views(defs@), defs@.len())),
    decreases defs, 0nat,
{
    let mut i: usize = 0;
    let ghost all = views(defs@);
    assert(old(bound)@.union(bound_in_first(all, 0)) =~= old(bound)@);
    assert(old(referenced)@.union(referenced_in_first(all, 0)) =~= old(referenced)@);
    assert(old(func_labels)@.union(called_in_first(all, 0)) =~= old(func_labels)@);
    while i < defs.len()
        invariant
            i <= defs.len(),
            all == views(defs@),
            bound@ == old(bound)@.union(bound_in_first(all, i as nat)),
            referenced@ == old(referenced)@.union(referenced_in_first(all, i as nat)),
            func_labels@ == old(func_labels)@.union(called_in_first(all, i as nat)),
        decreases defs.len() - i,
    {
        let d = &defs[i];
        bound.add_list(&d.params);
        collect_bound_and_referenced_in(&d.body, bound, referenced, func_labels);
        i = i + 1;
        proof {
            assert(all[i - 1] == d@);
            assert(bound@ =~= old(bound)@.union(bound_in_first(all, i as nat)));
            assert(referenced@ =~= old(referenced)@.union(referenced_in_first(all, i as nat)));
            assert(func_labels@ =~= old(func_labels)@.union(called_in_first(all, i as nat)));
        }
    }
}

/// What is known of the continuations of a function.
struct Locals {
    free: Table<String, VarSet>,
    calls: Table<String, NameSet>,
}

impl View for Locals {
    type V = LocalsV;

    closed spec fn view(&self) -> LocalsV {
        LocalsV { free: self.free@, calls: self.calls@ }
    }
}

/// Notes the continuations of an expression.
fn walk_local_free_vars_in(expr: &CExpr, locals: &mut Locals)
    ensures
        final(locals)@ == locals_in(expr@, old(locals)@),
    decreases expr, 0nat,
{
    proof {
        lemma_cexpr_view(*expr);
    }
    match expr {
        CExpr::LetPrim { cont, .. } => walk_local_free_vars_in(cont, locals),
        CExpr::App { .. } => {},
        CExpr::If { then_branch, else_branch, .. } => {
            walk_local_free_vars_in(then_branch, locals);
            walk_local_free_vars_in(else_branch, locals);
        },
        CExpr::Fix { defs, body } => {
            walk_defs(defs, locals);
            walk_local_free_vars_in(body, locals);
        },
    }
}

fn walk_defs(defs: &Vec<CFunDef>, locals: &mut Locals)
    ensures
        final(locals)@ == locals_in_first(views(defs@), defs@.len(), old(locals)@),
    decreases defs, 0nat,
{
    let mut i: usize = 0;
    let ghost all = views(defs@);
    while i < defs.len()
        invariant
            i <= defs.len(),
            all == views(defs@),
            locals@ == locals_in_first(all, i as nat, old(locals)@),
        decreases defs.len() - i,
    {
        let d = &defs[i];
        let mut bound: VarSet = VarSet::new();
        bound.add_list(&d.params);
        let mut referenced: VarSet = VarSet::new();
        let mut labels: NameSet = NameSet::new();
        collect_bound_and_referenced_in(&d.body, &mut bound, &mut referenced, &mut labels);
        proof {
            assert(bound@ =~= d.params@.to_set().union(bound_in(d.body@)));
            assert(referenced@ =~= referenced_in(d.body@));
            assert(labels@ =~= called_in(d.body@));
        }
        locals.free.insert(d.name.clone(), referenced.without(&bound));
        locals.calls.insert(d.name.clone(), labels);
        walk_local_free_vars_in(&d.body, locals);
        i = i + 1;
        assert(all[i - 1] == d@);
    }
}

/// The known continuations that chains of jumps from `from` end at.
fn reached_from(locals: &Locals, from: &String) -> (r: Vec<String>)
    requires
        locals@.free.contains_key(from@),
    ensures
        forall|to: Seq<char>| #[trigger] views(r@).contains(to) <==> leads_to(locals@, from@, to),
        forall|i: int| 0 <= i < r@.len() ==> locals@.free.contains_key(#[trigger] r@[i]@),
{
    let mut out: Vec<String> = Vec::new();
    out.push(from.clone());
    let ghost st = locals@;
    let ghost dom = locals.free@.dom();
    proof {
        locals.free.lemma_finite();
        assert(jump_path(st, from@, seq![from@]));
        assert(seq![from@].last() == from@);
        assert(leads_to(st, from@, from@));
        assert(views(out@) =~= seq![from@]);
    }
    let mut i: usize = 0;
    while i < out.len()
        invariant
            0 < out.len(),
            i <= out.len(),
            st == locals@,
            dom == st.free.dom(),
            dom.finite(),
            views(out@).no_duplicates(),
            views(out@)[0] == from@,
            forall|k: int| 0 <= k < out@.len() ==> dom.contains(#[trigger] out@[k]@),
            forall|k: int| 0 <= k < out@.len() ==> leads_to(st, from@, #[trigger] out@[k]@),
            forall|k: int, b: Seq<char>|
                0 <= k < i && #[trigger] jumps_to(st, out@[k]@, b) ==> views(out@).contains(b),
        decreases dom.len() - i,
    {
        proof {
            lemma_fits(views(out@), dom);
        }
        let ghost at = out@[i as int]@;
        let name: String = out[i].clone();
        match locals.calls.get(&name) {
            None => {},
            Some(deps) => {
                let mut k: usize = 0;
                while k < deps.items.len()
                    invariant
                        i < out.len(),
                        k <= deps.items.len(),
                        st == locals@,
                        dom == st.free.dom(),
                        at == out@[i as int]@,
                        st.calls.contains_key(at) && st.calls[at] == deps@,
                        views(out@).no_duplicates(),
                        views(out@)[0] == from@,
                        forall|m: int| 0 <= m < out@.len() ==> dom.contains(#[trigger] out@[m]@),
                        forall|m: int|
                            0 <= m < out@.len() ==> leads_to(st, from@, #[trigger] out@[m]@),
                        forall|m: int, b: Seq<char>|
                            0 <= m < i && #[trigger] jumps_to(st, out@[m]@, b) ==> views(
                                out@,
                            ).contains(b),
                        forall|m: int|
                            0 <= m < k && dom.contains(#[trigger] deps.items@[m]@) ==> views(
                                out@,
                            ).contains(deps.items@[m]@),
                    decreases deps.items.len() - k,
                {
                    let dep = &deps.items[k];
                    let ghost before = out@;
                    if locals.free.has(dep) && !holds_name(&out, dep) {
                        proof {
                            assert(views(deps.items@)[k as int] == dep@);
                            assert(deps@.contains(dep@));
                            assert(jumps_to(st, at, dep@));
                            lemma_leads_on(st, from@, at, dep@);
                        }
                        out.push(dep.clone());
                        proof {
                            lemma_push_keeps(views(before), dep@);
                            assert(views(out@) == views(before).push(dep@));
                            assert(views(out@)[before.len() as int] == dep@);
                            assert forall|m: int| 0 <= m < out@.len() implies dom.contains(
                                #[trigger] out@[m]@,
                            ) by {
                                if m < before.len() {
                                    assert(out@[m] == before[m]);
                                }
                            }
                            assert forall|m: int| 0 <= m < out@.len() implies leads_to(
                                st,
                                from@,
                                #[trigger] out@[m]@,
                            ) by {
                                if m < before.len() {
                                    assert(out@[m] == before[m]);
                                }
                            }
                            assert forall|m: int, b: Seq<char>|
                                0 <= m < i && #[trigger] jumps_to(st, out@[m]@, b) implies views(
                                out@,
                            ).contains(b) by {
                                assert(out@[m] == before[m]);
                                assert(jumps_to(st, before[m]@, b));
                            }
                        }
                    }
                    k = k + 1;
                }
                assert forall|b: Seq<char>| #[trigger] jumps_to(st, at, b) implies views(
                    out@,
                ).contains(b) by {
                    assert(deps@.contains(b));
                    let m = choose|m: int| 0 <= m < deps.items@.len() && views(deps.items@)[m] == b;
                    assert(deps.items@[m]@ == b);
                }
            },
        }
        assert forall|b: Seq<char>| #[trigger] jumps_to(st, at, b) implies views(out@).contains(b) by {}
        i = i + 1;
    }
    proof {
        assert forall|to: Seq<char>| #[trigger]
            views(out@).contains(to) <==> leads_to(st, from@, to) by {
            if views(out@).contains(to) {
                let k = choose|k: int| 0 <= k < out@.len() && views(out@)[k] == to;
                assert(out@[k]@ == to);
            }
            if leads_to(st, from@, to) {
                let p = choose|p: Seq<Seq<char>>| #[trigger]
                    jump_path(st, from@, p) && p.last() == to;
                lemma_closed_holds_path(st, from@, views(out@), p, (p.len() - 1) as nat);
            }
        }
    }
    out
}

/// A chain of jumps stays within any set of continuations that holds its start and
/// that no jump leaves.
proof fn lemma_closed_holds_path(
    st: LocalsV,
    from: Seq<char>,
    names: Seq<Seq<char>>,
    p: Seq<Seq<char>>,
    k: nat,
)
    requires
        jump_path(st, from, p),
        names.contains(from),
        k < p.len(),
        forall|m: int, b: Seq<char>|
            0 <= m < names.len() && #[trigger] jumps_to(st, names[m], b) ==> names.contains(b),
    ensures
        names.contains(p[k as int]),
    decreases k,
{
    if k > 0 {
        lemma_closed_holds_path(st, from, names, p, (k - 1) as nat);
        let m = choose|m: int| 0 <= m < names.len() && names[m] == p[k - 1];
        assert(jumps_to(st, p[k - 1], p[(k - 1) + 1]));
        assert(jumps_to(st, names[m], p[k as int]));
    }
}

proof fn lemma_leads_on(st: LocalsV, from: Seq<char>, at: Seq<char>, to: Seq<char>)
    requires
        leads_to(st, from, at),
        jumps_to(st, at, to),
    ensures
        leads_to(st, from, to),
{
    let p = choose|p: Seq<Seq<char>>| #[trigger] jump_path(st, from, p) && p.last() == at;
    let q = p.push(to);
    assert forall|i: int| 0 <= i < q.len() - 1 implies #[trigger] jumps_to(st, q[i], q[i + 1]) by {
        if i < p.len() - 1 {
            assert(jumps_to(st, p[i], p[i + 1]));
        } else {
            assert(q[i] == at && q[i + 1] == to);
        }
    }
    assert(jump_path(st, from, q));
    assert(q.last() == to);
}

proof fn lemma_push_keeps(s: Seq<Seq<char>>, x: Seq<char>)
    requires
        s.no_duplicates(),
        !s.contains(x),
    ensures
        s.push(x).no_duplicates(),
        forall|y: Seq<char>| s.contains(y) ==> s.push(x).contains(y),
        s.push(x).contains(x),
{
    let t = s.push(x);
    assert forall|y: Seq<char>| s.contains(y) implies t.contains(y) by {
        let k = choose|k: int| 0 <= k < s.len() && s[k] == y;
        assert(t[k] == y);
    }
    assert(t[s.len() as int] == x);
}

proof fn lemma_fits(s: Seq<Seq<char>>, dom: Set<Seq<char>>)
    requires
        s.no_duplicates(),
        dom.finite(),
        forall|k: int| 0 <= k < s.len() ==> dom.contains(#[trigger] s[k]),
    ensures
        s.len() <= dom.len(),
{
    s.unique_seq_to_set();
    vstd::set_lib::lemma_len_subset(s.to_set(), dom);
}

/// What each continuation of a function uses of its surroundings, itself or
/// through the continuations that its jumps lead to.
fn collect_local_free_vars_for(top: &CFunDef) -> (r: Table<String, VarSet>)
    ensures
        r@ == free_of_locals(top@.body),
{
    let mut locals: Locals = Locals { free: Table::new(), calls: Table::new() };
    assert(locals@ =~= no_locals());
    walk_local_free_vars_in(&top.body, &mut locals);
    let mut out: Table<String, VarSet> = Table::new();
    let mut i: usize = 0;
    let n: usize = locals.free.rows();
    let ghost st = locals@;
    proof {
        locals.free.lemma_first_rows(0);
    }
    while i < n
        invariant
            i <= n,
            n == locals.free.row_count(),
            st == locals@,
            out@.dom() == locals.free.first_rows(i as int).dom(),
            forall|name: Seq<char>| #[trigger]
                out@.contains_key(name) ==> out@[name] == used_through(st, name),
        decreases n - i,
    {
        proof {
            locals.free.lemma_first_rows(i + 1);
            locals.free.lemma_rows_mapped(i as int);
        }
        let row = locals.free.row(i);
        let reached: Vec<String> = reached_from(&locals, &row.0);
        let mut used: VarSet = VarSet::new();
        let mut k: usize = 0;
        while k < reached.len()
            invariant
                k <= reached.len(),
                st == locals@,
                forall|m: int| 0 <= m < reached@.len() ==> st.free.contains_key(#[trigger] reached@[m]@),
                forall|v: u32| #[trigger]
                    used@.contains(v) <==> exists|m: int|
                        0 <= m < k && st.free[(#[trigger] reached@[m])@].contains(v),
            decreases reached.len() - k,
        {
            let ghost before = used@;
            if let Some(vars) = locals.free.get(&reached[k]) {
                used.add_set(vars);
            }
            k = k + 1;
            proof {
                assert(st.free.contains_key(reached@[k - 1]@));
                assert forall|v: u32| #[trigger]
                    used@.contains(v) <==> exists|m: int|
                        0 <= m < k && st.free[(#[trigger] reached@[m])@].contains(v) by {
                    assert(used@.contains(v) <==> before.contains(v) || st.free[reached@[k
                        - 1]@].contains(v));
                    if before.contains(v) {
                        let m = choose|m: int|
                            0 <= m < k - 1 && st.free[(#[trigger] reached@[m])@].contains(v);
                        assert(0 <= m < k && st.free[reached@[m]@].contains(v));
                    }
                }
            }
        }
        proof {
            assert forall|v: u32| used@.contains(v) <==> used_through(st, row.0@).contains(v) by {
                if used@.contains(v) {
                    let m = choose|m: int|
                        0 <= m < k && st.free[(#[trigger] reached@[m])@].contains(v);
                    assert(views(reached@)[m] == reached@[m]@);
                    assert(views(reached@).contains(reached@[m]@));
                    assert(leads_to(st, row.0@, reached@[m]@));
                }
                if used_through(st, row.0@).contains(v) {
                    let to = choose|to: Seq<char>| #[trigger]
                        leads_to(st, row.0@, to) && st.free.contains_key(to)
                            && st.free[to].contains(v);
                    assert(views(reached@).contains(to));
                    let m = choose|m: int| 0 <= m < reached@.len() && views(reached@)[m] == to;
                    assert(reached@[m]@ == to);
                    assert(st.free[reached@[m]@].contains(v));
                }
            }
            assert(used@ =~= used_through(st, row.0@));
        }
        out.insert(row.0.clone(), used);
        i = i + 1;
        assert(out@.dom() =~= locals.free.first_rows(i as int).dom());
    }
    proof {
        locals.free.lemma_first_rows(n as int);
        assert(out@ =~= settled_free(st));
    }
    out
}

/// Whether the variable is live at the jump.
fn live_set_holds(
    var: CVar,
    func: &CVal,
    args: &Vec<CVal>,
    local_free_vars: &Table<String, VarSet>,
) -> (r: bool)
    ensures
        r == live_at(var, func@, views(args@), local_free_vars@),
{
    if live_where_mentioned(var, func, local_free_vars) {
        return true;
    }
    let mut i: usize = 0;
    let ghost all = views(args@);
    while i < args.len()
        invariant
            i <= args.len(),
            all == views(args@),
            forall|k: int| 0 <= k < i ==> !live_through(var, #[trigger] all[k], local_free_vars@),
        decreases args.len() - i,
    {
        if live_where_mentioned(var, &args[i], local_free_vars) {
            assert(live_through(var, all[i as int], local_free_vars@));
            return true;
        }
        i = i + 1;
    }
    false
}

fn live_where_mentioned(var: CVar, val: &CVal, local_free_vars: &Table<String, VarSet>) -> (r: bool)
    ensures
        r == live_through(var, val@, local_free_vars@),
{
    match val {
        CVal::Var(v) => *v == var,
        CVal::Label(name) => match local_free_vars.get(name) {
            Some(vars) => vars.has_var(var),
            None => false,
        },
        _ => false,
    }
}

/// Whether the variable is live at some jump of the expression.
fn is_live_at_any_app(var: CVar, expr: &CExpr, local_free_vars: &Table<String, VarSet>) -> (r: bool)
    ensures
        r == live_at_any_app(var, expr@, local_free_vars@),
    decreases expr, 0nat,
{
    proof {
        lemma_cexpr_view(*expr);
    }
    match expr {
        CExpr::App { func, args } => live_set_holds(var, func, args, local_free_vars),
        CExpr::LetPrim { cont, .. } => is_live_at_any_app(var, cont, local_free_vars),
        CExpr::If { then_branch, else_branch, .. } => is_live_at_any_app(
            var,
            then_branch,
            local_free_vars,
        ) || is_live_at_any_app(var, else_branch, local_free_vars),
        CExpr::Fix { defs, body } => is_live_in_defs(var, defs, local_free_vars)
            || is_live_at_any_app(var, body, local_free_vars),
    }
}

fn is_live_in_defs(var: CVar, defs: &Vec<CFunDef>, local_free_vars: &Table<String, VarSet>) -> (r:
    bool)
    ensures
        r == live_in_first(var, views(defs@), defs@.len(), local_free_vars@),
    decreases defs, 0nat,
{
    let mut i: usize = 0;
    let mut found: bool = false;
    let ghost all = views(defs@);
    while i < defs.len()
        invariant
            i <= defs.len(),
            all == views(defs@),
            found == live_in_first(var, all, i as nat, local_free_vars@),
        decreases defs.len() - i,
    {
        if !found {
            found = is_live_at_any_app(var, &defs[i].body, local_free_vars);
        }
        i = i + 1;
        assert(all[i - 1] == defs@[i - 1]@);
    }
    found
}

/// Notes the struct-bound variables of the expression that escape.
fn find_escaping_in(
    expr: &CExpr,
    local_free_vars: &Table<String, VarSet>,
    escaping: &mut HashSet<CVar>,
)
    ensures
        final(escaping)@ == old(escaping)@.union(escaping_in(expr@, local_free_vars@)),
    decreases expr, 0nat,
{
    proof {
        lemma_cexpr_view(*expr);
    }
    match expr {
        CExpr::LetPrim { var, op, cont, .. } => {
            if let PrimOp::Struct(_, _) = op {
                if is_live_at_any_app(*var, cont, local_free_vars) {
                    escaping.insert(*var);
                }
            }
            find_escaping_in(cont, local_free_vars, escaping);
        },
        CExpr::App { .. } => {},
        CExpr::If { then_branch, else_branch, .. } => {
            find_escaping_in(then_branch, local_free_vars, escaping);
            find_escaping_in(else_branch, local_free_vars, escaping);
        },
        CExpr::Fix { defs, body } => {
            find_escaping_in_defs(defs, local_free_vars, escaping);
            find_escaping_in(body, local_free_vars, escaping);
        },
    }
    assert(escaping@ =~= old(escaping)@.union(escaping_in(expr@, local_free_vars@)));
}

fn find_escaping_in_defs(
    defs: &Vec<CFunDef>,
    local_free_vars: &Table<String, VarSet>,
    escaping: &mut HashSet<CVar>,
)
    ensures
        final(escaping)@ == old(escaping)@.union(
            escaping_in_first(views(defs@), defs@.len(), local_free_vars@),
        ),
    decreases defs, 0nat,
{
    let mut i: usize = 0;
    let ghost all = views(defs@);
    assert(old(escaping)@.union(escaping_in_first(all, 0, local_free_vars@)) =~= old(escaping)@);
    while i < defs.len()
        invariant
            i <= defs.len(),
            all == views(defs@),
            escaping@ == old(escaping)@.union(
                escaping_in_first(all, i as nat, local_free_vars@),
            ),
        decreases defs.len() - i,
    {
        find_escaping_in(&defs[i].body, local_free_vars, escaping);
        i = i + 1;
        proof {
            assert(all[i - 1] == defs@[i - 1]@);
            assert(escaping@ =~= old(escaping)@.union(
                escaping_in_first(all, i as nat, local_free_vars@),
            ));
        }
    }
}

/// The variables that struct constructions of the program bind and that are live
/// at some jump after their binding.
pub fn escaping_struct_vars(program: &CpsProgram) -> (r: HashSet<CVar>)
    ensures
        r@ == escaping_of(views(program.funcs@)),
{
    let mut escaping: HashSet<CVar> = HashSet::new();
    let mut i: usize = 0;
    let ghost all = views(program.funcs@);
    assert(all.subrange(0, 0) =~= Seq::<CTopLevelFnV>::empty());
    assert(escaping@ =~= escaping_of(all.subrange(0, 0)));
    while i < program.funcs.len()
        invariant
            i <= program.funcs.len(),
            all == views(program.funcs@),
            escaping@ == escaping_of(all.subrange(0, i as int)),
        decreases program.funcs.len() - i,
    {
        let f = &program.funcs[i];
        let local_free_vars: Table<String, VarSet> = collect_local_free_vars_for(&f.def);
        find_escaping_in(&f.def.body, &local_free_vars, &mut escaping);
        i = i + 1;
        proof {
            let now = all.subrange(0, i as int);
            assert(now.drop_last() =~= all.subrange(0, i - 1));
            assert(now.last() == f@);
        }
    }
    assert(all.subrange(0, i as int) =~= all);
    escaping
}

} // verus!
