//! Sets of variables, and the variables that expressions use.

use vstd::prelude::*;

use crate::cps::{group_cps, lemma_cexpr_view, CExprV, CFunDefV, CValV};
use crate::cps::{CExpr, CFunDef, CVal};
use crate::table::{group_views, holds_number, lemma_with_number, put_number, views};

verus! {

broadcast use {group_views, group_cps};

/// The variables among the values.
pub open spec fn vars_of(args: Seq<CValV>) -> Set<u32> {
    Set::new(|v: u32| args.contains(CValV::Var(v)))
}

/// The variables that an expression uses, at any depth.
pub open spec fn referenced_in(e: CExprV) -> Set<u32>
    decreases e, 0nat,
{
    match e {
        CExprV::LetPrim { args, cont, .. } => vars_of(args).union(referenced_in(*cont)),
        CExprV::App { func, args } => vars_of(seq![func]).union(vars_of(args)),
        CExprV::If { cond, then_branch, else_branch } => vars_of(seq![cond]).union(
            referenced_in(*then_branch),
        ).union(referenced_in(*else_branch)),
        CExprV::Fix { defs, body } => referenced_in_first(defs, defs.len()).union(
            referenced_in(*body),
        ),
    }
}

pub open spec fn referenced_in_first(defs: Seq<CFunDefV>, n: nat) -> Set<u32>
    decreases defs, n,
{
    if n == 0 || n > defs.len() {
        Set::empty()
    } else {
        referenced_in_first(defs, (n - 1) as nat).union(referenced_in(defs[n - 1].body))
    }
}

/// A set of variables, as an ascending list.
#[derive(Debug)]
pub struct VarSet {
    pub items: Vec<u32>,
}

impl View for VarSet {
    type V = Set<u32>;

    open spec fn view(&self) -> Set<u32> {
        self.items@.to_set()
    }
}

impl VarSet {
    /// The set without variables.
    pub fn new() -> (r: Self)
        ensures
            r@ == Set::<u32>::empty(),
    {
        let r = VarSet { items: Vec::new() };
        assert(r@ =~= Set::<u32>::empty());
        r
    }

    /// Puts a variable in.
    pub fn add_var(&mut self, v: u32)
        ensures
            final(self)@ == old(self)@.insert(v),
    {
        put_number(&mut self.items, v);
        proof {
            lemma_with_number(old(self).items@, v);
            assert(self@ =~= old(self)@.insert(v));
        }
    }

    /// Whether the variable is in the set.
    pub fn has_var(&self, v: u32) -> (r: bool)
        ensures
            r == self@.contains(v),
    {
        holds_number(&self.items, v)
    }

    /// Puts the variables of a list in.
    pub fn add_list(&mut self, vs: &Vec<u32>)
        ensures
            final(self)@ == old(self)@.union(vs@.to_set()),
    {
        let mut i: usize = 0;
        assert(old(self)@.union(vs@.subrange(0, 0).to_set()) =~= old(self)@);
        while i < vs.len()
            invariant
                i <= vs.len(),
                self@ == old(self)@.union(vs@.subrange(0, i as int).to_set()),
            decreases vs.len() - i,
        {
            let ghost before = self@;
            self.add_var(vs[i]);
            i = i + 1;
            proof {
                let now = vs@.subrange(0, i as int);
                let then = vs@.subrange(0, i - 1);
                assert(now =~= then.push(vs@[i - 1]));
                assert forall|x: u32| now.contains(x) <==> then.contains(x) || x == vs@[i - 1] by {
                    if now.contains(x) {
                        let k = choose|k: int| 0 <= k < now.len() && now[k] == x;
                        if k < then.len() {
                            assert(then[k] == x);
                        }
                    }
                    if then.contains(x) {
                        let k = choose|k: int| 0 <= k < then.len() && then[k] == x;
                        assert(now[k] == x);
                    }
                    assert(now[i - 1] == vs@[i - 1]);
                }
                assert(self@ =~= old(self)@.union(now.to_set()));
            }
        }
        assert(vs@.subrange(0, i as int) =~= vs@);
    }

    /// Puts the variables of another set in.
    pub fn add_set(&mut self, other: &VarSet)
        ensures
            final(self)@ == old(self)@.union(other@),
    {
        self.add_list(&other.items);
    }

    /// The variables that are not in `other`.
    pub fn without(&self, other: &VarSet) -> (r: VarSet)
        ensures
            r@ == self@.difference(other@),
    {
        let mut out: VarSet = VarSet::new();
        let mut i: usize = 0;
        while i < self.items.len()
            invariant
                i <= self.items.len(),
                forall|x: u32| #[trigger]
                    out@.contains(x) <==> self.items@.subrange(0, i as int).contains(x)
                        && !other@.contains(x),
            decreases self.items.len() - i,
        {
            let v: u32 = self.items[i];
            let ghost before = out@;
            if !other.has_var(v) {
                out.add_var(v);
            }
            i = i + 1;
            proof {
                let now = self.items@.subrange(0, i as int);
                let then = self.items@.subrange(0, i - 1);
                assert forall|x: u32| #[trigger] now.contains(x) <==> then.contains(x) || x == v by {
                    if now.contains(x) {
                        let k = choose|k: int| 0 <= k < now.len() && now[k] == x;
                        if k < then.len() {
                            assert(then[k] == x);
                        }
                    }
                    if then.contains(x) {
                        let k = choose|k: int| 0 <= k < then.len() && then[k] == x;
                        assert(now[k] == x);
                    }
                    assert(now[i - 1] == v);
                }
                assert forall|x: u32| #[trigger]
                    out@.contains(x) <==> now.contains(x) && !other@.contains(x) by {
                    assert(before.contains(x) <==> then.contains(x) && !other@.contains(x));
                    assert(now.contains(x) <==> then.contains(x) || x == v);
                }
            }
        }
        assert(self.items@.subrange(0, i as int) =~= self.items@);
        assert(out@ =~= self@.difference(other@));
        out
    }

    /// Adds the variables among the values.
    pub fn add_vars_of(&mut self, args: &Vec<CVal>)
        ensures
            final(self)@ == old(self)@.union(vars_of(views(args@))),
    {
        let mut i: usize = 0;
        let ghost all = views(args@);
        assert(old(self)@.union(vars_of(all.subrange(0, 0))) =~= old(self)@);
        while i < args.len()
            invariant
                i <= args.len(),
                all == views(args@),
                self@ == old(self)@.union(vars_of(all.subrange(0, i as int))),
            decreases args.len() - i,
        {
            self.add_value(&args[i]);
            i = i + 1;
            proof {
                let now = all.subrange(0, i as int);
                let then = all.subrange(0, i - 1);
                assert(now =~= then.push(all[i - 1]));
                lemma_vars_of_push(then, all[i - 1]);
                lemma_vars_of_push(Seq::<CValV>::empty(), all[i - 1]);
                assert(Seq::<CValV>::empty().push(all[i - 1]) =~= seq![all[i - 1]]);
                assert(self@ =~= old(self)@.union(vars_of(now)));
            }
        }
        assert(all.subrange(0, i as int) =~= all);
    }

    /// Adds the value, if it is a variable.
    pub fn add_value(&mut self, val: &CVal)
        ensures
            final(self)@ == old(self)@.union(vars_of(seq![val@])),
    {
        let ghost before = self@;
        proof {
            lemma_vars_of_push(Seq::<CValV>::empty(), val@);
            assert(Seq::<CValV>::empty().push(val@) =~= seq![val@]);
            assert(vars_of(Seq::<CValV>::empty()) =~= Set::<u32>::empty());
        }
        if let CVal::Var(v) = val {
            self.add_var(*v);
        }
        assert(self@ =~= before.union(vars_of(seq![val@])));
    }
}

proof fn lemma_vars_of_push(args: Seq<CValV>, val: CValV)
    ensures
        forall|v: u32| #[trigger]
            vars_of(args.push(val)).contains(v) <==> vars_of(args).contains(v) || val
                == CValV::Var(v),
{
    let longer = args.push(val);
    assert forall|v: u32| #[trigger]
        vars_of(longer).contains(v) <==> vars_of(args).contains(v) || val == CValV::Var(v) by {
        if longer.contains(CValV::Var(v)) {
            let k = choose|k: int| 0 <= k < longer.len() && longer[k] == CValV::Var(v);
            if k < args.len() {
                assert(args[k] == CValV::Var(v));
            }
        }
        if args.contains(CValV::Var(v)) {
            let k = choose|k: int| 0 <= k < args.len() && args[k] == CValV::Var(v);
            assert(longer[k] == CValV::Var(v));
        }
        assert(longer[args.len() as int] == val);
    }
}

/// Notes the variables that an expression uses.
pub fn collect_var_refs(expr: &CExpr, out: &mut VarSet)
    ensures
        final(out)@ == old(out)@.union(referenced_in(expr@)),
    decreases expr, 0nat,
{
    proof {
        lemma_cexpr_view(*expr);
    }
    match expr {
        CExpr::LetPrim { args, cont, .. } => {
            out.add_vars_of(args);
            collect_var_refs(cont, out);
        },
        CExpr::App { func, args } => {
            out.add_value(func);
            out.add_vars_of(args);
        },
        CExpr::If { cond, then_branch, else_branch } => {
            out.add_value(cond);
            collect_var_refs(then_branch, out);
            collect_var_refs(else_branch, out);
        },
        CExpr::Fix { defs, body } => {
            collect_var_refs_in_defs(defs, out);
            collect_var_refs(body, out);
        },
    }
    assert(out@ =~= old(out)@.union(referenced_in(expr@)));
}

fn collect_var_refs_in_defs(defs: &Vec<CFunDef>, out: &mut VarSet)
    ensures
        final(out)@ == old(out)@.union(referenced_in_first(views(defs@), defs@.len())),
    decreases defs, 0nat,
{
    let mut i: usize = 0;
    let ghost all = views(defs@);
    assert(old(out)@.union(referenced_in_first(all, 0)) =~= old(out)@);
    while i < defs.len()
        invariant
            i <= defs.len(),
            all == views(defs@),
            out@ == old(out)@.union(referenced_in_first(all, i as nat)),
        decreases defs.len() - i,
    {
        collect_var_refs(&defs[i].body, out);
        i = i + 1;
        proof {
            assert(all[i - 1] == defs@[i - 1]@);
            assert(out@ =~= old(out)@.union(referenced_in_first(all, i as nat)));
        }
    }
}

} // verus!
