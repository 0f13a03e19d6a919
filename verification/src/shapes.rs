//! The shapes of expressions that translation sees through: straight lines, calls
//! and counted loops.

use vstd::prelude::*;

use crate::cps::{group_cps, lemma_cexpr_view, CExprV, CFunDefV, CTopLevelFnV, CValV, PrimOpV};
use crate::cps::{CExpr, CFunDef, CTopLevelFn, CVal, CVar, PrimOp};
use crate::listing::NameSet;
use crate::table::{group_views, views};

verus! {

broadcast use {group_views, group_cps};

/// Whether an operation does nothing but compute a value.
pub open spec fn pure_op(op: PrimOpV) -> bool {
    op is RawMlirOp || op is Field || op is Struct || op is Array || op is ArrayRepeat || op is Load
}

/// Whether an expression is a chain of pure operations that ends in a jump.
pub open spec fn straight_line(e: CExprV) -> bool
    decreases e,
{
    match e {
        CExprV::LetPrim { op, cont, .. } => pure_op(op) && straight_line(*cont),
        CExprV::App { .. } => true,
        _ => false,
    }
}

/// A call of a function whose result goes on in the same place.
pub struct RealCallV {
    pub result_var: u32,
    pub unit: Seq<char>,
    pub args: Seq<CValV>,
    pub rest: CExprV,
}

/// The call that local continuations and their body stand for: one continuation of
/// one parameter, and a jump to a function that is handed that continuation last.
pub open spec fn real_call(defs: Seq<CFunDefV>, body: CExprV) -> Option<RealCallV> {
    if defs.len() != 1 || defs[0].carried_types is Some || defs[0].params.len() != 1 {
        None
    } else {
        match body {
            CExprV::App { func: CValV::Label(unit), args } => if args.len() > 0 && args.last()
                == CValV::Label(defs[0].name) {
                Some(
                    RealCallV {
                        result_var: defs[0].params[0],
                        unit,
                        args: args.drop_last(),
                        rest: defs[0].body,
                    },
                )
            } else {
                None
            },
            _ => None,
        }
    }
}

/// The last function of the name.
pub open spec fn unit_of(funcs: Seq<CTopLevelFnV>, name: Seq<char>) -> Option<CTopLevelFnV>
    decreases funcs.len(),
{
    if funcs.len() == 0 {
        None
    } else if funcs.last().def.name == name {
        Some(funcs.last())
    } else {
        unit_of(funcs.drop_last(), name)
    }
}

/// The number of functions whose names are not in the set.
pub open spec fn unseen(funcs: Seq<CTopLevelFnV>, seen: Set<Seq<char>>) -> nat
    decreases funcs.len(),
{
    if funcs.len() == 0 {
        0
    } else {
        unseen(funcs.drop_last(), seen) + if seen.contains(funcs.last().def.name) {
            0nat
        } else {
            1nat
        }
    }
}

/// Seeing one more function leaves fewer unseen.
pub proof fn lemma_unseen_falls(funcs: Seq<CTopLevelFnV>, seen: Set<Seq<char>>, name: Seq<char>)
    ensures
        unseen(funcs, seen.insert(name)) <= unseen(funcs, seen),
        unit_of(funcs, name) is Some && !seen.contains(name) ==> unseen(funcs, seen.insert(name))
            < unseen(funcs, seen),
    decreases funcs.len(),
{
    if funcs.len() > 0 {
        lemma_unseen_falls(funcs.drop_last(), seen, name);
    }
}

/// Whether an expression is a chain of pure operations and of calls to functions of
/// the same kind. A function that is being looked into already, and is not a
/// straight line, is not of that kind.
pub open spec fn transparent(e: CExprV, funcs: Seq<CTopLevelFnV>, visiting: Set<Seq<char>>) -> bool
    decreases unseen(funcs, visiting), e,
{
    match e {
        CExprV::LetPrim { op, cont, .. } => pure_op(op) && transparent(*cont, funcs, visiting),
        CExprV::App { .. } => true,
        CExprV::If { .. } => false,
        CExprV::Fix { defs, body } => match real_call(defs, *body) {
            None => false,
            Some(call) => match unit_of(funcs, call.unit) {
                None => false,
                Some(callee) => if straight_line(callee.def.body) {
                    transparent(call.rest, funcs, visiting)
                } else if visiting.contains(call.unit) {
                    false
                } else {
                    proof {
                        lemma_unseen_falls(funcs, visiting, call.unit);
                    }
                    transparent(callee.def.body, funcs, visiting.insert(call.unit)) && transparent(
                        call.rest,
                        funcs,
                        visiting,
                    )
                },
            },
        },
    }
}

/// Whether an operation does nothing but compute a value.
pub fn is_pure_prim_op(op: &PrimOp) -> (r: bool)
    ensures
        r == pure_op(op@),
{
    match op {
        PrimOp::RawMlirOp { .. } => true,
        PrimOp::Field { .. } => true,
        PrimOp::Struct(_, _) => true,
        PrimOp::Array => true,
        PrimOp::ArrayRepeat => true,
        PrimOp::Load { .. } => true,
        _ => false,
    }
}

/// Whether an expression is a chain of pure operations that ends in a jump.
pub fn is_straight_line(expr: &CExpr) -> (r: bool)
    ensures
        r == straight_line(expr@),
    decreases expr,
{
    proof {
        lemma_cexpr_view(*expr);
    }
    match expr {
        CExpr::LetPrim { op, cont, .. } => is_pure_prim_op(op) && is_straight_line(cont),
        CExpr::App { .. } => true,
        _ => false,
    }
}

/// A call, by references into the expression that makes it. The last argument is
/// the continuation.
pub struct RealCall<'a> {
    pub result_var: CVar,
    pub unit_name: &'a String,
    pub args: &'a Vec<CVal>,
    pub rest: &'a CExpr,
}

impl<'a> RealCall<'a> {
    /// Whether this is the call.
    pub open spec fn stands_for(&self, call: RealCallV) -> bool {
        &&& self.result_var == call.result_var
        &&& self.unit_name@ == call.unit
        &&& self.args@.len() > 0
        &&& views(self.args@).subrange(0, self.args@.len() - 1) == call.args
        &&& self.rest@ == call.rest
    }
}

/// The call that local continuations and their body stand for.
pub fn recognize_real_call<'a>(defs: &'a Vec<CFunDef>, body: &'a CExpr) -> (r: Option<RealCall<'a>>)
    ensures
        match r {
            Some(c) => real_call(views(defs@), body@) is Some && c.stands_for(
                real_call(views(defs@), body@)->Some_0,
            ) && defs@.len() == 1 && *c.rest == defs@[0].body,
            None => real_call(views(defs@), body@) is None,
        },
{
    proof {
        lemma_cexpr_view(*body);
    }
    if defs.len() != 1 {
        return None;
    }
    let d = &defs[0];
    assert(views(defs@)[0] == d@);
    if d.carried_types.is_some() || d.params.len() != 1 {
        return None;
    }
    match body {
        CExpr::App { func, args } => match func {
            CVal::Label(unit_name) => {
                if args.len() == 0 {
                    return None;
                }
                let last = &args[args.len() - 1];
                assert(views(args@).last() == last@);
                match last {
                    CVal::Label(l) => {
                        if *l != d.name {
                            return None;
                        }
                        assert(views(args@).drop_last() =~= views(args@).subrange(
                            0,
                            args@.len() - 1,
                        ));
                        Some(
                            RealCall { result_var: d.params[0], unit_name, args, rest: &d.body },
                        )
                    },
                    _ => None,
                }
            },
            _ => None,
        },
        _ => None,
    }
}

/// The last function of the name.
pub fn find_unit<'a>(funcs: &'a Vec<CTopLevelFn>, name: &String) -> (r: Option<&'a CTopLevelFn>)
    ensures
        match r {
            Some(f) => unit_of(views(funcs@), name@) == Some(f@),
            None => unit_of(views(funcs@), name@) is None,
        },
{
    let mut i: usize = funcs.len();
    let ghost all = views(funcs@);
    assert(all.subrange(0, i as int) =~= all);
    while i > 0
        invariant
            i <= funcs.len(),
            all == views(funcs@),
            unit_of(all, name@) == unit_of(all.subrange(0, i as int), name@),
        decreases i,
    {
        let ghost upto = all.subrange(0, i as int);
        assert(upto.last() == funcs@[i - 1]@);
        assert(upto.drop_last() =~= all.subrange(0, i - 1));
        if funcs[i - 1].def.name == *name {
            return Some(&funcs[i - 1]);
        }
        i = i - 1;
    }
    None
}

/// Whether an expression is a chain of pure operations and of calls to functions of
/// the same kind.
pub fn is_transparent_chain(expr: &CExpr, units: &Vec<CTopLevelFn>, visiting: &NameSet) -> (r: bool)
    ensures
        r == transparent(expr@, views(units@), visiting@),
    decreases unseen(views(units@), visiting@), expr,
{
    proof {
        lemma_cexpr_view(*expr);
    }
    match expr {
        CExpr::LetPrim { op, cont, .. } => is_pure_prim_op(op) && is_transparent_chain(
            cont,
            units,
            visiting,
        ),
        CExpr::App { .. } => true,
        CExpr::If { .. } => false,
        CExpr::Fix { defs, body } => {
            let call = match recognize_real_call(defs, body) {
                Some(call) => call,
                None => {
                    return false;
                },
            };
            let callee = match find_unit(units, call.unit_name) {
                Some(callee) => callee,
                None => {
                    return false;
                },
            };
            if is_straight_line(&callee.def.body) {
                return is_transparent_chain(call.rest, units, visiting);
            }
            if visiting.has_name(call.unit_name) {
                return false;
            }
            let mut deeper: NameSet = visiting.copy();
            deeper.add_name(call.unit_name);
            proof {
                lemma_unseen_falls(views(units@), visiting@, call.unit_name@);
            }
            is_transparent_chain(&callee.def.body, units, &deeper) && is_transparent_chain(
                call.rest,
                units,
                visiting,
            )
        },
    }
}

/// The number of turns up to which a counted loop is unrolled.
pub const MAX_UNROLL_ITERATIONS: u64 = 1024;

/// A loop that counts from one literal to another.
pub struct LoopV {
    pub name: Seq<char>,
    pub i_var: u32,
    /// What is carried from turn to turn.
    pub carried_params: Seq<u32>,
    pub carried_init: Seq<CValV>,
    pub start: u64,
    pub end: u64,
    /// What each turn does, up to the jump to the next.
    pub turn: CExprV,
    /// What follows the last turn.
    pub after: CExprV,
}

/// The counted loop that local continuations and their body stand for: one
/// continuation that carries values, entered with a literal first, whose body
/// compares with a literal by a call and then branches. A loop of too many turns
/// does not count.
pub open spec fn counted_loop(defs: Seq<CFunDefV>, body: CExprV) -> Option<LoopV> {
    if defs.len() != 1 || defs[0].carried_types is None || defs[0].params.len() == 0 {
        None
    } else {
        match (body, defs[0].body) {
            (
                CExprV::App { func: CValV::Label(l), args },
                CExprV::Fix { defs: inner, body: compare },
            ) => if l != defs[0].name || args.len() == 0 {
                None
            } else {
                match (args[0], real_call(inner, *compare)) {
                    (CValV::Int(start), Some(call)) => if call.args.len() != 2 {
                        None
                    } else {
                        match (call.args[1], call.rest) {
                            (
                                CValV::Int(end),
                                CExprV::If { then_branch, else_branch, .. },
                            ) => if end - start > MAX_UNROLL_ITERATIONS {
                                None
                            } else {
                                Some(
                                    LoopV {
                                        name: defs[0].name,
                                        i_var: defs[0].params[0],
                                        carried_params: defs[0].params.subrange(
                                            1,
                                            defs[0].params.len() as int,
                                        ),
                                        carried_init: args.subrange(1, args.len() as int),
                                        start,
                                        end,
                                        turn: *then_branch,
                                        after: *else_branch,
                                    },
                                )
                            },
                            _ => None,
                        }
                    },
                    _ => None,
                }
            },
            _ => None,
        }
    }
}

/// A counted loop, by references into the expression that holds it.
pub struct CountedLoop<'a> {
    pub name: &'a String,
    /// The counter, then what is carried from turn to turn.
    pub params: &'a Vec<CVar>,
    /// The first count, then what is carried into the first turn.
    pub args: &'a Vec<CVal>,
    pub start: u64,
    pub end: u64,
    pub turn: &'a CExpr,
    pub after: &'a CExpr,
}

impl<'a> CountedLoop<'a> {
    /// Whether this is the loop.
    pub open spec fn stands_for(&self, l: LoopV) -> bool {
        &&& self.name@ == l.name
        &&& self.params@.len() > 0
        &&& self.params@[0] == l.i_var
        &&& self.params@.subrange(1, self.params@.len() as int) == l.carried_params
        &&& self.args@.len() > 0
        &&& views(self.args@).subrange(1, self.args@.len() as int) == l.carried_init
        &&& self.start == l.start
        &&& self.end == l.end
        &&& self.turn@ == l.turn
        &&& self.after@ == l.after
    }
}

/// The counted loop that local continuations and their body stand for.
pub fn recognize_loop<'a>(defs: &'a Vec<CFunDef>, body: &'a CExpr) -> (r: Option<CountedLoop<'a>>)
    ensures
        match r {
            Some(c) => counted_loop(views(defs@), body@) is Some && c.stands_for(
                counted_loop(views(defs@), body@)->Some_0,
            ) && decreases_to!(defs => *c.after),
            None => counted_loop(views(defs@), body@) is None,
        },
{
    proof {
        lemma_cexpr_view(*body);
    }
    if defs.len() != 1 {
        return None;
    }
    let d = &defs[0];
    assert(views(defs@)[0] == d@);
    proof {
        lemma_cexpr_view(d.body);
    }
    if d.carried_types.is_none() || d.params.len() == 0 {
        return None;
    }
    let args = match body {
        CExpr::App { func: CVal::Label(l), args } => {
            if *l != d.name || args.len() == 0 {
                return None;
            }
            args
        },
        _ => {
            return None;
        },
    };
    assert(views(args@)[0] == args@[0]@);
    let start: u64 = match &args[0] {
        CVal::Int(n) => *n,
        _ => {
            return None;
        },
    };
    let (inner, compare) = match &d.body {
        CExpr::Fix { defs: inner, body: compare } => (inner, compare),
        _ => {
            return None;
        },
    };
    let call = match recognize_real_call(inner, compare) {
        Some(call) => call,
        None => {
            return None;
        },
    };
    let ghost sent = real_call(views(inner@), compare@)->Some_0;
    if call.args.len() != 3 {
        return None;
    }
    assert(sent.args[1] == call.args@[1]@);
    let end: u64 = match &call.args[1] {
        CVal::Int(n) => *n,
        _ => {
            return None;
        },
    };
    proof {
        lemma_cexpr_view(*call.rest);
    }
    match call.rest {
        CExpr::If { then_branch, else_branch, .. } => {
            if end >= start && end - start > MAX_UNROLL_ITERATIONS {
                return None;
            }
            proof {
                assert(decreases_to!(defs => defs@[0]));
                assert(decreases_to!(defs@[0] => d.body));
                assert(decreases_to!(d.body => inner));
                assert(decreases_to!(inner => inner@[0]));
                assert(decreases_to!(inner@[0] => *call.rest));
                assert(decreases_to!(*call.rest => **else_branch));
            }
            Some(
                CountedLoop {
                    name: &d.name,
                    params: &d.params,
                    args,
                    start,
                    end,
                    turn: then_branch,
                    after: else_branch,
                },
            )
        },
        _ => None,
    }
}

} // verus!
