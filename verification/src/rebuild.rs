//! Terms back into expressions.

use vstd::prelude::*;

use crate::cps::{group_cps, lemma_cexpr_view, CExprV, CFunDefV, CTopLevelFnV, CValV, PrimOpV};
use crate::cps::{CExpr, CFunDef, CTopLevelFn, CVal, CVar, PrimOp};
use crate::forward::{Forward, ForwardV};
use crate::fresh::{after_label, after_var, dup_carried, dup_vars, label_text, FreshVars};
use crate::lang::{CleaveLang, CleaveLangV};
use crate::listing::entry_of;
use crate::table::{dup_list, group_views, views, Dup, Key, Table};
use crate::ty::{Ty, TyV};
use crate::vars::{collect_var_refs, referenced_in, VarSet};

verus! {

broadcast use {group_views, group_cps};

impl Key for usize {
    fn same_key(&self, other: &Self) -> (r: bool) {
        *self == *other
    }
}

/// A value with one variable replaced.
pub open spec fn substituted_val(v: CValV, from: u32, to: CValV) -> CValV {
    if v == CValV::Var(from) {
        to
    } else {
        v
    }
}

/// The values with one variable replaced.
pub open spec fn substituted_vals(vals: Seq<CValV>, from: u32, to: CValV) -> Seq<CValV> {
    Seq::new(vals.len(), |i: int| substituted_val(vals[i], from, to))
}

/// An expression with every use of a variable replaced.
pub open spec fn substituted_var(e: CExprV, from: u32, to: CValV) -> CExprV
    decreases e, 0nat,
{
    match e {
        CExprV::LetPrim { var, ty, op, args, cont } => CExprV::LetPrim {
            var,
            ty,
            op,
            args: substituted_vals(args, from, to),
            cont: Box::new(substituted_var(*cont, from, to)),
        },
        CExprV::App { func, args } => CExprV::App {
            func: substituted_val(func, from, to),
            args: substituted_vals(args, from, to),
        },
        CExprV::If { cond, then_branch, else_branch } => CExprV::If {
            cond: substituted_val(cond, from, to),
            then_branch: Box::new(substituted_var(*then_branch, from, to)),
            else_branch: Box::new(substituted_var(*else_branch, from, to)),
        },
        CExprV::Fix { defs, body } => CExprV::Fix {
            defs: substituted_defs(defs, defs.len(), from, to),
            body: Box::new(substituted_var(*body, from, to)),
        },
    }
}

/// The first `n` continuations with every use of a variable replaced.
pub open spec fn substituted_defs(defs: Seq<CFunDefV>, n: nat, from: u32, to: CValV) -> Seq<CFunDefV>
    decreases defs, n,
{
    if n == 0 || n > defs.len() {
        Seq::empty()
    } else {
        substituted_defs(defs, (n - 1) as nat, from, to).push(
            CFunDefV { body: substituted_var(defs[n - 1].body, from, to), ..defs[n - 1] },
        )
    }
}

fn substitute_val(v: &CVal, from: CVar, to: &CVal) -> (r: CVal)
    ensures
        r@ == substituted_val(v@, from, to@),
{
    match v {
        CVal::Var(cv) => if *cv == from {
            to.dup()
        } else {
            v.dup()
        },
        _ => v.dup(),
    }
}

fn substitute_vals(vals: &Vec<CVal>, from: CVar, to: &CVal) -> (r: Vec<CVal>)
    ensures
        views(r@) == substituted_vals(views(vals@), from, to@),
{
    let mut out: Vec<CVal> = Vec::new();
    let mut i: usize = 0;
    while i < vals.len()
        invariant
            i <= vals.len(),
            out.len() == i,
            forall|k: int|
                0 <= k < i ==> (#[trigger] out@[k])@ == substituted_val(vals@[k]@, from, to@),
        decreases vals.len() - i,
    {
        out.push(substitute_val(&vals[i], from, to));
        i = i + 1;
    }
    assert(views(out@) =~= substituted_vals(views(vals@), from, to@));
    out
}

/// The expression with every use of a variable replaced.
pub fn substitute_var(expr: &CExpr, from: CVar, to: &CVal) -> (r: CExpr)
    ensures
        r@ == substituted_var(expr@, from, to@),
    decreases expr, 0nat,
{
    proof {
        lemma_cexpr_view(*expr);
    }
    match expr {
        CExpr::LetPrim { var, ty, op, args, cont } => CExpr::LetPrim {
            var: *var,
            ty: ty.dup(),
            op: op.dup(),
            args: substitute_vals(args, from, to),
            cont: Box::new(substitute_var(cont, from, to)),
        },
        CExpr::App { func, args } => CExpr::App {
            func: substitute_val(func, from, to),
            args: substitute_vals(args, from, to),
        },
        CExpr::If { cond, then_branch, else_branch } => CExpr::If {
            cond: substitute_val(cond, from, to),
            then_branch: Box::new(substitute_var(then_branch, from, to)),
            else_branch: Box::new(substitute_var(else_branch, from, to)),
        },
        CExpr::Fix { defs, body } => CExpr::Fix {
            defs: substitute_defs(defs, from, to),
            body: Box::new(substitute_var(body, from, to)),
        },
    }
}

fn substitute_defs(defs: &Vec<CFunDef>, from: CVar, to: &CVal) -> (r: Vec<CFunDef>)
    ensures
        views(r@) == substituted_defs(views(defs@), defs@.len(), from, to@),
    decreases defs, 0nat,
{
    let mut out: Vec<CFunDef> = Vec::new();
    let mut i: usize = 0;
    let ghost all = views(defs@);
    while i < defs.len()
        invariant
            i <= defs.len(),
            all == views(defs@),
            views(out@) == substituted_defs(all, i as nat, from, to@),
        decreases defs.len() - i,
    {
        let d = &defs[i];
        out.push(
            CFunDef {
                name: d.name.clone(),
                params: dup_vars(&d.params),
                body: substitute_var(&d.body, from, to),
                carried_types: dup_carried(&d.carried_types),
            },
        );
        i = i + 1;
        assert(all[i - 1] == d@);
    }
    out
}

/// The one variable that the expression uses and that was translated, if there is
/// exactly one.
pub open spec fn root_var(boundary: CExprV, env: Map<u32, usize>) -> Option<u32> {
    let both = referenced_in(boundary).intersect(env.dom());
    if exists|v: u32| is_only(both, v) {
        Some(choose|v: u32| is_only(both, v))
    } else {
        None
    }
}

/// Whether the set holds the variable and nothing else.
pub open spec fn is_only(s: Set<u32>, v: u32) -> bool {
    s.contains(v) && forall|w: u32| s.contains(w) ==> w == v
}

/// The one variable that the expression uses and that was translated.
pub fn segment_root_var(boundary: &CExpr, env: &Table<CVar, usize>) -> (r: Option<CVar>)
    ensures
        r == root_var(boundary@, env@),
{
    let mut refs: VarSet = VarSet::new();
    collect_var_refs(boundary, &mut refs);
    let ghost both = referenced_in(boundary@).intersect(env@.dom());
    assert(refs@ =~= referenced_in(boundary@));
    let mut found: Option<CVar> = None;
    let mut i: usize = 0;
    while i < refs.items.len()
        invariant
            i <= refs.items.len(),
            refs@ == referenced_in(boundary@),
            both == referenced_in(boundary@).intersect(env@.dom()),
            match found {
                Some(v) => both.contains(v) && forall|k: int|
                    0 <= k < i && both.contains(#[trigger] refs.items@[k]) ==> refs.items@[k] == v,
                None => forall|k: int|
                    0 <= k < i ==> !both.contains(#[trigger] refs.items@[k]),
            },
        decreases refs.items.len() - i,
    {
        let v: CVar = refs.items[i];
        assert(refs@.contains(v));
        if env.has(&v) {
            match found {
                None => {
                    found = Some(v);
                },
                Some(w) => {
                    if w != v {
                        assert(both.contains(v) && both.contains(w));
                        return None;
                    }
                },
            }
        }
        i = i + 1;
    }
    proof {
        assert forall|w: u32| both.contains(w) implies exists|k: int|
            0 <= k < refs.items@.len() && #[trigger] refs.items@[k] == w by {
            assert(refs.items@.contains(w));
        }
        if let Some(v) = found {
            assert(is_only(both, v));
        }
    }
    found
}

/// The larger of two variables.
pub open spec fn larger(a: u32, b: u32) -> u32 {
    if a < b {
        b
    } else {
        a
    }
}

/// The largest of the variable and the first `n` of the list.
pub open spec fn max_in_list(vars: Seq<u32>, n: nat, max: u32) -> u32
    decreases n,
{
    if n == 0 || n > vars.len() {
        max
    } else {
        larger(max_in_list(vars, (n - 1) as nat, max), vars[n - 1])
    }
}

/// The largest of the variable and those that an expression binds.
pub open spec fn max_bound(e: CExprV, max: u32) -> u32
    decreases e, 0nat,
{
    match e {
        CExprV::LetPrim { var, cont, .. } => max_bound(*cont, larger(max, var)),
        CExprV::App { .. } => max,
        CExprV::If { then_branch, else_branch, .. } => max_bound(
            *else_branch,
            max_bound(*then_branch, max),
        ),
        CExprV::Fix { defs, body } => max_bound(*body, max_bound_first(defs, defs.len(), max)),
    }
}

pub open spec fn max_bound_first(defs: Seq<CFunDefV>, n: nat, max: u32) -> u32
    decreases defs, n,
{
    if n == 0 || n > defs.len() {
        max
    } else {
        let d = defs[n - 1];
        max_bound(
            d.body,
            max_in_list(d.params, d.params.len(), max_bound_first(defs, (n - 1) as nat, max)),
        )
    }
}

/// The largest variable that a program binds, or zero.
pub open spec fn max_in_program(funcs: Seq<CTopLevelFnV>) -> u32
    decreases funcs.len(),
{
    if funcs.len() == 0 {
        0
    } else {
        let d = funcs.last().def;
        max_bound(
            d.body,
            max_in_list(d.params, d.params.len(), max_in_program(funcs.drop_last())),
        )
    }
}

fn max_of_list(vars: &Vec<u32>, max: u32) -> (r: u32)
    ensures
        r == max_in_list(vars@, vars@.len(), max),
{
    let mut out: u32 = max;
    let mut i: usize = 0;
    while i < vars.len()
        invariant
            i <= vars.len(),
            out == max_in_list(vars@, i as nat, max),
        decreases vars.len() - i,
    {
        if out < vars[i] {
            out = vars[i];
        }
        i = i + 1;
    }
    out
}

/// The largest of the variable and those that an expression binds.
pub fn max_cvar_in_cexpr(expr: &CExpr, max: CVar) -> (r: CVar)
    ensures
        r == max_bound(expr@, max),
    decreases expr, 0nat,
{
    proof {
        lemma_cexpr_view(*expr);
    }
    match expr {
        CExpr::LetPrim { var, cont, .. } => max_cvar_in_cexpr(
            cont,
            if max < *var {
                *var
            } else {
                max
            },
        ),
        CExpr::App { .. } => max,
        CExpr::If { then_branch, else_branch, .. } => {
            let inner: CVar = max_cvar_in_cexpr(then_branch, max);
            max_cvar_in_cexpr(else_branch, inner)
        },
        CExpr::Fix { defs, body } => {
            let inner: CVar = max_cvar_in_defs(defs, max);
            max_cvar_in_cexpr(body, inner)
        },
    }
}

fn max_cvar_in_defs(defs: &Vec<CFunDef>, max: CVar) -> (r: CVar)
    ensures
        r == max_bound_first(views(defs@), defs@.len(), max),
    decreases defs, 0nat,
{
    let mut out: CVar = max;
    let mut i: usize = 0;
    let ghost all = views(defs@);
    while i < defs.len()
        invariant
            i <= defs.len(),
            all == views(defs@),
            out == max_bound_first(all, i as nat, max),
        decreases defs.len() - i,
    {
        let inner: CVar = max_of_list(&defs[i].params, out);
        out = max_cvar_in_cexpr(&defs[i].body, inner);
        i = i + 1;
        assert(all[i - 1] == defs@[i - 1]@);
    }
    out
}

/// The largest variable that a program binds, or zero.
pub fn max_cvar_in_program(funcs: &Vec<CTopLevelFn>) -> (r: CVar)
    ensures
        r == max_in_program(views(funcs@)),
{
    let mut out: CVar = 0;
    let mut i: usize = 0;
    let ghost all = views(funcs@);
    assert(all.subrange(0, 0) =~= Seq::<CTopLevelFnV>::empty());
    while i < funcs.len()
        invariant
            i <= funcs.len(),
            all == views(funcs@),
            out == max_in_program(all.subrange(0, i as int)),
        decreases funcs.len() - i,
    {
        let inner: CVar = max_of_list(&funcs[i].def.params, out);
        out = max_cvar_in_cexpr(&funcs[i].def.body, inner);
        i = i + 1;
        proof {
            let now = all.subrange(0, i as int);
            assert(now.drop_last() =~= all.subrange(0, i - 1));
            assert(now.last() == funcs@[i - 1]@);
        }
    }
    assert(all.subrange(0, i as int) =~= all);
    out
}

/// One step of an expression, without what follows it.
pub enum Frame {
    Let { var: CVar, ty: Ty, op: PrimOp, args: Vec<CVal> },
    /// A call whose result goes on in the same place.
    Call { result_var: CVar, label: String, unit: String, args: Vec<CVal> },
}

#[verifier::ext_equal]
pub enum FrameV {
    Let { var: u32, ty: TyV, op: PrimOpV, args: Seq<CValV> },
    Call { result_var: u32, label: Seq<char>, unit: Seq<char>, args: Seq<CValV> },
}

impl View for Frame {
    type V = FrameV;

    open spec fn view(&self) -> FrameV {
        match *self {
            Frame::Let { var, ty, op, args } => FrameV::Let {
                var,
                ty: ty@,
                op: op@,
                args: views(args@),
            },
            Frame::Call { result_var, label, unit, args } => FrameV::Call {
                result_var,
                label: label@,
                unit: unit@,
                args: views(args@),
            },
        }
    }
}

/// A step with what follows it.
pub open spec fn framed(frame: FrameV, tail: CExprV) -> CExprV {
    match frame {
        FrameV::Let { var, ty, op, args } => CExprV::LetPrim {
            var,
            ty,
            op,
            args,
            cont: Box::new(tail),
        },
        FrameV::Call { result_var, label, unit, args } => CExprV::Fix {
            defs: seq![
                CFunDefV {
                    name: label,
                    params: seq![result_var],
                    body: tail,
                    carried_types: None,
                },
            ],
            body: Box::new(
                CExprV::App { func: CValV::Label(unit), args: args.push(CValV::Label(label)) },
            ),
        },
    }
}

/// Steps in order, with what follows the last.
pub open spec fn wrapped(frames: Seq<FrameV>, tail: CExprV) -> CExprV
    decreases frames.len(),
{
    if frames.len() == 0 {
        tail
    } else {
        wrapped(frames.drop_last(), framed(frames.last(), tail))
    }
}

fn put_frame(frame: Frame, tail: CExpr) -> (r: CExpr)
    ensures
        r@ == framed(frame@, tail@),
{
    match frame {
        Frame::Let { var, ty, op, args } => CExpr::LetPrim {
            var,
            ty,
            op,
            args,
            cont: Box::new(tail),
        },
        Frame::Call { result_var, label, unit, args } => {
            let mut call_args: Vec<CVal> = args;
            call_args.push(CVal::Label(label.clone()));
            let mut params: Vec<CVar> = Vec::new();
            params.push(result_var);
            let mut defs: Vec<CFunDef> = Vec::new();
            assert(params@ =~= seq![result_var]);
            defs.push(CFunDef { name: label, params, body: tail, carried_types: None });
            assert(views(defs@) =~= seq![defs@[0]@]);
            CExpr::Fix {
                defs,
                body: Box::new(CExpr::App { func: CVal::Label(unit), args: call_args }),
            }
        },
    }
}

/// Puts steps in front of an expression.
pub fn wrap_frames(frames: Vec<Frame>, tail: CExpr) -> (r: CExpr)
    ensures
        r@ == wrapped(views(frames@), tail@),
{
    let mut left: Vec<Frame> = frames;
    let mut out: CExpr = tail;
    let ghost all = views(frames@);
    let ghost end = tail@;
    while left.len() > 0
        invariant
            wrapped(all, end) == wrapped(views(left@), out@),
        decreases left.len(),
    {
        let ghost before = left@;
        let frame: Frame = left.pop().unwrap();
        out = put_frame(frame, out);
        proof {
            assert(left@ =~= before.drop_last());
            assert(views(before).drop_last() =~= views(left@));
            assert(views(before).last() == frame@);
        }
    }
    out
}

/// How far a term has been turned back.
#[verifier::ext_equal]
pub struct RebuildV {
    pub fresh: FreshVars,
    /// The value of each node that steps were made for.
    pub memo: Map<usize, CValV>,
    pub frames: Seq<FrameV>,
}

/// How far a term has been turned back.
pub struct Rebuild {
    /// The value of each node that steps were made for.
    pub memo: Table<usize, CVal>,
    pub frames: Vec<Frame>,
}

/// What was rebuilt of a node.
pub struct RebuiltV {
    pub st: RebuildV,
    pub value: Option<CValV>,
}

/// What was rebuilt of several nodes.
pub struct RebuiltAllV {
    pub st: RebuildV,
    pub values: Option<Seq<CValV>>,
}

/// The operation and the type that a symbol stands for.
pub open spec fn op_of(fwd: ForwardV, symbol: Seq<char>) -> Option<(PrimOpV, TyV)> {
    if let Some(raw) = entry_of(fwd.raw_ops, symbol) {
        Some((PrimOpV::RawMlirOp { op: raw.op, attrs: raw.attrs }, raw.ty))
    } else if let Some(s) = entry_of(fwd.struct_ops, symbol) {
        Some((PrimOpV::Struct(s.name, s.fields), s.ty))
    } else if let Some(f) = entry_of(fwd.field_ops, symbol) {
        Some((PrimOpV::Field { struct_ty: f.struct_ty, field: f.field }, f.ty))
    } else if let Some(ty) = entry_of(fwd.array_ops, symbol) {
        Some((PrimOpV::Array, ty))
    } else if let Some(ty) = entry_of(fwd.array_repeat_ops, symbol) {
        Some((PrimOpV::ArrayRepeat, ty))
    } else if let Some(l) = entry_of(fwd.load_ops, symbol) {
        Some((PrimOpV::Load { array_ty: l.array_ty }, l.ty))
    } else {
        None
    }
}

/// The value of a free symbol, with parameters renamed.
pub open spec fn free_value(fwd: ForwardV, subst: Map<u32, u32>, symbol: Seq<char>) -> Option<CValV> {
    if fwd.free_vars.contains_key(symbol) {
        match fwd.free_vars[symbol] {
            CValV::Var(cv) => if subst.contains_key(cv) {
                Some(CValV::Var(subst[cv]))
            } else {
                Some(CValV::Var(cv))
            },
            other => Some(other),
        }
    } else {
        None
    }
}

/// One more step, for the operation or the call that a symbol stands for.
pub open spec fn stepped(
    fwd: ForwardV,
    id: usize,
    symbol: Seq<char>,
    args: Seq<CValV>,
    st: RebuildV,
) -> RebuiltV {
    let var = st.fresh.upcoming_var;
    let value = CValV::Var(var);
    match op_of(fwd, symbol) {
        Some((op, ty)) => RebuiltV {
            st: RebuildV {
                fresh: after_var(st.fresh),
                memo: st.memo.insert(id, value),
                frames: st.frames.push(FrameV::Let { var, ty, op, args }),
            },
            value: Some(value),
        },
        None => if fwd.call_units.contains(symbol) {
            let label = label_text("k"@, st.fresh.upcoming_label);
            RebuiltV {
                st: RebuildV {
                    fresh: after_label(after_var(st.fresh)),
                    memo: st.memo.insert(id, value),
                    frames: st.frames.push(
                        FrameV::Call { result_var: var, label, unit: symbol, args },
                    ),
                },
                value: Some(value),
            }
        } else {
            RebuiltV { st, value: None }
        },
    }
}

/// Turns the node at a place back: first its children, in order, then the step that
/// it stands for. A node that was turned back before is not turned back again. None
/// for a symbol that stands for nothing.
pub open spec fn rebuilt(
    nodes: Seq<CleaveLangV>,
    id: usize,
    fwd: ForwardV,
    subst: Map<u32, u32>,
    st: RebuildV,
) -> RebuiltV
    decreases id, 1nat, 0nat,
{
    if st.memo.contains_key(id) {
        RebuiltV { st, value: Some(st.memo[id]) }
    } else if id >= nodes.len() {
        RebuiltV { st, value: None }
    } else {
        match nodes[id as int] {
            CleaveLangV::Int(n) => RebuiltV { st, value: Some(CValV::Int(n)) },
            CleaveLangV::Float(n) => RebuiltV { st, value: Some(CValV::Float(n)) },
            CleaveLangV::Bool(b) => RebuiltV { st, value: Some(CValV::Bool(b)) },
            CleaveLangV::Free(symbol) => RebuiltV { st, value: free_value(fwd, subst, symbol) },
            CleaveLangV::Op(symbol, children) => {
                let a = rebuilt_first(nodes, id, children, children.len(), fwd, subst, st);
                match a.values {
                    None => RebuiltV { st: a.st, value: None },
                    Some(args) => stepped(fwd, id, symbol, args, a.st),
                }
            },
        }
    }
}

/// Turns the first `n` children of a node back.
pub open spec fn rebuilt_first(
    nodes: Seq<CleaveLangV>,
    id: usize,
    children: Seq<usize>,
    n: nat,
    fwd: ForwardV,
    subst: Map<u32, u32>,
    st: RebuildV,
) -> RebuiltAllV
    decreases id, 0nat, n,
{
    if n == 0 || n > children.len() {
        RebuiltAllV { st, values: Some(Seq::empty()) }
    } else {
        let before = rebuilt_first(nodes, id, children, (n - 1) as nat, fwd, subst, st);
        match before.values {
            None => before,
            Some(values) => if children[n - 1] < id {
                let one = rebuilt(nodes, children[n - 1], fwd, subst, before.st);
                RebuiltAllV {
                    st: one.st,
                    values: match one.value {
                        Some(v) => Some(values.push(v)),
                        None => None,
                    },
                }
            } else {
                RebuiltAllV { st: before.st, values: None }
            },
        }
    }
}

/// A value or nothing, by its view.
pub open spec fn opt_cval(v: Option<CVal>) -> Option<CValV> {
    match v {
        Some(val) => Some(val@),
        None => None,
    }
}

/// An operation and its type or nothing, by their views.
pub open spec fn opt_op(o: Option<(PrimOp, Ty)>) -> Option<(PrimOpV, TyV)> {
    match o {
        Some(p) => Some((p.0@, p.1@)),
        None => None,
    }
}

fn find_op(fwd: &Forward, symbol: &String) -> (r: Option<(PrimOp, Ty)>)
    ensures
        opt_op(r) == op_of(fwd@, symbol@),
{
    if let Some(raw) = fwd.raw_ops.find(symbol.as_str()) {
        return Some(
            (PrimOp::RawMlirOp { op: raw.op.clone(), attrs: dup_list(&raw.attrs) }, raw.ty.dup()),
        );
    }
    if let Some(s) = fwd.struct_ops.find(symbol.as_str()) {
        return Some((PrimOp::Struct(s.name.clone(), dup_list(&s.fields)), s.ty.dup()));
    }
    if let Some(f) = fwd.field_ops.find(symbol.as_str()) {
        return Some(
            (
                PrimOp::Field { struct_ty: f.struct_ty.dup(), field: f.field.clone() },
                f.ty.dup(),
            ),
        );
    }
    if let Some(ty) = fwd.array_ops.find(symbol.as_str()) {
        return Some((PrimOp::Array, ty.dup()));
    }
    if let Some(ty) = fwd.array_repeat_ops.find(symbol.as_str()) {
        return Some((PrimOp::ArrayRepeat, ty.dup()));
    }
    if let Some(l) = fwd.load_ops.find(symbol.as_str()) {
        return Some((PrimOp::Load { array_ty: l.array_ty.dup() }, l.ty.dup()));
    }
    None
}

fn find_free(fwd: &Forward, subst: &Table<u32, u32>, symbol: &String) -> (r: Option<CVal>)
    ensures
        opt_cval(r) == free_value(fwd@, subst@, symbol@),
{
    match fwd.free_vars.get(symbol) {
        None => None,
        Some(v) => match v {
            CVal::Var(cv) => match subst.get(cv) {
                Some(new_var) => Some(CVal::Var(*new_var)),
                None => Some(CVal::Var(*cv)),
            },
            other => Some(other.dup()),
        },
    }
}

impl Rebuild {
    /// With a supply of fresh variables, how far a term has been turned back.
    pub open spec fn with_fresh(&self, fresh: FreshVars) -> RebuildV {
        RebuildV { fresh, memo: self.memo@, frames: views(self.frames@) }
    }

    /// Nothing has been turned back.
    pub fn new() -> (r: Self)
        ensures
            r.memo@ == Map::<usize, CValV>::empty(),
            views(r.frames@) == Seq::<FrameV>::empty(),
    {
        Rebuild { memo: Table::new(), frames: Vec::new() }
    }

    fn step(
        &mut self,
        fwd: &Forward,
        id: usize,
        symbol: &String,
        args: Vec<CVal>,
        fresh: &mut FreshVars,
    ) -> (r: Option<CVal>)
        ensures
            ({
                let s = stepped(
                    fwd@,
                    id,
                    symbol@,
                    views(args@),
                    old(self).with_fresh(*old(fresh)),
                );
                final(self).with_fresh(*final(fresh)) == s.st && opt_cval(r) == s.value
            }),
    {
        match find_op(fwd, symbol) {
            Some((op, ty)) => {
                let var: CVar = fresh.var();
                self.memo.insert(id, CVal::Var(var));
                self.frames.push(Frame::Let { var, ty, op, args });
                Some(CVal::Var(var))
            },
            None => if fwd.call_units.has_name(symbol) {
                let var: CVar = fresh.var();
                self.memo.insert(id, CVal::Var(var));
                let label: String = fresh.label("k");
                self.frames.push(
                    Frame::Call { result_var: var, label, unit: symbol.clone(), args },
                );
                Some(CVal::Var(var))
            } else {
                None
            },
        }
    }

    /// Turns the node at a place back.
    pub fn rebuild(
        &mut self,
        nodes: &Vec<CleaveLang>,
        id: usize,
        fwd: &Forward,
        subst: &Table<u32, u32>,
        fresh: &mut FreshVars,
    ) -> (r: Option<CVal>)
        ensures
            ({
                let b = rebuilt(
                    views(nodes@),
                    id,
                    fwd@,
                    subst@,
                    old(self).with_fresh(*old(fresh)),
                );
                final(self).with_fresh(*final(fresh)) == b.st && opt_cval(r) == b.value
            }),
        decreases id, 1nat,
    {
        if let Some(v) = self.memo.get(&id) {
            return Some(v.dup());
        }
        if id >= nodes.len() {
            return None;
        }
        assert(views(nodes@)[id as int] == nodes@[id as int]@);
        match &nodes[id] {
            CleaveLang::Int(n) => Some(CVal::Int(*n)),
            CleaveLang::Float(n) => Some(CVal::Float(*n)),
            CleaveLang::Bool(b) => Some(CVal::Bool(*b)),
            CleaveLang::Free(symbol) => find_free(fwd, subst, symbol),
            CleaveLang::Op(symbol, children) => match self.rebuild_args(
                nodes,
                id,
                children,
                fwd,
                subst,
                fresh,
            ) {
                None => None,
                Some(args) => self.step(fwd, id, symbol, args, fresh),
            },
        }
    }

    /// Turns the children of a node back.
    fn rebuild_args(
        &mut self,
        nodes: &Vec<CleaveLang>,
        id: usize,
        children: &Vec<usize>,
        fwd: &Forward,
        subst: &Table<u32, u32>,
        fresh: &mut FreshVars,
    ) -> (r: Option<Vec<CVal>>)
        ensures
            ({
                let a = rebuilt_first(
                    views(nodes@),
                    id,
                    children@,
                    children@.len(),
                    fwd@,
                    subst@,
                    old(self).with_fresh(*old(fresh)),
                );
                &&& final(self).with_fresh(*final(fresh)) == a.st
                &&& match r {
                    Some(values) => a.values == Some(views(values@)),
                    None => a.values is None,
                }
            }),
        decreases id, 0nat,
    {
        let mut out: Vec<CVal> = Vec::new();
        let mut done: bool = false;
        let mut i: usize = 0;
        let ghost start = self.with_fresh(*fresh);
        while i < children.len()
            invariant
                i <= children.len(),
                start == old(self).with_fresh(*old(fresh)),
                ({
                    let a = rebuilt_first(
                        views(nodes@),
                        id,
                        children@,
                        i as nat,
                        fwd@,
                        subst@,
                        start,
                    );
                    &&& self.with_fresh(*fresh) == a.st
                    &&& match a.values {
                        Some(values) => !done && values == views(out@),
                        None => done,
                    }
                }),
            decreases children.len() - i,
        {
            if !done {
                let child: usize = children[i];
                if child < id {
                    match self.rebuild(nodes, child, fwd, subst, fresh) {
                        Some(v) => {
                            out.push(v);
                        },
                        None => {
                            done = true;
                        },
                    }
                } else {
                    done = true;
                }
            }
            i = i + 1;
        }
        if done {
            None
        } else {
            Some(out)
        }
    }
}

/// The expression that a term and what follows it become, with the fresh names that
/// are left.
pub struct SegmentV {
    pub expr: Option<CExprV>,
    pub fresh: FreshVars,
}

/// Turns a term back and puts its value in place of the variable that it was bound
/// to in what follows.
pub open spec fn segment_rebuilt(
    nodes: Seq<CleaveLangV>,
    root: usize,
    old_root_var: u32,
    boundary: CExprV,
    fwd: ForwardV,
    fresh: FreshVars,
) -> SegmentV {
    let b = rebuilt(
        nodes,
        root,
        fwd,
        Map::empty(),
        RebuildV { fresh, memo: Map::empty(), frames: Seq::empty() },
    );
    SegmentV {
        expr: match b.value {
            Some(v) => Some(wrapped(b.st.frames, substituted_var(boundary, old_root_var, v))),
            None => None,
        },
        fresh: b.st.fresh,
    }
}

/// An expression or nothing, by its view.
pub open spec fn opt_cexpr(e: Option<CExpr>) -> Option<CExprV> {
    match e {
        Some(x) => Some(x@),
        None => None,
    }
}

/// Turns a term back and puts its value in place of the variable that it was bound
/// to in what follows.
pub fn rebuild_segment(
    nodes: &Vec<CleaveLang>,
    root: usize,
    old_root_var: CVar,
    boundary: &CExpr,
    fwd: &Forward,
    fresh: &mut FreshVars,
) -> (r: Option<CExpr>)
    ensures
        ({
            let s = segment_rebuilt(
                views(nodes@),
                root,
                old_root_var,
                boundary@,
                fwd@,
                *old(fresh),
            );
            opt_cexpr(r) == s.expr && *final(fresh) == s.fresh
        }),
{
    let no_substitution: Table<u32, u32> = Table::new();
    let mut st: Rebuild = Rebuild::new();
    match st.rebuild(nodes, root, fwd, &no_substitution, fresh) {
        None => None,
        Some(v) => Some(wrap_frames(st.frames, substitute_var(boundary, old_root_var, &v))),
    }
}

} // verus!
