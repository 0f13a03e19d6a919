//! Copies of expressions, and fresh names for them.

use vstd::prelude::*;

use crate::ast::following;
use crate::cps::{carried_view, CExpr, CFunDef, CVal, CTopLevelFn, CVar, PrimOp};
use crate::cps::{group_cps, lemma_cexpr_view};
use crate::table::{dup_list, group_views, views, Dup};
use crate::text;
use crate::ty::Ty;
use crate::types::dup_tys;

verus! {

broadcast use {group_views, group_cps};

/// A copy of a list of variables.
pub fn dup_vars(v: &Vec<u32>) -> (r: Vec<u32>)
    ensures
        r@ == v@,
{
    let mut out: Vec<u32> = Vec::new();
    let mut i: usize = 0;
    while i < v.len()
        invariant
            i <= v.len(),
            out@ == v@.subrange(0, i as int),
        decreases v.len() - i,
    {
        out.push(v[i]);
        i = i + 1;
        assert(out@ =~= v@.subrange(0, i as int));
    }
    assert(v@.subrange(0, i as int) =~= v@);
    out
}

impl Dup for CVal {
    fn dup(&self) -> (r: Self) {
        match self {
            CVal::Var(v) => CVal::Var(*v),
            CVal::Int(n) => CVal::Int(*n),
            CVal::Float(n) => CVal::Float(*n),
            CVal::Bool(b) => CVal::Bool(*b),
            CVal::Unit => CVal::Unit,
            CVal::Label(name) => CVal::Label(name.clone()),
            CVal::Closure { label, captured } => CVal::Closure {
                label: label.clone(),
                captured: dup_vars(captured),
            },
        }
    }
}

impl Dup for PrimOp {
    fn dup(&self) -> (r: Self) {
        match self {
            PrimOp::RawMlirOp { op, attrs } => PrimOp::RawMlirOp {
                op: op.clone(),
                attrs: dup_list(attrs),
            },
            PrimOp::Struct(name, fields) => PrimOp::Struct(name.clone(), dup_list(fields)),
            PrimOp::Field { struct_ty, field } => PrimOp::Field {
                struct_ty: struct_ty.dup(),
                field: field.clone(),
            },
            PrimOp::FieldStore { struct_ty, field } => PrimOp::FieldStore {
                struct_ty: struct_ty.dup(),
                field: field.clone(),
            },
            PrimOp::Array => PrimOp::Array,
            PrimOp::ArrayRepeat => PrimOp::ArrayRepeat,
            PrimOp::Load { array_ty } => PrimOp::Load { array_ty: array_ty.dup() },
            PrimOp::Store { array_ty } => PrimOp::Store { array_ty: array_ty.dup() },
            PrimOp::Extern { symbol, param_types } => PrimOp::Extern {
                symbol: symbol.clone(),
                param_types: dup_tys(param_types),
            },
        }
    }
}

/// A copy of the types that a loop header carries.
pub fn dup_carried(c: &Option<Vec<Ty>>) -> (r: Option<Vec<Ty>>)
    ensures
        carried_view(r) == carried_view(*c),
{
    match c {
        Some(tys) => Some(dup_tys(tys)),
        None => None,
    }
}

fn dup_cexpr(e: &CExpr) -> (r: CExpr)
    ensures
        r@ == e@,
    decreases e, 0nat,
{
    proof {
        lemma_cexpr_view(*e);
    }
    match e {
        CExpr::LetPrim { var, ty, op, args, cont } => CExpr::LetPrim {
            var: *var,
            ty: ty.dup(),
            op: op.dup(),
            args: dup_list(args),
            cont: Box::new(dup_cexpr(cont)),
        },
        CExpr::App { func, args } => CExpr::App { func: func.dup(), args: dup_list(args) },
        CExpr::If { cond, then_branch, else_branch } => CExpr::If {
            cond: cond.dup(),
            then_branch: Box::new(dup_cexpr(then_branch)),
            else_branch: Box::new(dup_cexpr(else_branch)),
        },
        CExpr::Fix { defs, body } => CExpr::Fix {
            defs: dup_defs(defs),
            body: Box::new(dup_cexpr(body)),
        },
    }
}

fn dup_defs(defs: &Vec<CFunDef>) -> (r: Vec<CFunDef>)
    ensures
        views(r@) == views(defs@),
    decreases defs, 0nat,
{
    let mut out: Vec<CFunDef> = Vec::new();
    let mut i: usize = 0;
    while i < defs.len()
        invariant
            i <= defs.len(),
            views(out@) == views(defs@.subrange(0, i as int)),
        decreases defs.len() - i,
    {
        out.push(
            CFunDef {
                name: defs[i].name.clone(),
                params: dup_vars(&defs[i].params),
                body: dup_cexpr(&defs[i].body),
                carried_types: dup_carried(&defs[i].carried_types),
            },
        );
        i = i + 1;
        assert(defs@.subrange(0, i as int) =~= defs@.subrange(0, i - 1).push(defs@[i - 1]));
    }
    assert(defs@.subrange(0, i as int) =~= defs@);
    out
}

impl Dup for CExpr {
    fn dup(&self) -> (r: Self) {
        dup_cexpr(self)
    }
}

impl Dup for CFunDef {
    fn dup(&self) -> (r: Self) {
        CFunDef {
            name: self.name.clone(),
            params: dup_vars(&self.params),
            body: dup_cexpr(&self.body),
            carried_types: dup_carried(&self.carried_types),
        }
    }
}

impl Dup for CTopLevelFn {
    fn dup(&self) -> (r: Self) {
        CTopLevelFn {
            def: self.def.dup(),
            param_types: dup_tys(&self.param_types),
            result: self.result.dup(),
            k_ret: self.k_ret,
            origin: match &self.origin {
                Some(p) => Some((p.0.clone(), p.1.clone())),
                None => None,
            },
        }
    }
}

/// The supply of variables and labels that no expression uses yet.
pub struct FreshVars {
    pub upcoming_var: CVar,
    pub upcoming_label: u32,
}

/// The text of the label with the prefix and the number.
pub open spec fn label_text(prefix: Seq<char>, n: u32) -> Seq<char> {
    prefix + "$"@ + text::decimal(n as nat)
}

/// A supply that has handed out one more variable.
pub open spec fn after_var(f: FreshVars) -> FreshVars {
    FreshVars { upcoming_var: following(f.upcoming_var), upcoming_label: f.upcoming_label }
}

/// A supply that has handed out one more label.
pub open spec fn after_label(f: FreshVars) -> FreshVars {
    FreshVars { upcoming_var: f.upcoming_var, upcoming_label: following(f.upcoming_label) }
}

impl FreshVars {
    /// A supply that starts with variable zero.
    pub fn new() -> (r: Self)
        ensures
            r == (FreshVars { upcoming_var: 0, upcoming_label: 0 }),
    {
        FreshVars { upcoming_var: 0, upcoming_label: 0 }
    }

    /// A supply that starts with the given variable.
    pub fn starting_at(first: CVar) -> (r: Self)
        ensures
            r == (FreshVars { upcoming_var: first, upcoming_label: 0 }),
    {
        FreshVars { upcoming_var: first, upcoming_label: 0 }
    }

    /// The next variable.
    pub fn var(&mut self) -> (r: CVar)
        ensures
            r == old(self).upcoming_var,
            *final(self) == after_var(*old(self)),
    {
        let v: u32 = self.upcoming_var;
        self.upcoming_var = v.wrapping_add(1);
        v
    }

    /// The next label with the prefix.
    pub fn label(&mut self, prefix: &str) -> (r: String)
        ensures
            r@ == label_text(prefix@, old(self).upcoming_label),
            *final(self) == after_label(*old(self)),
    {
        let n: u32 = self.upcoming_label;
        self.upcoming_label = n.wrapping_add(1);
        let digits: String = text::decimal_text(n as u64);
        text::glued3(prefix, "$", digits.as_str())
    }
}

} // verus!
