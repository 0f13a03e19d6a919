//! Programs in continuation-passing style.

use vstd::prelude::*;

use crate::table::views;
use crate::ty::{Ty, TyV};

verus! {

/// A variable, unique over a whole program.
pub type CVar = u32;

/// A value that needs no computation.
#[derive(PartialEq, Eq, Debug)]
pub enum CVal {
    Var(CVar),
    Int(u64),
    /// A floating-point number, by its bits.
    Float(u64),
    Bool(bool),
    Unit,
    /// The name of a function or of a local continuation.
    Label(String),
    Closure { label: String, captured: Vec<CVar> },
}

/// What a [`CVal`] is, with texts and lists as sequences.
#[verifier::ext_equal]
pub enum CValV {
    Var(u32),
    Int(u64),
    Float(u64),
    Bool(bool),
    Unit,
    Label(Seq<char>),
    Closure { label: Seq<char>, captured: Seq<u32> },
}

impl View for CVal {
    type V = CValV;

    open spec fn view(&self) -> CValV {
        match *self {
            CVal::Var(v) => CValV::Var(v),
            CVal::Int(n) => CValV::Int(n),
            CVal::Float(n) => CValV::Float(n),
            CVal::Bool(b) => CValV::Bool(b),
            CVal::Unit => CValV::Unit,
            CVal::Label(name) => CValV::Label(name@),
            CVal::Closure { label, captured } => CValV::Closure { label: label@, captured: captured@ },
        }
    }
}

/// An operation that computes a value from values.
#[derive(PartialEq, Eq, Debug)]
pub enum PrimOp {
    RawMlirOp { op: String, attrs: Vec<(String, String)> },
    /// Builds a struct of the name from its fields, in the order of their names.
    Struct(String, Vec<String>),
    Field { struct_ty: Ty, field: String },
    FieldStore { struct_ty: Ty, field: String },
    Array,
    ArrayRepeat,
    Load { array_ty: Ty },
    Store { array_ty: Ty },
    Extern { symbol: String, param_types: Vec<Ty> },
}

/// What a [`PrimOp`] is, with texts and lists as sequences.
#[verifier::ext_equal]
pub enum PrimOpV {
    RawMlirOp { op: Seq<char>, attrs: Seq<(Seq<char>, Seq<char>)> },
    Struct(Seq<char>, Seq<Seq<char>>),
    Field { struct_ty: TyV, field: Seq<char> },
    FieldStore { struct_ty: TyV, field: Seq<char> },
    Array,
    ArrayRepeat,
    Load { array_ty: TyV },
    Store { array_ty: TyV },
    Extern { symbol: Seq<char>, param_types: Seq<TyV> },
}

impl View for PrimOp {
    type V = PrimOpV;

    open spec fn view(&self) -> PrimOpV {
        match *self {
            PrimOp::RawMlirOp { op, attrs } => PrimOpV::RawMlirOp { op: op@, attrs: views(attrs@) },
            PrimOp::Struct(name, fields) => PrimOpV::Struct(name@, views(fields@)),
            PrimOp::Field { struct_ty, field } => PrimOpV::Field {
                struct_ty: struct_ty@,
                field: field@,
            },
            PrimOp::FieldStore { struct_ty, field } => PrimOpV::FieldStore {
                struct_ty: struct_ty@,
                field: field@,
            },
            PrimOp::Array => PrimOpV::Array,
            PrimOp::ArrayRepeat => PrimOpV::ArrayRepeat,
            PrimOp::Load { array_ty } => PrimOpV::Load { array_ty: array_ty@ },
            PrimOp::Store { array_ty } => PrimOpV::Store { array_ty: array_ty@ },
            PrimOp::Extern { symbol, param_types } => PrimOpV::Extern {
                symbol: symbol@,
                param_types: views(param_types@),
            },
        }
    }
}

/// An expression.
#[derive(PartialEq, Eq, Debug)]
pub enum CExpr {
    /// Binds `var` to what the operation computes, then goes on.
    LetPrim { var: CVar, ty: Ty, op: PrimOp, args: Vec<CVal>, cont: Box<CExpr> },
    /// A jump.
    App { func: CVal, args: Vec<CVal> },
    If { cond: CVal, then_branch: Box<CExpr>, else_branch: Box<CExpr> },
    /// Local continuations, and the expression that may jump to them.
    Fix { defs: Vec<CFunDef>, body: Box<CExpr> },
}

/// A function or a local continuation.
#[derive(PartialEq, Eq, Debug)]
pub struct CFunDef {
    pub name: String,
    pub params: Vec<CVar>,
    pub body: CExpr,
    /// For a loop header, the types of what it carries from turn to turn.
    pub carried_types: Option<Vec<Ty>>,
}

/// What a [`CExpr`] is, with texts and lists as sequences.
#[verifier::ext_equal]
pub enum CExprV {
    LetPrim { var: u32, ty: TyV, op: PrimOpV, args: Seq<CValV>, cont: Box<CExprV> },
    App { func: CValV, args: Seq<CValV> },
    If { cond: CValV, then_branch: Box<CExprV>, else_branch: Box<CExprV> },
    Fix { defs: Seq<CFunDefV>, body: Box<CExprV> },
}

/// What a [`CFunDef`] is, with texts and lists as sequences.
#[verifier::ext_equal]
pub struct CFunDefV {
    pub name: Seq<char>,
    pub params: Seq<u32>,
    pub body: CExprV,
    pub carried_types: Option<Seq<TyV>>,
}

/// The types that a loop header carries, by their views.
pub open spec fn carried_view(c: Option<Vec<Ty>>) -> Option<Seq<TyV>> {
    match c {
        Some(tys) => Some(views(tys@)),
        None => None,
    }
}

closed spec fn cexpr_view(e: CExpr) -> CExprV
    decreases e,
{
    match e {
        CExpr::LetPrim { var, ty, op, args, cont } => CExprV::LetPrim {
            var,
            ty: ty@,
            op: op@,
            args: views(args@),
            cont: Box::new(cexpr_view(*cont)),
        },
        CExpr::App { func, args } => CExprV::App { func: func@, args: views(args@) },
        CExpr::If { cond, then_branch, else_branch } => CExprV::If {
            cond: cond@,
            then_branch: Box::new(cexpr_view(*then_branch)),
            else_branch: Box::new(cexpr_view(*else_branch)),
        },
        CExpr::Fix { defs, body } => CExprV::Fix {
            defs: Seq::new(
                defs@.len(),
                |i: int|
                    if 0 <= i < defs@.len() {
                        cfundef_view(defs@[i])
                    } else {
                        arbitrary()
                    },
            ),
            body: Box::new(cexpr_view(*body)),
        },
    }
}

closed spec fn cfundef_view(d: CFunDef) -> CFunDefV
    decreases d,
{
    CFunDefV {
        name: d.name@,
        params: d.params@,
        body: cexpr_view(d.body),
        carried_types: carried_view(d.carried_types),
    }
}

impl View for CExpr {
    type V = CExprV;

    closed spec fn view(&self) -> CExprV {
        cexpr_view(*self)
    }
}

impl View for CFunDef {
    type V = CFunDefV;

    closed spec fn view(&self) -> CFunDefV {
        cfundef_view(*self)
    }
}

/// An expression's view, by the views of its parts.
pub open spec fn cexpr_parts(e: CExpr) -> CExprV {
    match e {
        CExpr::LetPrim { var, ty, op, args, cont } => CExprV::LetPrim {
            var,
            ty: ty@,
            op: op@,
            args: views(args@),
            cont: Box::new(cont@),
        },
        CExpr::App { func, args } => CExprV::App { func: func@, args: views(args@) },
        CExpr::If { cond, then_branch, else_branch } => CExprV::If {
            cond: cond@,
            then_branch: Box::new(then_branch@),
            else_branch: Box::new(else_branch@),
        },
        CExpr::Fix { defs, body } => CExprV::Fix { defs: views(defs@), body: Box::new(body@) },
    }
}

pub proof fn lemma_cexpr_view(e: CExpr)
    ensures
        e@ == cexpr_parts(e),
{
    match e {
        CExpr::Fix { defs, body } => {
            assert(e@->Fix_defs =~= views(defs@));
        },
        _ => {},
    }
}

pub broadcast proof fn lemma_view_let_prim(
    var: CVar,
    ty: Ty,
    op: PrimOp,
    args: Vec<CVal>,
    cont: Box<CExpr>,
)
    ensures
        (#[trigger] CExpr::LetPrim { var, ty, op, args, cont }@) == (CExprV::LetPrim {
            var,
            ty: ty@,
            op: op@,
            args: views(args@),
            cont: Box::new(cont@),
        }),
{
    lemma_cexpr_view(CExpr::LetPrim { var, ty, op, args, cont });
}

pub broadcast proof fn lemma_view_app(func: CVal, args: Vec<CVal>)
    ensures
        (#[trigger] CExpr::App { func, args }@) == (CExprV::App { func: func@, args: views(args@) }),
{
    lemma_cexpr_view(CExpr::App { func, args });
}

pub broadcast proof fn lemma_view_if(cond: CVal, then_branch: Box<CExpr>, else_branch: Box<CExpr>)
    ensures
        (#[trigger] CExpr::If { cond, then_branch, else_branch }@) == (CExprV::If {
            cond: cond@,
            then_branch: Box::new(then_branch@),
            else_branch: Box::new(else_branch@),
        }),
{
    lemma_cexpr_view(CExpr::If { cond, then_branch, else_branch });
}

pub broadcast proof fn lemma_view_fix(defs: Vec<CFunDef>, body: Box<CExpr>)
    ensures
        (#[trigger] CExpr::Fix { defs, body }@) == (CExprV::Fix {
            defs: views(defs@),
            body: Box::new(body@),
        }),
{
    lemma_cexpr_view(CExpr::Fix { defs, body });
}

pub broadcast proof fn lemma_view_fun_def(d: CFunDef)
    ensures
        (#[trigger] d@) == (CFunDefV {
            name: d.name@,
            params: d.params@,
            body: d.body@,
            carried_types: carried_view(d.carried_types),
        }),
{
}

pub broadcast group group_cps {
    lemma_view_let_prim,
    lemma_view_app,
    lemma_view_if,
    lemma_view_fix,
    lemma_view_fun_def,
}

/// A function of a program.
pub struct CTopLevelFn {
    pub def: CFunDef,
    pub param_types: Vec<Ty>,
    pub result: Ty,
    /// The parameter that holds the continuation to return to.
    pub k_ret: CVar,
    /// For a method of an algebra, the algebra and the method.
    pub origin: Option<(String, String)>,
}

/// What a [`CTopLevelFn`] is, with texts and lists as sequences.
#[verifier::ext_equal]
pub struct CTopLevelFnV {
    pub def: CFunDefV,
    pub param_types: Seq<TyV>,
    pub result: TyV,
    pub k_ret: u32,
    pub origin: Option<(Seq<char>, Seq<char>)>,
}

/// A function's origin, as sequences.
pub open spec fn origin_view(o: Option<(String, String)>) -> Option<(Seq<char>, Seq<char>)> {
    match o {
        Some(p) => Some((p.0@, p.1@)),
        None => None,
    }
}

impl View for CTopLevelFn {
    type V = CTopLevelFnV;

    open spec fn view(&self) -> CTopLevelFnV {
        CTopLevelFnV {
            def: self.def@,
            param_types: views(self.param_types@),
            result: self.result@,
            k_ret: self.k_ret,
            origin: origin_view(self.origin),
        }
    }
}

/// A program.
pub struct CpsProgram {
    pub funcs: Vec<CTopLevelFn>,
}

} // verus!
