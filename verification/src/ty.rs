//! Types.

use vstd::prelude::*;

use crate::const_eval::ConstValue;
use crate::table::views;

verus! {

/// A type variable.
#[derive(Clone, Copy, PartialEq, Eq, Structural, Hash, PartialOrd, Ord, Debug)]
pub struct TyVar(pub u32);

/// A type.
#[derive(PartialEq, Eq, Debug)]
pub enum Ty {
    Var(TyVar),
    /// A list of types of a length that is not known yet.
    Pack(TyVar),
    /// What a pack stands for once it is known.
    PackResolved(Vec<Ty>),
    /// The length of a pack.
    PackLen(TyVar),
    Con(String),
    App(String, Vec<Ty>),
    Fn(Vec<Ty>, Box<Ty>),
    Array(Box<Ty>, Box<Ty>),
    Const(ConstValue),
    /// An operation on two constants, at least one of which is not known yet.
    ConstExpr(String, Box<Ty>, Box<Ty>),
}

/// What a [`Ty`] is, with texts and lists as sequences.
#[verifier::ext_equal]
pub enum TyV {
    Var(u32),
    Pack(u32),
    PackResolved(Seq<TyV>),
    PackLen(u32),
    Con(Seq<char>),
    App(Seq<char>, Seq<TyV>),
    Fn(Seq<TyV>, Box<TyV>),
    Array(Box<TyV>, Box<TyV>),
    Const(ConstValue),
    ConstExpr(Seq<char>, Box<TyV>, Box<TyV>),
}

closed spec fn ty_view(t: Ty) -> TyV
    decreases t,
{
    match t {
        Ty::Var(v) => TyV::Var(v.0),
        Ty::Pack(v) => TyV::Pack(v.0),
        Ty::PackResolved(elems) => TyV::PackResolved(
            Seq::new(
                elems@.len(),
                |i: int|
                    if 0 <= i < elems@.len() {
                        ty_view(elems@[i])
                    } else {
                        arbitrary()
                    },
            ),
        ),
        Ty::PackLen(v) => TyV::PackLen(v.0),
        Ty::Con(name) => TyV::Con(name@),
        Ty::App(name, args) => TyV::App(
            name@,
            Seq::new(
                args@.len(),
                |i: int|
                    if 0 <= i < args@.len() {
                        ty_view(args@[i])
                    } else {
                        arbitrary()
                    },
            ),
        ),
        Ty::Fn(params, ret) => TyV::Fn(
            Seq::new(
                params@.len(),
                |i: int|
                    if 0 <= i < params@.len() {
                        ty_view(params@[i])
                    } else {
                        arbitrary()
                    },
            ),
            Box::new(ty_view(*ret)),
        ),
        Ty::Array(elem, size) => TyV::Array(Box::new(ty_view(*elem)), Box::new(ty_view(*size))),
        Ty::Const(c) => TyV::Const(c),
        Ty::ConstExpr(op, a, b) => TyV::ConstExpr(
            op@,
            Box::new(ty_view(*a)),
            Box::new(ty_view(*b)),
        ),
    }
}

impl View for Ty {
    type V = TyV;

    closed spec fn view(&self) -> TyV {
        ty_view(*self)
    }
}

/// A type's view, by the views of its parts.
pub open spec fn ty_parts(t: Ty) -> TyV {
    match t {
        Ty::Var(v) => TyV::Var(v.0),
        Ty::Pack(v) => TyV::Pack(v.0),
        Ty::PackResolved(elems) => TyV::PackResolved(views(elems@)),
        Ty::PackLen(v) => TyV::PackLen(v.0),
        Ty::Con(name) => TyV::Con(name@),
        Ty::App(name, args) => TyV::App(name@, views(args@)),
        Ty::Fn(params, ret) => TyV::Fn(views(params@), Box::new(ret@)),
        Ty::Array(elem, size) => TyV::Array(Box::new(elem@), Box::new(size@)),
        Ty::Const(c) => TyV::Const(c),
        Ty::ConstExpr(op, a, b) => TyV::ConstExpr(op@, Box::new(a@), Box::new(b@)),
    }
}

pub proof fn lemma_ty_view(t: Ty)
    ensures
        t@ == ty_parts(t),
{
    match t {
        Ty::PackResolved(elems) => {
            assert(t@->PackResolved_0 =~= views(elems@));
        },
        Ty::App(name, args) => {
            assert(t@->App_1 =~= views(args@));
        },
        Ty::Fn(params, ret) => {
            assert(t@->Fn_0 =~= views(params@));
        },
        _ => {},
    }
}

pub broadcast proof fn lemma_view_var(v: TyVar)
    ensures
        (#[trigger] Ty::Var(v)@) == TyV::Var(v.0),
{
    lemma_ty_view(Ty::Var(v));
}

pub broadcast proof fn lemma_view_pack(v: TyVar)
    ensures
        (#[trigger] Ty::Pack(v)@) == TyV::Pack(v.0),
{
    lemma_ty_view(Ty::Pack(v));
}

pub broadcast proof fn lemma_view_pack_resolved(elems: Vec<Ty>)
    ensures
        (#[trigger] Ty::PackResolved(elems)@) == TyV::PackResolved(views(elems@)),
{
    lemma_ty_view(Ty::PackResolved(elems));
}

pub broadcast proof fn lemma_view_pack_len(v: TyVar)
    ensures
        (#[trigger] Ty::PackLen(v)@) == TyV::PackLen(v.0),
{
    lemma_ty_view(Ty::PackLen(v));
}

pub broadcast proof fn lemma_view_con(name: String)
    ensures
        (#[trigger] Ty::Con(name)@) == TyV::Con(name@),
{
    lemma_ty_view(Ty::Con(name));
}

pub broadcast proof fn lemma_view_app(name: String, args: Vec<Ty>)
    ensures
        (#[trigger] Ty::App(name, args)@) == TyV::App(name@, views(args@)),
{
    lemma_ty_view(Ty::App(name, args));
}

pub broadcast proof fn lemma_view_fn(params: Vec<Ty>, ret: Box<Ty>)
    ensures
        (#[trigger] Ty::Fn(params, ret)@) == TyV::Fn(views(params@), Box::new(ret@)),
{
    lemma_ty_view(Ty::Fn(params, ret));
}

pub broadcast proof fn lemma_view_array(elem: Box<Ty>, size: Box<Ty>)
    ensures
        (#[trigger] Ty::Array(elem, size)@) == TyV::Array(Box::new(elem@), Box::new(size@)),
{
    lemma_ty_view(Ty::Array(elem, size));
}

pub broadcast proof fn lemma_view_const(c: ConstValue)
    ensures
        (#[trigger] Ty::Const(c)@) == TyV::Const(c),
{
    lemma_ty_view(Ty::Const(c));
}

pub broadcast proof fn lemma_view_const_expr(op: String, a: Box<Ty>, b: Box<Ty>)
    ensures
        (#[trigger] Ty::ConstExpr(op, a, b)@) == TyV::ConstExpr(op@, Box::new(a@), Box::new(b@)),
{
    lemma_ty_view(Ty::ConstExpr(op, a, b));
}

pub broadcast group group_ty {
    lemma_view_var,
    lemma_view_pack,
    lemma_view_pack_resolved,
    lemma_view_pack_len,
    lemma_view_con,
    lemma_view_app,
    lemma_view_fn,
    lemma_view_array,
    lemma_view_const,
    lemma_view_const_expr,
}

} // verus!
