//! What the nodes of the syntax tree are, with texts and lists as sequences.

use vstd::prelude::*;

use crate::ast::{
    Block, ElseBranch, Expr, ExprKind, GenericArg, NodeId, Param, Path, Span, Stmt, StmtKind, Type,
    TypeKind,
};
use crate::lang::opt_text;
use crate::table::views;

verus! {

#[verifier::ext_equal]
pub enum ExprKindV {
    NumberLit { text: Seq<char>, suffix: Option<Seq<char>> },
    ImaginaryLit { text: Seq<char>, suffix: Option<Seq<char>> },
    BoolLit(bool),
    Path(Seq<Seq<char>>),
    PackRef(Seq<char>),
    Call(Seq<Seq<char>>, Seq<GenericArgV>, Seq<ExprV>, Seq<(Seq<char>, Seq<char>)>),
    FieldAccess(Box<ExprV>, Seq<char>),
    MethodCall(Box<ExprV>, Seq<char>, Seq<ExprV>),
    Index(Box<ExprV>, Seq<ExprV>),
    ArrayLit(Seq<ExprV>),
    ArrayRepeat { value: Box<ExprV>, count: Box<ExprV> },
    StructLit(Seq<Seq<char>>, Seq<GenericArgV>, Seq<(Seq<char>, ExprV)>),
    If { cond: Box<ExprV>, then_branch: BlockV, else_branch: Option<Box<ElseBranchV>> },
    While { cond: Box<ExprV>, body: BlockV },
    For { var: Seq<char>, start: Box<ExprV>, end: Box<ExprV>, body: BlockV },
    ForIn { var: Seq<char>, iter: Box<ExprV>, body: BlockV },
    Loop { body: BlockV },
    Block(BlockV),
    Lambda { params: Seq<ParamV>, ret: Option<TypeV>, body: BlockV },
}

#[verifier::ext_equal]
pub enum TypeKindV {
    Path(Seq<Seq<char>>, Seq<GenericArgV>),
    Array(Box<TypeV>, Box<ExprV>),
    Fn(Seq<TypeV>, Box<TypeV>),
    PackRef(Seq<char>),
}

#[verifier::ext_equal]
pub enum StmtKindV {
    Let { mutable: bool, name: Seq<char>, ty: Option<TypeV>, value: ExprV },
    Assign { target: ExprV, value: ExprV },
    Expr(ExprV),
    Break(Option<ExprV>),
}

#[verifier::ext_equal]
pub enum GenericArgV {
    Type(TypeV),
    Const(ExprV),
}

#[verifier::ext_equal]
pub enum ElseBranchV {
    If(ExprV),
    Block(BlockV),
}

#[verifier::ext_equal]
pub struct ExprV {
    pub id: NodeId,
    pub span: Span,
    pub kind: ExprKindV,
}

#[verifier::ext_equal]
pub struct TypeV {
    pub id: NodeId,
    pub span: Span,
    pub kind: TypeKindV,
}

#[verifier::ext_equal]
pub struct StmtV {
    pub id: NodeId,
    pub span: Span,
    pub kind: StmtKindV,
}

#[verifier::ext_equal]
pub struct BlockV {
    pub stmts: Seq<StmtV>,
    pub tail: Option<Box<ExprV>>,
}

#[verifier::ext_equal]
pub struct ParamV {
    pub name: Seq<char>,
    pub ty: Option<TypeV>,
    pub mutable: bool,
}

closed spec fn expr_kind_v(x: ExprKind) -> ExprKindV
    decreases x,
{
    match x {
        ExprKind::NumberLit { text, suffix } => {
            ExprKindV::NumberLit { text: text@, suffix: opt_text(suffix) }
        },
        ExprKind::ImaginaryLit { text, suffix } => {
            ExprKindV::ImaginaryLit { text: text@, suffix: opt_text(suffix) }
        },
        ExprKind::BoolLit(b) => ExprKindV::BoolLit(b),
        ExprKind::Path(p) => ExprKindV::Path(views(p.segments@)),
        ExprKind::PackRef(name) => ExprKindV::PackRef(name@),
        ExprKind::Call(p, generics, args, attrs) => ExprKindV::Call(
            views(p.segments@),
            Seq::new(
                generics@.len(),
                |i: int| if 0 <= i < generics@.len() { arg_v(generics@[i]) } else { arbitrary() },
            ),
            Seq::new(
                args@.len(),
                |i: int| if 0 <= i < args@.len() { expr_v(args@[i]) } else { arbitrary() },
            ),
            views(attrs@),
        ),
        ExprKind::FieldAccess(base, name) => ExprKindV::FieldAccess(Box::new(expr_v(*base)), name@),
        ExprKind::MethodCall(base, name, args) => ExprKindV::MethodCall(
            Box::new(expr_v(*base)),
            name@,
            Seq::new(
                args@.len(),
                |i: int| if 0 <= i < args@.len() { expr_v(args@[i]) } else { arbitrary() },
            ),
        ),
        ExprKind::Index(base, indices) => ExprKindV::Index(
            Box::new(expr_v(*base)),
            Seq::new(
                indices@.len(),
                |i: int| if 0 <= i < indices@.len() { expr_v(indices@[i]) } else { arbitrary() },
            ),
        ),
        ExprKind::ArrayLit(elems) => ExprKindV::ArrayLit(
            Seq::new(
                elems@.len(),
                |i: int| if 0 <= i < elems@.len() { expr_v(elems@[i]) } else { arbitrary() },
            ),
        ),
        ExprKind::ArrayRepeat { value, count } => {
            ExprKindV::ArrayRepeat {
                value: Box::new(expr_v(*value)),
                count: Box::new(expr_v(*count)),
            }
        },
        ExprKind::StructLit(p, generics, fields) => ExprKindV::StructLit(
            views(p.segments@),
            Seq::new(
                generics@.len(),
                |i: int| if 0 <= i < generics@.len() { arg_v(generics@[i]) } else { arbitrary() },
            ),
            Seq::new(
                fields@.len(),
                |i: int|
                    if 0 <= i < fields@.len() {
                        (fields@[i].0@, expr_v(fields@[i].1))
                    } else {
                        arbitrary()
                    },
            ),
        ),
        ExprKind::If { cond, then_branch, else_branch } => ExprKindV::If {
            cond: Box::new(expr_v(*cond)),
            then_branch: block_v(then_branch),
            else_branch: match else_branch { Some(y) => Some(Box::new(else_v(*y))), None => None },
        },
        ExprKind::While { cond, body } => {
            ExprKindV::While { cond: Box::new(expr_v(*cond)), body: block_v(body) }
        },
        ExprKind::For { var, start, end, body } => ExprKindV::For {
            var: var@,
            start: Box::new(expr_v(*start)),
            end: Box::new(expr_v(*end)),
            body: block_v(body),
        },
        ExprKind::ForIn { var, iter, body } => {
            ExprKindV::ForIn { var: var@, iter: Box::new(expr_v(*iter)), body: block_v(body) }
        },
        ExprKind::Loop { body } => ExprKindV::Loop { body: block_v(body) },
        ExprKind::Block(block) => ExprKindV::Block(block_v(block)),
        ExprKind::Lambda { params, ret, body } => ExprKindV::Lambda {
            params: Seq::new(
                params@.len(),
                |i: int| if 0 <= i < params@.len() { param_v(params@[i]) } else { arbitrary() },
            ),
            ret: match ret { Some(y) => Some(type_v(y)), None => None },
            body: block_v(body),
        },
    }
}

closed spec fn type_kind_v(x: TypeKind) -> TypeKindV
    decreases x,
{
    match x {
        TypeKind::Path(p, args) => TypeKindV::Path(
            views(p.segments@),
            Seq::new(
                args@.len(),
                |i: int| if 0 <= i < args@.len() { arg_v(args@[i]) } else { arbitrary() },
            ),
        ),
        TypeKind::Array(elem, size) => {
            TypeKindV::Array(Box::new(type_v(*elem)), Box::new(expr_v(*size)))
        },
        TypeKind::Fn(params, ret) => TypeKindV::Fn(
            Seq::new(
                params@.len(),
                |i: int| if 0 <= i < params@.len() { type_v(params@[i]) } else { arbitrary() },
            ),
            Box::new(type_v(*ret)),
        ),
        TypeKind::PackRef(name) => TypeKindV::PackRef(name@),
    }
}

closed spec fn stmt_kind_v(x: StmtKind) -> StmtKindV
    decreases x,
{
    match x {
        StmtKind::Let { mutable, name, ty, value } => StmtKindV::Let {
            mutable: mutable,
            name: name@,
            ty: match ty { Some(y) => Some(type_v(y)), None => None },
            value: expr_v(value),
        },
        StmtKind::Assign { target, value } => {
            StmtKindV::Assign { target: expr_v(target), value: expr_v(value) }
        },
        StmtKind::Expr(e) => StmtKindV::Expr(expr_v(e)),
        StmtKind::Break(value) => {
            StmtKindV::Break(match value { Some(y) => Some(expr_v(y)), None => None })
        },
    }
}

closed spec fn arg_v(x: GenericArg) -> GenericArgV
    decreases x,
{
    match x {
        GenericArg::Type(ty) => GenericArgV::Type(type_v(ty)),
        GenericArg::Const(e) => GenericArgV::Const(expr_v(e)),
    }
}

closed spec fn else_v(x: ElseBranch) -> ElseBranchV
    decreases x,
{
    match x {
        ElseBranch::If(e) => ElseBranchV::If(expr_v(e)),
        ElseBranch::Block(block) => ElseBranchV::Block(block_v(block)),
    }
}

closed spec fn expr_v(x: Expr) -> ExprV
    decreases x,
{
    ExprV { id: x.id, span: x.span, kind: expr_kind_v(x.kind) }
}

closed spec fn type_v(x: Type) -> TypeV
    decreases x,
{
    TypeV { id: x.id, span: x.span, kind: type_kind_v(x.kind) }
}

closed spec fn stmt_v(x: Stmt) -> StmtV
    decreases x,
{
    StmtV { id: x.id, span: x.span, kind: stmt_kind_v(x.kind) }
}

closed spec fn block_v(x: Block) -> BlockV
    decreases x,
{
    BlockV {
        stmts: Seq::new(
            x.stmts@.len(),
            |i: int| if 0 <= i < x.stmts@.len() { stmt_v(x.stmts@[i]) } else { arbitrary() },
        ),
        tail: match x.tail { Some(y) => Some(Box::new(expr_v(*y))), None => None },
    }
}

closed spec fn param_v(x: Param) -> ParamV
    decreases x,
{
    ParamV {
        name: x.name@,
        ty: match x.ty { Some(y) => Some(type_v(y)), None => None },
        mutable: x.mutable,
    }
}

impl View for ExprKind {
    type V = ExprKindV;

    closed spec fn view(&self) -> ExprKindV {
        expr_kind_v(*self)
    }
}

impl View for TypeKind {
    type V = TypeKindV;

    closed spec fn view(&self) -> TypeKindV {
        type_kind_v(*self)
    }
}

impl View for StmtKind {
    type V = StmtKindV;

    closed spec fn view(&self) -> StmtKindV {
        stmt_kind_v(*self)
    }
}

impl View for GenericArg {
    type V = GenericArgV;

    closed spec fn view(&self) -> GenericArgV {
        arg_v(*self)
    }
}

impl View for ElseBranch {
    type V = ElseBranchV;

    closed spec fn view(&self) -> ElseBranchV {
        else_v(*self)
    }
}

impl View for Expr {
    type V = ExprV;

    closed spec fn view(&self) -> ExprV {
        expr_v(*self)
    }
}

impl View for Type {
    type V = TypeV;

    closed spec fn view(&self) -> TypeV {
        type_v(*self)
    }
}

impl View for Stmt {
    type V = StmtV;

    closed spec fn view(&self) -> StmtV {
        stmt_v(*self)
    }
}

impl View for Block {
    type V = BlockV;

    closed spec fn view(&self) -> BlockV {
        block_v(*self)
    }
}

impl View for Param {
    type V = ParamV;

    closed spec fn view(&self) -> ParamV {
        param_v(*self)
    }
}

pub open spec fn opt_type(t: Option<Type>) -> Option<TypeV> {
    match t {
        Some(x) => Some(x@),
        None => None,
    }
}

pub open spec fn opt_expr(e: Option<Expr>) -> Option<ExprV> {
    match e {
        Some(x) => Some(x@),
        None => None,
    }
}

pub open spec fn opt_boxed(e: Option<Box<Expr>>) -> Option<Box<ExprV>> {
    match e {
        Some(x) => Some(Box::new(x@)),
        None => None,
    }
}

pub open spec fn opt_else(e: Option<Box<ElseBranch>>) -> Option<Box<ElseBranchV>> {
    match e {
        Some(x) => Some(Box::new(x@)),
        None => None,
    }
}

pub broadcast proof fn lemma_expr_kind_number_lit(text: String, suffix: Option<String>)
    ensures
        (#[trigger] ExprKind::NumberLit { text, suffix }@) == (
            ExprKindV::NumberLit { text: text@, suffix: opt_text(suffix) }
        ),
{
}

pub broadcast proof fn lemma_expr_kind_imaginary_lit(text: String, suffix: Option<String>)
    ensures
        (#[trigger] ExprKind::ImaginaryLit { text, suffix }@) == (
            ExprKindV::ImaginaryLit { text: text@, suffix: opt_text(suffix) }
        ),
{
}

pub broadcast proof fn lemma_expr_kind_bool_lit(b: bool)
    ensures
        (#[trigger] ExprKind::BoolLit(b)@) == (ExprKindV::BoolLit(b)),
{
}

pub broadcast proof fn lemma_expr_kind_path(p: Path)
    ensures
        (#[trigger] ExprKind::Path(p)@) == (ExprKindV::Path(views(p.segments@))),
{
}

pub broadcast proof fn lemma_expr_kind_pack_ref(name: String)
    ensures
        (#[trigger] ExprKind::PackRef(name)@) == (ExprKindV::PackRef(name@)),
{
}

pub broadcast proof fn lemma_expr_kind_call(
    p: Path,
    generics: Vec<GenericArg>,
    args: Vec<Expr>,
    attrs: Vec<(String, String)>,
)
    ensures
        (#[trigger] ExprKind::Call(p, generics, args, attrs)@) == (
            ExprKindV::Call(views(p.segments@), views(generics@), views(args@), views(attrs@))
        ),
{
    assert(ExprKind::Call(p, generics, args, attrs)@->Call_1 =~= views(generics@));
    assert(ExprKind::Call(p, generics, args, attrs)@->Call_2 =~= views(args@));
}

pub broadcast proof fn lemma_expr_kind_field_access(base: Box<Expr>, name: String)
    ensures
        (#[trigger] ExprKind::FieldAccess(base, name)@) == (
            ExprKindV::FieldAccess(Box::new(base@), name@)
        ),
{
}

pub broadcast proof fn lemma_expr_kind_method_call(base: Box<Expr>, name: String, args: Vec<Expr>)
    ensures
        (#[trigger] ExprKind::MethodCall(base, name, args)@) == (
            ExprKindV::MethodCall(Box::new(base@), name@, views(args@))
        ),
{
    assert(ExprKind::MethodCall(base, name, args)@->MethodCall_2 =~= views(args@));
}

pub broadcast proof fn lemma_expr_kind_index(base: Box<Expr>, indices: Vec<Expr>)
    ensures
        (#[trigger] ExprKind::Index(base, indices)@) == (
            ExprKindV::Index(Box::new(base@), views(indices@))
        ),
{
    assert(ExprKind::Index(base, indices)@->Index_1 =~= views(indices@));
}

pub broadcast proof fn lemma_expr_kind_array_lit(elems: Vec<Expr>)
    ensures
        (#[trigger] ExprKind::ArrayLit(elems)@) == (ExprKindV::ArrayLit(views(elems@))),
{
    assert(ExprKind::ArrayLit(elems)@->ArrayLit_0 =~= views(elems@));
}

pub broadcast proof fn lemma_expr_kind_array_repeat(value: Box<Expr>, count: Box<Expr>)
    ensures
        (#[trigger] ExprKind::ArrayRepeat { value, count }@) == (
            ExprKindV::ArrayRepeat { value: Box::new(value@), count: Box::new(count@) }
        ),
{
}

pub broadcast proof fn lemma_expr_kind_struct_lit(
    p: Path,
    generics: Vec<GenericArg>,
    fields: Vec<(String, Expr)>,
)
    ensures
        (#[trigger] ExprKind::StructLit(p, generics, fields)@) == (
            ExprKindV::StructLit(views(p.segments@), views(generics@), views(fields@))
        ),
{
    assert(ExprKind::StructLit(p, generics, fields)@->StructLit_1 =~= views(generics@));
    assert(ExprKind::StructLit(p, generics, fields)@->StructLit_2 =~= views(fields@));
}

pub broadcast proof fn lemma_expr_kind_if(
    cond: Box<Expr>,
    then_branch: Block,
    else_branch: Option<Box<ElseBranch>>,
)
    ensures
        (#[trigger] ExprKind::If { cond, then_branch, else_branch }@) == (
            ExprKindV::If {
                cond: Box::new(cond@),
                then_branch: then_branch@,
                else_branch: opt_else(else_branch),
            }
        ),
{
}

pub broadcast proof fn lemma_expr_kind_while(cond: Box<Expr>, body: Block)
    ensures
        (#[trigger] ExprKind::While { cond, body }@) == (
            ExprKindV::While { cond: Box::new(cond@), body: body@ }
        ),
{
}

pub broadcast proof fn lemma_expr_kind_for(
    var: String,
    start: Box<Expr>,
    end: Box<Expr>,
    body: Block,
)
    ensures
        (#[trigger] ExprKind::For { var, start, end, body }@) == (
            ExprKindV::For { var: var@, start: Box::new(start@), end: Box::new(end@), body: body@ }
        ),
{
}

pub broadcast proof fn lemma_expr_kind_for_in(var: String, iter: Box<Expr>, body: Block)
    ensures
        (#[trigger] ExprKind::ForIn { var, iter, body }@) == (
            ExprKindV::ForIn { var: var@, iter: Box::new(iter@), body: body@ }
        ),
{
}

pub broadcast proof fn lemma_expr_kind_loop(body: Block)
    ensures
        (#[trigger] ExprKind::Loop { body }@) == (ExprKindV::Loop { body: body@ }),
{
}

pub broadcast proof fn lemma_expr_kind_block(block: Block)
    ensures
        (#[trigger] ExprKind::Block(block)@) == (ExprKindV::Block(block@)),
{
}

pub broadcast proof fn lemma_expr_kind_lambda(params: Vec<Param>, ret: Option<Type>, body: Block)
    ensures
        (#[trigger] ExprKind::Lambda { params, ret, body }@) == (
            ExprKindV::Lambda { params: views(params@), ret: opt_type(ret), body: body@ }
        ),
{
    assert(ExprKind::Lambda { params, ret, body }@->Lambda_params =~= views(params@));
}

pub broadcast proof fn lemma_type_kind_path(p: Path, args: Vec<GenericArg>)
    ensures
        (#[trigger] TypeKind::Path(p, args)@) == (
            TypeKindV::Path(views(p.segments@), views(args@))
        ),
{
    assert(TypeKind::Path(p, args)@->Path_1 =~= views(args@));
}

pub broadcast proof fn lemma_type_kind_array(elem: Box<Type>, size: Box<Expr>)
    ensures
        (#[trigger] TypeKind::Array(elem, size)@) == (
            TypeKindV::Array(Box::new(elem@), Box::new(size@))
        ),
{
}

pub broadcast proof fn lemma_type_kind_fn(params: Vec<Type>, ret: Box<Type>)
    ensures
        (#[trigger] TypeKind::Fn(params, ret)@) == (TypeKindV::Fn(views(params@), Box::new(ret@))),
{
    assert(TypeKind::Fn(params, ret)@->Fn_0 =~= views(params@));
}

pub broadcast proof fn lemma_type_kind_pack_ref(name: String)
    ensures
        (#[trigger] TypeKind::PackRef(name)@) == (TypeKindV::PackRef(name@)),
{
}

pub broadcast proof fn lemma_stmt_kind_let(
    mutable: bool,
    name: String,
    ty: Option<Type>,
    value: Expr,
)
    ensures
        (#[trigger] StmtKind::Let { mutable, name, ty, value }@) == (
            StmtKindV::Let { mutable: mutable, name: name@, ty: opt_type(ty), value: value@ }
        ),
{
}

pub broadcast proof fn lemma_stmt_kind_assign(target: Expr, value: Expr)
    ensures
        (#[trigger] StmtKind::Assign { target, value }@) == (
            StmtKindV::Assign { target: target@, value: value@ }
        ),
{
}

pub broadcast proof fn lemma_stmt_kind_expr(e: Expr)
    ensures
        (#[trigger] StmtKind::Expr(e)@) == (StmtKindV::Expr(e@)),
{
}

pub broadcast proof fn lemma_stmt_kind_break(value: Option<Expr>)
    ensures
        (#[trigger] StmtKind::Break(value)@) == (StmtKindV::Break(opt_expr(value))),
{
}

pub broadcast proof fn lemma_generic_arg_type(ty: Type)
    ensures
        (#[trigger] GenericArg::Type(ty)@) == (GenericArgV::Type(ty@)),
{
}

pub broadcast proof fn lemma_generic_arg_const(e: Expr)
    ensures
        (#[trigger] GenericArg::Const(e)@) == (GenericArgV::Const(e@)),
{
}

pub broadcast proof fn lemma_else_branch_if(e: Expr)
    ensures
        (#[trigger] ElseBranch::If(e)@) == (ElseBranchV::If(e@)),
{
}

pub broadcast proof fn lemma_else_branch_block(block: Block)
    ensures
        (#[trigger] ElseBranch::Block(block)@) == (ElseBranchV::Block(block@)),
{
}

pub broadcast proof fn lemma_expr(id: NodeId, span: Span, kind: ExprKind)
    ensures
        (#[trigger] Expr { id, span, kind }@) == (ExprV { id, span, kind: kind@ }),
{
}

pub broadcast proof fn lemma_type(id: NodeId, span: Span, kind: TypeKind)
    ensures
        (#[trigger] Type { id, span, kind }@) == (TypeV { id, span, kind: kind@ }),
{
}

pub broadcast proof fn lemma_stmt(id: NodeId, span: Span, kind: StmtKind)
    ensures
        (#[trigger] Stmt { id, span, kind }@) == (StmtV { id, span, kind: kind@ }),
{
}

pub broadcast proof fn lemma_block(stmts: Vec<Stmt>, tail: Option<Box<Expr>>)
    ensures
        (#[trigger] Block { stmts, tail }@) == (
            BlockV { stmts: views(stmts@), tail: opt_boxed(tail) }
        ),
{
    assert(Block { stmts, tail }@.stmts =~= views(stmts@));
}

pub broadcast proof fn lemma_param(name: String, ty: Option<Type>, mutable: bool)
    ensures
        (#[trigger] Param { name, ty, mutable }@) == (
            ParamV { name: name@, ty: opt_type(ty), mutable: mutable }
        ),
{
}

pub broadcast group group_ast {
    lemma_expr_kind_number_lit,
    lemma_expr_kind_imaginary_lit,
    lemma_expr_kind_bool_lit,
    lemma_expr_kind_path,
    lemma_expr_kind_pack_ref,
    lemma_expr_kind_call,
    lemma_expr_kind_field_access,
    lemma_expr_kind_method_call,
    lemma_expr_kind_index,
    lemma_expr_kind_array_lit,
    lemma_expr_kind_array_repeat,
    lemma_expr_kind_struct_lit,
    lemma_expr_kind_if,
    lemma_expr_kind_while,
    lemma_expr_kind_for,
    lemma_expr_kind_for_in,
    lemma_expr_kind_loop,
    lemma_expr_kind_block,
    lemma_expr_kind_lambda,
    lemma_type_kind_path,
    lemma_type_kind_array,
    lemma_type_kind_fn,
    lemma_type_kind_pack_ref,
    lemma_stmt_kind_let,
    lemma_stmt_kind_assign,
    lemma_stmt_kind_expr,
    lemma_stmt_kind_break,
    lemma_generic_arg_type,
    lemma_generic_arg_const,
    lemma_else_branch_if,
    lemma_else_branch_block,
    lemma_expr,
    lemma_type,
    lemma_stmt,
    lemma_block,
    lemma_param,
}

/// The path that an expression is, if it is one.
pub proof fn lemma_expr_path(e: Expr)
    ensures
        e@.id == e.id,
        e@.span == e.span,
        e.kind is Path <==> e@.kind is Path,
        e.kind matches ExprKind::Path(p) ==> e@.kind == ExprKindV::Path(views(p.segments@)),
{
}

} // verus!
