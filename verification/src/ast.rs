//! The syntax tree that the other modules work on.

use vstd::prelude::*;

use crate::text::{decimal, decimal_text, glued};

verus! {

/// A source file, by its number.
#[derive(Clone, Copy, PartialEq, Eq, Structural, Debug)]
pub struct FileId(pub u32);

/// A range of bytes of a source file.
#[derive(Clone, Copy, PartialEq, Eq, Structural, Debug)]
pub struct Span {
    pub file: FileId,
    pub start: usize,
    pub end: usize,
}

/// The number of a node of the tree.
#[derive(Clone, Copy, PartialEq, Eq, Structural, Debug)]
pub struct NodeId(pub u32);

/// Hands out node numbers in ascending order.
#[derive(Clone, Copy, Debug)]
pub struct NodeIdGen {
    pub upcoming: u32,
}

/// The number after `n`; the numbers start over after the last one.
pub open spec fn following(n: u32) -> u32 {
    if n == u32::MAX {
        0
    } else {
        (n + 1) as u32
    }
}

impl Default for NodeIdGen {
    fn default() -> (r: Self)
        ensures
            r.upcoming == 0,
    {
        NodeIdGen { upcoming: 0 }
    }
}

impl NodeIdGen {
    /// The next number.
    pub fn next(&mut self) -> (r: NodeId)
        ensures
            r == NodeId(old(self).upcoming),
            final(self).upcoming == following(old(self).upcoming),
    {
        let id = NodeId(self.upcoming);
        self.upcoming = self.upcoming.wrapping_add(1);
        id
    }
}

/// Names separated by `::`.
#[derive(Debug)]
pub struct Path {
    pub segments: Vec<String>,
}

impl Path {
    /// A path of one name.
    pub fn single(name: String) -> (r: Self)
        ensures
            r.segments@ == seq![name],
    {
        let mut segments: Vec<String> = Vec::new();
        segments.push(name);
        assert(segments@ =~= seq![name]);
        Path { segments }
    }
}

#[derive(Debug)]
pub enum GenericArg {
    Type(Type),
    Const(Expr),
}

#[derive(Debug)]
pub enum GenericParam {
    Type { name: String, bounds: Vec<String>, variadic: bool },
    Const { name: String, ty: Type, variadic: bool },
}

impl GenericParam {
    pub open spec fn spec_name(&self) -> Seq<char> {
        match self {
            GenericParam::Type { name, .. } => name@,
            GenericParam::Const { name, .. } => name@,
        }
    }

    pub open spec fn spec_variadic(&self) -> bool {
        match self {
            GenericParam::Type { variadic, .. } => *variadic,
            GenericParam::Const { variadic, .. } => *variadic,
        }
    }

    pub fn name(&self) -> (r: &String)
        ensures
            r@ == self.spec_name(),
    {
        match self {
            GenericParam::Type { name, .. } => name,
            GenericParam::Const { name, .. } => name,
        }
    }

    pub fn is_variadic(&self) -> (r: bool)
        ensures
            r == self.spec_variadic(),
    {
        match self {
            GenericParam::Type { variadic, .. } => *variadic,
            GenericParam::Const { variadic, .. } => *variadic,
        }
    }
}

#[derive(Debug)]
pub struct Param {
    pub name: String,
    pub ty: Option<Type>,
    pub mutable: bool,
}

#[derive(Debug)]
pub struct Field {
    pub name: String,
    pub ty: Type,
}

#[derive(Debug)]
pub struct Attribute {
    pub name: String,
    pub args: Vec<String>,
    pub span: Span,
}

#[derive(Debug)]
pub struct FnDecl {
    pub name: String,
    pub attrs: Vec<Attribute>,
    pub is_extern: bool,
    pub extern_symbol: Option<String>,
    pub is_export: bool,
    pub export_symbol: Option<String>,
    pub generics: Vec<GenericParam>,
    pub params: Vec<Param>,
    pub ret: Option<Type>,
    pub body: Option<Block>,
    pub derivative_of: Option<String>,
}

#[derive(Debug)]
pub struct StructDecl {
    pub name: String,
    pub generics: Vec<GenericParam>,
    pub fields: Vec<Field>,
}

#[derive(Debug)]
pub struct FnSig {
    pub name: String,
    pub params: Vec<Param>,
    pub ret: Option<Type>,
}

#[derive(Debug)]
pub struct AxiomDecl {
    pub name: String,
    pub params: Vec<Param>,
    pub body: Expr,
}

#[derive(Debug)]
pub struct DerivativeRuleDecl {
    pub method: String,
    pub params: Vec<Param>,
    pub body: Expr,
}

#[derive(Debug)]
pub struct AlgebraDecl {
    pub name: String,
    pub generics: Vec<GenericParam>,
    pub bounds: Vec<String>,
    pub items: Vec<AlgebraItem>,
}

#[derive(Debug)]
pub struct AlgebraItem {
    pub id: NodeId,
    pub span: Span,
    pub kind: AlgebraItemKind,
}

#[derive(Debug)]
pub enum AlgebraItemKind {
    FnSig(FnSig),
    Axiom(AxiomDecl),
    DerivativeRule(DerivativeRuleDecl),
}

#[derive(Debug)]
pub struct ImplDecl {
    pub attrs: Vec<Attribute>,
    pub algebra: String,
    pub generics: Vec<GenericParam>,
    pub target: Type,
    pub extra_targets: Vec<Type>,
    pub fns: Vec<FnDecl>,
}

#[derive(Debug)]
pub struct InherentImplDecl {
    pub generics: Vec<GenericParam>,
    pub target: Type,
    pub fns: Vec<FnDecl>,
}

#[derive(Debug)]
pub struct Item {
    pub id: NodeId,
    pub span: Span,
    pub kind: ItemKind,
}

#[derive(Debug)]
pub enum ItemKind {
    Use(Path),
    Struct(StructDecl),
    Algebra(AlgebraDecl),
    Impl(ImplDecl),
    InherentImpl(InherentImplDecl),
    Fn(FnDecl),
}

#[derive(Debug)]
pub struct Program {
    pub items: Vec<Item>,
}

#[derive(Debug)]
pub struct Type {
    pub id: NodeId,
    pub span: Span,
    pub kind: TypeKind,
}

#[derive(Debug)]
pub enum TypeKind {
    Path(Path, Vec<GenericArg>),
    Array(Box<Type>, Box<Expr>),
    Fn(Vec<Type>, Box<Type>),
    PackRef(String),
}

#[derive(Debug)]
pub struct Block {
    pub stmts: Vec<Stmt>,
    pub tail: Option<Box<Expr>>,
}

#[derive(Debug)]
pub struct Stmt {
    pub id: NodeId,
    pub span: Span,
    pub kind: StmtKind,
}

#[derive(Debug)]
pub enum StmtKind {
    Let { mutable: bool, name: String, ty: Option<Type>, value: Expr },
    Assign { target: Expr, value: Expr },
    Expr(Expr),
    Break(Option<Expr>),
}

#[derive(Debug)]
pub struct Expr {
    pub id: NodeId,
    pub span: Span,
    pub kind: ExprKind,
}

#[derive(Debug)]
pub enum ExprKind {
    NumberLit { text: String, suffix: Option<String> },
    ImaginaryLit { text: String, suffix: Option<String> },
    BoolLit(bool),
    Path(Path),
    PackRef(String),
    /// The callee, its explicit generics, the arguments, and the attributes
    /// given by name.
    Call(Path, Vec<GenericArg>, Vec<Expr>, Vec<(String, String)>),
    FieldAccess(Box<Expr>, String),
    MethodCall(Box<Expr>, String, Vec<Expr>),
    Index(Box<Expr>, Vec<Expr>),
    ArrayLit(Vec<Expr>),
    ArrayRepeat { value: Box<Expr>, count: Box<Expr> },
    StructLit(Path, Vec<GenericArg>, Vec<(String, Expr)>),
    If { cond: Box<Expr>, then_branch: Block, else_branch: Option<Box<ElseBranch>> },
    While { cond: Box<Expr>, body: Block },
    For { var: String, start: Box<Expr>, end: Box<Expr>, body: Block },
    ForIn { var: String, iter: Box<Expr>, body: Block },
    Loop { body: Block },
    Block(Block),
    Lambda { params: Vec<Param>, ret: Option<Type>, body: Block },
}

#[derive(Debug)]
pub enum ElseBranch {
    If(Expr),
    Block(Block),
}

/// The name of the struct that stands for a tuple of `n` items.
pub open spec fn tuple_name(n: nat) -> Seq<char> {
    "__Tuple"@ + decimal(n)
}

pub fn tuple_struct_name(n: usize) -> (r: String)
    ensures
        r@ == tuple_name(n as nat),
{
    let digits: String = decimal_text(n as u64);
    glued("__Tuple", digits.as_str())
}

} // verus!
