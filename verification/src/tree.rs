//! Parse trees.

use vstd::prelude::*;

verus! {

/// What a node of a parse tree was parsed as.
#[derive(Clone, Copy, PartialEq, Eq, Structural, Debug)]
pub enum Rule {
    Program,
    Item,
    UseDecl,
    StructDecl,
    AlgebraDecl,
    ImplDecl,
    AlgebraImpl,
    InherentImpl,
    FnDecl,
    DeriveDecl,
    Path,
    Ident,
    Attribute,
    ExternKw,
    ExportKw,
    MutKw,
    GenericParams,
    GenericParam,
    PackMarker,
    PackRef,
    BoundList,
    ParamList,
    Param,
    FieldList,
    Field,
    AlgebraItem,
    FnSig,
    AxiomDecl,
    DerivativeRuleDecl,
    Type,
    ArrayType,
    FnType,
    TupleType,
    GenericArg,
    ArrayDim,
    Block,
    Stmt,
    LetStmt,
    AssignStmt,
    BreakStmt,
    ExprStmt,
    AssignTarget,
    AssignSuffix,
    Expr,
    Implication,
    Logical,
    Comparison,
    Additive,
    Multiplicative,
    Unary,
    UnaryOp,
    Postfix,
    PostfixOp,
    Primary,
    TupleIndex,
    CallArgs,
    ArgList,
    CallArg,
    MlirAttr,
    IfExpr,
    WhileExpr,
    ForExpr,
    LoopExpr,
    ArrayLit,
    ArrayRepeat,
    ArrayList,
    LambdaExpr,
    StructLit,
    TupleLit,
    CallExpr,
    Turbofish,
    FieldInitList,
    FieldInit,
    Literal,
    NumericLit,
    ImaginaryLit,
    BoolLit,
    StringLit,
    /// Any other rule, such as that of an operator.
    Other,
}

/// A node of a parse tree.
#[derive(PartialEq, Eq, Debug)]
pub struct Tree {
    pub rule: Rule,
    pub text: String,
    /// The bytes of the source that it covers.
    pub start: usize,
    pub end: usize,
    pub children: Vec<Tree>,
}

/// Whether there is a child at the place and it was parsed as the rule.
pub open spec fn is_at(children: Vec<Tree>, i: int, rule: Rule) -> bool {
    0 <= i < children@.len() && children@[i].rule == rule
}

/// Whether there is a child at the place and it was parsed as the rule.
pub fn stands_at(children: &Vec<Tree>, i: usize, rule: Rule) -> (r: bool)
    ensures
        r == is_at(*children, i as int, rule),
{
    i < children.len() && children[i].rule == rule
}

/// The texts of the children from a place on.
pub open spec fn texts_of(children: Vec<Tree>, from: int) -> Seq<Seq<char>> {
    Seq::new((children@.len() - from) as nat, |i: int| children@[from + i].text@)
}

/// The texts of the children from a place on.
pub fn child_texts(children: &Vec<Tree>, from: usize) -> (r: Vec<String>)
    requires
        from <= children@.len(),
    ensures
        crate::table::views(r@) == texts_of(*children, from as int),
{
    let mut out: Vec<String> = Vec::new();
    let mut i: usize = from;
    while i < children.len()
        invariant
            from <= i <= children@.len(),
            out@.len() == i - from,
            forall|k: int| 0 <= k < i - from ==> (#[trigger] out@[k])@ == children@[from + k].text@,
        decreases children.len() - i,
    {
        out.push(children[i].text.clone());
        i = i + 1;
    }
    assert(crate::table::views(out@) =~= texts_of(*children, from as int));
    out
}

} // verus!
