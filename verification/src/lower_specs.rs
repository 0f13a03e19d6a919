//! What expressions, types and blocks a parse tree is.
//!
//! Operators are calls of named functions, and several sizes or indices in one pair
//! of brackets are arrays of arrays. Nodes are numbered in the order in which they
//! are made, parts before wholes.

use vstd::prelude::*;

use crate::ast::{following, tuple_name, FileId, NodeId, Span};
use crate::ast_views::{
    BlockV, ElseBranchV, ExprKindV, ExprV, GenericArgV, ParamV, StmtKindV, StmtV, TypeKindV, TypeV,
};
use crate::text::{before_char, decimal, joined, parsed_u64, place_of};
use crate::tree::{is_at, texts_of, Rule, Tree};

verus! {

/// A part of the syntax tree, and the number that the next node gets.
pub struct LowV<T> {
    pub value: T,
    pub next: u32,
}

/// The range of the source that a tree covers.
pub open spec fn span_of(t: Tree, f: FileId) -> Span {
    Span { file: f, start: t.start, end: t.end }
}

/// The range from the start of one to the end of another.
pub open spec fn span_from(f: FileId, a: Span, b: Span) -> Span {
    Span { file: f, start: a.start, end: b.end }
}

/// An expression node with the next number.
pub open spec fn expr_node(kind: ExprKindV, span: Span, id: u32) -> LowV<ExprV> {
    LowV { value: ExprV { id: NodeId(id), span, kind }, next: following(id) }
}

/// A type node with the next number.
pub open spec fn type_node(kind: TypeKindV, span: Span, id: u32) -> LowV<TypeV> {
    LowV { value: TypeV { id: NodeId(id), span, kind }, next: following(id) }
}

/// A statement node with the next number.
pub open spec fn stmt_node(kind: StmtKindV, span: Span, id: u32) -> LowV<StmtV> {
    LowV { value: StmtV { id: NodeId(id), span, kind }, next: following(id) }
}

/// A call of a named function without generics and attributes.
pub open spec fn call_of(name: Seq<char>, args: Seq<ExprV>) -> ExprKindV {
    ExprKindV::Call(seq![name], Seq::empty(), args, Seq::empty())
}

/// The function that an operator stands for, at a level of precedence: implication,
/// logic, comparison, addition, multiplication.
pub open spec fn op_name(level: nat, op: Seq<char>) -> Option<Seq<char>> {
    if level == 0 {
        if op == "implies"@ {
            Some("implies"@)
        } else {
            None
        }
    } else if level == 1 {
        if op == "and"@ || op == "or"@ || op == "xor"@ {
            Some(op)
        } else {
            None
        }
    } else if level == 2 {
        if op == "<="@ {
            Some("le"@)
        } else if op == ">="@ {
            Some("ge"@)
        } else if op == "=="@ {
            Some("eq"@)
        } else if op == "!="@ {
            Some("neq"@)
        } else if op == "<"@ {
            Some("lt"@)
        } else if op == ">"@ {
            Some("gt"@)
        } else {
            None
        }
    } else if level == 3 {
        if op == "+"@ {
            Some("add"@)
        } else if op == "-"@ {
            Some("sub"@)
        } else {
            None
        }
    } else {
        if op == "*"@ {
            Some("mul"@)
        } else if op == "/"@ {
            Some("div"@)
        } else {
            None
        }
    }
}

/// The level whose operands are not binary operations any more.
pub const LAST_LEVEL: u8 = 4;

/// The level of addition.
pub const ADDITIVE_LEVEL: u8 = 3;

/// An expression.
pub open spec fn low_expr(t: Tree, f: FileId, id: u32) -> Option<LowV<ExprV>>
    decreases t, 0nat,
{
    if t.rule != Rule::Expr || t.children@.len() == 0 {
        None
    } else {
        low_binary(t.children@[0], 0, f, id)
    }
}

/// Operands and the operators between them, grouped from the left.
pub open spec fn low_binary(t: Tree, level: nat, f: FileId, id: u32) -> Option<LowV<ExprV>>
    decreases t, 0nat,
{
    if t.children@.len() % 2 == 0 {
        None
    } else {
        low_fold(t.children, level, ((t.children@.len() + 1) / 2) as nat, f, id)
    }
}

/// An operand at a level.
pub open spec fn low_operand(t: Tree, level: nat, f: FileId, id: u32) -> Option<LowV<ExprV>>
    decreases t, 1nat,
{
    if level >= LAST_LEVEL {
        low_unary(t, f, id)
    } else {
        low_binary(t, level + 1, f, id)
    }
}

/// The first `n` operands with the operators between them.
pub open spec fn low_fold(children: Vec<Tree>, level: nat, n: nat, f: FileId, id: u32) -> Option<
    LowV<ExprV>,
>
    decreases children, n,
{
    if n == 0 || 2 * n - 1 > children@.len() {
        None
    } else if n == 1 {
        low_operand(children@[0], level, f, id)
    } else {
        match low_fold(children, level, (n - 1) as nat, f, id) {
            None => None,
            Some(acc) => match low_operand(children@[2 * n - 2], level, f, acc.next) {
                None => None,
                Some(rhs) => match op_name(level, children@[2 * n - 3].text@) {
                    None => None,
                    Some(name) => Some(
                        expr_node(
                            call_of(name, seq![acc.value, rhs.value]),
                            span_from(f, acc.value.span, rhs.value.span),
                            rhs.next,
                        ),
                    ),
                },
            },
        }
    }
}

/// An operator before an operand, or an operand with what follows it.
pub open spec fn low_unary(t: Tree, f: FileId, id: u32) -> Option<LowV<ExprV>>
    decreases t, 0nat,
{
    if is_at(t.children, 0, Rule::UnaryOp) {
        let op = t.children@[0].text@;
        if t.children@.len() < 2 || (op != "-"@ && op != "not"@) {
            None
        } else {
            match low_unary(t.children@[1], f, id) {
                None => None,
                Some(operand) => Some(
                    expr_node(
                        call_of(
                            if op == "-"@ {
                                "neg"@
                            } else {
                                "not"@
                            },
                            seq![operand.value],
                        ),
                        span_of(t, f),
                        operand.next,
                    ),
                ),
            }
        }
    } else if is_at(t.children, 0, Rule::Postfix) {
        low_postfix(t.children@[0], f, id)
    } else {
        None
    }
}

/// An operand with the accesses and calls that follow it.
pub open spec fn low_postfix(t: Tree, f: FileId, id: u32) -> Option<LowV<ExprV>>
    decreases t, 0nat,
{
    if t.children@.len() == 0 {
        None
    } else {
        match low_primary(t.children@[0], f, id) {
            None => None,
            Some(base) => low_ops(t.children, t.children@.len(), f, base),
        }
    }
}

/// A base with the accesses and calls of the children after the first, up to the
/// `n`th.
pub open spec fn low_ops(children: Vec<Tree>, n: nat, f: FileId, base: LowV<ExprV>) -> Option<
    LowV<ExprV>,
>
    decreases children, n,
{
    if n <= 1 || n > children@.len() {
        Some(base)
    } else {
        match low_ops(children, (n - 1) as nat, f, base) {
            None => None,
            Some(acc) => low_op(acc.value, children@[n - 1], f, acc.next),
        }
    }
}

/// The name of the variable that stands for an expression that is called directly.
pub open spec fn called_name(id: NodeId) -> Seq<char> {
    "<iife#"@ + decimal(id.0 as nat) + ">"@
}

/// A base with one access or call. A method without arguments named `to` is a
/// conversion; a direct call binds the base to a variable and calls that.
pub open spec fn low_op(base: ExprV, t: Tree, f: FileId, id: u32) -> Option<LowV<ExprV>>
    decreases t, 0nat,
{
    let span = span_from(f, base.span, span_of(t, f));
    if is_at(t.children, 0, Rule::Ident) || is_at(t.children, 0, Rule::TupleIndex) {
        let name = t.children@[0].text@;
        if t.children@.len() > 1 {
            match low_call_args(t.children@[1], f, id) {
                None => None,
                Some(a) => if name == "to"@ && a.value.args.len() == 0 {
                    Some(expr_node(call_of("convert"@, seq![base]), span, a.next))
                } else {
                    Some(
                        expr_node(
                            ExprKindV::MethodCall(Box::new(base), name, a.value.args),
                            span,
                            a.next,
                        ),
                    )
                },
            }
        } else {
            Some(expr_node(ExprKindV::FieldAccess(Box::new(base), name), span, id))
        }
    } else if is_at(t.children, 0, Rule::Expr) {
        match low_exprs(t.children, 0, t.children@.len(), f, id) {
            None => None,
            Some(indices) => Some(
                expr_node(ExprKindV::Index(Box::new(base), indices.value), span, indices.next),
            ),
        }
    } else if is_at(t.children, 0, Rule::CallArgs) {
        match low_call_args(t.children@[0], f, id) {
            None => None,
            Some(a) => {
                let name = called_name(base.id);
                let bind = stmt_node(
                    StmtKindV::Let { mutable: false, name, ty: None, value: base },
                    base.span,
                    a.next,
                );
                let call = expr_node(
                    ExprKindV::Call(seq![name], Seq::empty(), a.value.args, a.value.attrs),
                    span,
                    bind.next,
                );
                Some(
                    expr_node(
                        ExprKindV::Block(
                            BlockV {
                                stmts: seq![bind.value],
                                tail: Some(Box::new(call.value)),
                            },
                        ),
                        span,
                        call.next,
                    ),
                )
            },
        }
    } else {
        None
    }
}

/// The expressions from a place up to the `n`th child.
pub open spec fn low_exprs(children: Vec<Tree>, from: nat, n: nat, f: FileId, id: u32) -> Option<
    LowV<Seq<ExprV>>,
>
    decreases children, n,
{
    if n <= from || n > children@.len() {
        Some(LowV { value: Seq::empty(), next: id })
    } else {
        match low_exprs(children, from, (n - 1) as nat, f, id) {
            None => None,
            Some(before) => match low_expr(children@[n - 1], f, before.next) {
                None => None,
                Some(e) => Some(LowV { value: before.value.push(e.value), next: e.next }),
            },
        }
    }
}

/// Arguments by position, and attributes by name.
pub struct ArgsV {
    pub args: Seq<ExprV>,
    pub attrs: Seq<(Seq<char>, Seq<char>)>,
}

/// A text without its first and its last character.
pub open spec fn unquoted(s: Seq<char>) -> Seq<char> {
    s.subrange(1, s.len() - 1)
}

/// The arguments of the first `n` children.
pub open spec fn low_args(children: Vec<Tree>, n: nat, f: FileId, id: u32) -> Option<LowV<ArgsV>>
    decreases children, n,
{
    if n == 0 || n > children@.len() {
        Some(LowV { value: ArgsV { args: Seq::empty(), attrs: Seq::empty() }, next: id })
    } else {
        match low_args(children, (n - 1) as nat, f, id) {
            None => None,
            Some(before) => {
                let arg = children@[n - 1];
                if arg.children@.len() == 0 {
                    None
                } else if arg.children@[0].rule == Rule::MlirAttr {
                    let parts = arg.children@[0].children;
                    if parts@.len() < 2 || parts@[1].text@.len() < 2 {
                        None
                    } else {
                        Some(
                            LowV {
                                value: ArgsV {
                                    attrs: before.value.attrs.push(
                                        (parts@[0].text@, unquoted(parts@[1].text@)),
                                    ),
                                    ..before.value
                                },
                                next: before.next,
                            },
                        )
                    }
                } else {
                    match low_expr(arg.children@[0], f, before.next) {
                        None => None,
                        Some(e) => Some(
                            LowV {
                                value: ArgsV {
                                    args: before.value.args.push(e.value),
                                    ..before.value
                                },
                                next: e.next,
                            },
                        ),
                    }
                }
            },
        }
    }
}

/// The arguments between the brackets of a call, which may be none.
pub open spec fn low_call_args(t: Tree, f: FileId, id: u32) -> Option<LowV<ArgsV>>
    decreases t, 0nat,
{
    if t.children@.len() == 0 {
        Some(LowV { value: ArgsV { args: Seq::empty(), attrs: Seq::empty() }, next: id })
    } else {
        low_args(t.children@[0].children, t.children@[0].children@.len(), f, id)
    }
}

/// The arguments at a place, which may be none.
pub open spec fn low_args_at(children: Vec<Tree>, i: nat, f: FileId, id: u32) -> Option<LowV<ArgsV>>
    decreases children, children@.len() + 1,
{
    if i >= children@.len() {
        Some(LowV { value: ArgsV { args: Seq::empty(), attrs: Seq::empty() }, next: id })
    } else {
        low_args(children@[i as int].children, children@[i as int].children@.len(), f, id)
    }
}

/// An operand.
pub open spec fn low_primary(t: Tree, f: FileId, id: u32) -> Option<LowV<ExprV>>
    decreases t, 0nat,
{
    if t.children@.len() == 0 {
        None
    } else {
        let inner = t.children@[0];
        match inner.rule {
            Rule::IfExpr => low_if(inner, f, id),
            Rule::WhileExpr => low_while(inner, f, id),
            Rule::ForExpr => low_for(inner, f, id),
            Rule::LoopExpr => low_loop(inner, f, id),
            Rule::ArrayLit => low_array_lit(inner, f, id),
            Rule::LambdaExpr => low_lambda(inner, f, id),
            Rule::StructLit => low_struct_lit(inner, f, id),
            Rule::TupleLit => low_tuple_lit(inner, f, id),
            Rule::CallExpr => low_call(inner, f, id),
            Rule::Literal => low_literal(inner, f, id),
            Rule::Path => Some(
                expr_node(ExprKindV::Path(texts_of(inner.children, 0)), span_of(t, f), id),
            ),
            Rule::Expr => low_expr(inner, f, id),
            Rule::Block => match low_block(inner, f, id) {
                None => None,
                Some(b) => Some(expr_node(ExprKindV::Block(b.value), span_of(t, f), b.next)),
            },
            _ => None,
        }
    }
}

/// Parameters, a return type and a body.
pub open spec fn low_lambda(t: Tree, f: FileId, id: u32) -> Option<LowV<ExprV>>
    decreases t, 0nat,
{
    match low_params_at(t.children, 0, f, id) {
        None => None,
        Some(params) => {
            let i: int = if is_at(t.children, 0, Rule::ParamList) {
                1
            } else {
                0
            };
            match low_type_at(t.children, i as nat, f, params.next) {
                None => None,
                Some(ret) => {
                    let k: int = if is_at(t.children, i, Rule::Type) {
                        i + 1
                    } else {
                        i
                    };
                    if k >= t.children@.len() {
                        None
                    } else {
                        match low_block(t.children@[k], f, ret.next) {
                            None => None,
                            Some(body) => Some(
                                expr_node(
                                    ExprKindV::Lambda {
                                        params: params.value,
                                        ret: ret.value,
                                        body: body.value,
                                    },
                                    span_of(t, f),
                                    body.next,
                                ),
                            ),
                        }
                    }
                },
            }
        },
    }
}

/// The parameters at a place, which may be none.
pub open spec fn low_params_at(children: Vec<Tree>, i: nat, f: FileId, id: u32) -> Option<
    LowV<Seq<ParamV>>,
>
    decreases children, children@.len() + 1,
{
    if is_at(children, i as int, Rule::ParamList) {
        low_params(children@[i as int].children, children@[i as int].children@.len(), f, id)
    } else {
        Some(LowV { value: Seq::empty(), next: id })
    }
}

/// The type at a place, which may be none.
pub open spec fn low_type_at(children: Vec<Tree>, i: nat, f: FileId, id: u32) -> Option<
    LowV<Option<TypeV>>,
>
    decreases children, children@.len() + 1,
{
    if is_at(children, i as int, Rule::Type) {
        match low_type(children@[i as int], f, id) {
            None => None,
            Some(ty) => Some(LowV { value: Some(ty.value), next: ty.next }),
        }
    } else {
        Some(LowV { value: None, next: id })
    }
}

/// A call by name.
pub open spec fn low_call(t: Tree, f: FileId, id: u32) -> Option<LowV<ExprV>>
    decreases t, 0nat,
{
    if t.children@.len() == 0 {
        None
    } else {
        match low_turbofish(t.children, 1, f, id) {
            None => None,
            Some(generics) => {
                let i: nat = if is_at(t.children, 1, Rule::Turbofish) {
                    2
                } else {
                    1
                };
                match low_args_at(t.children, i, f, generics.next) {
                    None => None,
                    Some(a) => Some(
                        expr_node(
                            ExprKindV::Call(
                                texts_of(t.children@[0].children, 0),
                                generics.value,
                                a.value.args,
                                a.value.attrs,
                            ),
                            span_of(t, f),
                            a.next,
                        ),
                    ),
                }
            },
        }
    }
}

/// The explicit generics at a place, which may be none.
pub open spec fn low_turbofish(children: Vec<Tree>, i: nat, f: FileId, id: u32) -> Option<
    LowV<Seq<GenericArgV>>,
>
    decreases children, children@.len() + 1,
{
    if is_at(children, i as int, Rule::Turbofish) {
        low_generic_args(
            children@[i as int].children,
            0,
            children@[i as int].children@.len(),
            f,
            id,
        )
    } else {
        Some(LowV { value: Seq::empty(), next: id })
    }
}

/// The generics from a place up to the `n`th child.
pub open spec fn low_generic_args(
    children: Vec<Tree>,
    from: nat,
    n: nat,
    f: FileId,
    id: u32,
) -> Option<LowV<Seq<GenericArgV>>>
    decreases children, n,
{
    if n <= from || n > children@.len() {
        Some(LowV { value: Seq::empty(), next: id })
    } else {
        match low_generic_args(children, from, (n - 1) as nat, f, id) {
            None => None,
            Some(before) => match low_generic_arg(children@[n - 1], f, before.next) {
                None => None,
                Some(a) => Some(LowV { value: before.value.push(a.value), next: a.next }),
            },
        }
    }
}

/// A generic: a type, or a literal.
pub open spec fn low_generic_arg(t: Tree, f: FileId, id: u32) -> Option<LowV<GenericArgV>>
    decreases t, 0nat,
{
    if is_at(t.children, 0, Rule::Type) {
        match low_type(t.children@[0], f, id) {
            None => None,
            Some(ty) => Some(LowV { value: GenericArgV::Type(ty.value), next: ty.next }),
        }
    } else if is_at(t.children, 0, Rule::NumericLit) {
        let e = low_numeric(t.children@[0], f, id);
        Some(LowV { value: GenericArgV::Const(e.value), next: e.next })
    } else if is_at(t.children, 0, Rule::BoolLit) {
        let e = low_bool(t.children@[0], f, id);
        Some(LowV { value: GenericArgV::Const(e.value), next: e.next })
    } else {
        None
    }
}

/// The construction of a struct.
pub open spec fn low_struct_lit(t: Tree, f: FileId, id: u32) -> Option<LowV<ExprV>>
    decreases t, 0nat,
{
    if t.children@.len() == 0 {
        None
    } else {
        match low_turbofish(t.children, 1, f, id) {
            None => None,
            Some(generics) => {
                let i: int = if is_at(t.children, 1, Rule::Turbofish) {
                    2
                } else {
                    1
                };
                let fields = if i < t.children@.len() {
                    low_inits(
                        t.children@[i].children,
                        t.children@[i].children@.len(),
                        f,
                        generics.next,
                    )
                } else {
                    Some(LowV { value: Seq::empty(), next: generics.next })
                };
                match fields {
                    None => None,
                    Some(inits) => Some(
                        expr_node(
                            ExprKindV::StructLit(
                                texts_of(t.children@[0].children, 0),
                                generics.value,
                                inits.value,
                            ),
                            span_of(t, f),
                            inits.next,
                        ),
                    ),
                }
            },
        }
    }
}

/// The first `n` fields of the construction of a struct.
pub open spec fn low_inits(children: Vec<Tree>, n: nat, f: FileId, id: u32) -> Option<
    LowV<Seq<(Seq<char>, ExprV)>>,
>
    decreases children, n,
{
    if n == 0 || n > children@.len() {
        Some(LowV { value: Seq::empty(), next: id })
    } else {
        match low_inits(children, (n - 1) as nat, f, id) {
            None => None,
            Some(before) => {
                let init = children@[n - 1];
                if init.children@.len() < 2 {
                    None
                } else {
                    match low_expr(init.children@[1], f, before.next) {
                        None => None,
                        Some(e) => Some(
                            LowV {
                                value: before.value.push((init.children@[0].text@, e.value)),
                                next: e.next,
                            },
                        ),
                    }
                }
            },
        }
    }
}

/// The items with their positions as names.
pub open spec fn numbered(items: Seq<ExprV>) -> Seq<(Seq<char>, ExprV)> {
    Seq::new(items.len(), |i: int| (decimal(i as nat), items[i]))
}

/// A tuple: the struct that stands for tuples of that many items.
pub open spec fn low_tuple_lit(t: Tree, f: FileId, id: u32) -> Option<LowV<ExprV>>
    decreases t, 0nat,
{
    match low_exprs(t.children, 0, t.children@.len(), f, id) {
        None => None,
        Some(items) => Some(
            expr_node(
                ExprKindV::StructLit(
                    seq![tuple_name(items.value.len())],
                    Seq::empty(),
                    numbered(items.value),
                ),
                span_of(t, f),
                items.next,
            ),
        ),
    }
}

/// A choice.
pub open spec fn low_if(t: Tree, f: FileId, id: u32) -> Option<LowV<ExprV>>
    decreases t, 0nat,
{
    if t.children@.len() < 2 {
        None
    } else {
        match low_expr(t.children@[0], f, id) {
            None => None,
            Some(cond) => match low_block(t.children@[1], f, cond.next) {
                None => None,
                Some(then_branch) => match low_else(t.children, f, then_branch.next) {
                    None => None,
                    Some(else_branch) => Some(
                        expr_node(
                            ExprKindV::If {
                                cond: Box::new(cond.value),
                                then_branch: then_branch.value,
                                else_branch: else_branch.value,
                            },
                            span_of(t, f),
                            else_branch.next,
                        ),
                    ),
                },
            },
        }
    }
}

/// The other branch of a choice, which may be none.
pub open spec fn low_else(children: Vec<Tree>, f: FileId, id: u32) -> Option<
    LowV<Option<Box<ElseBranchV>>>,
>
    decreases children, children@.len() + 1,
{
    if children@.len() <= 2 {
        Some(LowV { value: None, next: id })
    } else if children@[2].rule == Rule::IfExpr {
        match low_if(children@[2], f, id) {
            None => None,
            Some(e) => Some(
                LowV { value: Some(Box::new(ElseBranchV::If(e.value))), next: e.next },
            ),
        }
    } else if children@[2].rule == Rule::Block {
        match low_block(children@[2], f, id) {
            None => None,
            Some(b) => Some(
                LowV { value: Some(Box::new(ElseBranchV::Block(b.value))), next: b.next },
            ),
        }
    } else {
        None
    }
}

/// A loop with a condition.
pub open spec fn low_while(t: Tree, f: FileId, id: u32) -> Option<LowV<ExprV>>
    decreases t, 0nat,
{
    if t.children@.len() < 2 {
        None
    } else {
        match low_expr(t.children@[0], f, id) {
            None => None,
            Some(cond) => match low_block(t.children@[1], f, cond.next) {
                None => None,
                Some(body) => Some(
                    expr_node(
                        ExprKindV::While { cond: Box::new(cond.value), body: body.value },
                        span_of(t, f),
                        body.next,
                    ),
                ),
            },
        }
    }
}

/// A loop without a condition.
pub open spec fn low_loop(t: Tree, f: FileId, id: u32) -> Option<LowV<ExprV>>
    decreases t, 0nat,
{
    if t.children@.len() == 0 {
        None
    } else {
        match low_block(t.children@[0], f, id) {
            None => None,
            Some(body) => Some(
                expr_node(ExprKindV::Loop { body: body.value }, span_of(t, f), body.next),
            ),
        }
    }
}

/// A loop over a range, where there are two bounds, or over the items of an array.
pub open spec fn low_for(t: Tree, f: FileId, id: u32) -> Option<LowV<ExprV>>
    decreases t, 0nat,
{
    if t.children@.len() < 3 {
        None
    } else {
        let var = t.children@[0].text@;
        match low_binary(t.children@[1], ADDITIVE_LEVEL as nat, f, id) {
            None => None,
            Some(first) => if t.children@[2].rule == Rule::Additive {
                match low_binary(t.children@[2], ADDITIVE_LEVEL as nat, f, first.next) {
                    None => None,
                    Some(end) => if t.children@.len() < 4 {
                        None
                    } else {
                        match low_block(t.children@[3], f, end.next) {
                            None => None,
                            Some(body) => Some(
                                expr_node(
                                    ExprKindV::For {
                                        var,
                                        start: Box::new(first.value),
                                        end: Box::new(end.value),
                                        body: body.value,
                                    },
                                    span_of(t, f),
                                    body.next,
                                ),
                            ),
                        }
                    },
                }
            } else {
                match low_block(t.children@[2], f, first.next) {
                    None => None,
                    Some(body) => Some(
                        expr_node(
                            ExprKindV::ForIn {
                                var,
                                iter: Box::new(first.value),
                                body: body.value,
                            },
                            span_of(t, f),
                            body.next,
                        ),
                    ),
                }
            },
        }
    }
}

/// The number of copies that a literal asks for; what follows a colon does not
/// count.
pub open spec fn copies(text: Seq<char>) -> Option<usize> {
    match parsed_u64(before_char(text, ':')) {
        Some(n) => if n <= usize::MAX {
            Some(n as usize)
        } else {
            None
        },
        None => None,
    }
}

/// That many copies of an expression, each with nodes of its own.
pub open spec fn low_copies(t: Tree, n: nat, f: FileId, id: u32) -> Option<LowV<Seq<ExprV>>>
    decreases t, n,
{
    if n == 0 {
        Some(LowV { value: Seq::empty(), next: id })
    } else {
        match low_copies(t, (n - 1) as nat, f, id) {
            None => None,
            Some(before) => match low_expr(t, f, before.next) {
                None => None,
                Some(e) => Some(LowV { value: before.value.push(e.value), next: e.next }),
            },
        }
    }
}

/// An array, by its items or by one item and a count.
pub open spec fn low_array_lit(t: Tree, f: FileId, id: u32) -> Option<LowV<ExprV>>
    decreases t, 0nat,
{
    let span = span_of(t, f);
    if t.children@.len() == 0 {
        Some(expr_node(ExprKindV::ArrayLit(Seq::empty()), span, id))
    } else {
        let body = t.children@[0];
        if body.rule == Rule::ArrayList {
            match low_exprs(body.children, 0, body.children@.len(), f, id) {
                None => None,
                Some(items) => Some(expr_node(ExprKindV::ArrayLit(items.value), span, items.next)),
            }
        } else if body.rule == Rule::ArrayRepeat && body.children@.len() >= 2 {
            let count = body.children@[1];
            if count.rule == Rule::NumericLit {
                match copies(count.text@) {
                    None => None,
                    Some(n) => match low_copies(body.children@[0], n as nat, f, id) {
                        None => None,
                        Some(items) => Some(
                            expr_node(ExprKindV::ArrayLit(items.value), span, items.next),
                        ),
                    },
                }
            } else {
                match low_expr(body.children@[0], f, id) {
                    None => None,
                    Some(value) => match low_count(count, f, value.next) {
                        None => None,
                        Some(c) => Some(
                            expr_node(
                                ExprKindV::ArrayRepeat {
                                    value: Box::new(value.value),
                                    count: Box::new(c.value),
                                },
                                span,
                                c.next,
                            ),
                        ),
                    },
                }
            }
        } else {
            None
        }
    }
}

/// A count that is not known yet: a name, or a whole pack.
pub open spec fn low_count(t: Tree, f: FileId, id: u32) -> Option<LowV<ExprV>> {
    if t.rule == Rule::Ident {
        Some(expr_node(ExprKindV::Path(seq![t.text@]), span_of(t, f), id))
    } else if t.rule == Rule::PackRef && t.children@.len() > 0 {
        Some(expr_node(ExprKindV::PackRef(t.children@[0].text@), span_of(t, f), id))
    } else {
        None
    }
}

/// A literal.
pub open spec fn low_literal(t: Tree, f: FileId, id: u32) -> Option<LowV<ExprV>> {
    if t.children@.len() == 0 {
        None
    } else {
        let inner = t.children@[0];
        match inner.rule {
            Rule::ImaginaryLit => low_imaginary(inner, f, id),
            Rule::NumericLit => Some(low_numeric(inner, f, id)),
            Rule::BoolLit => Some(low_bool(inner, f, id)),
            Rule::StringLit => low_string(inner, f, id),
            _ => None,
        }
    }
}

/// The text after the first colon, if there is one.
pub open spec fn suffix_of(text: Seq<char>) -> Option<Seq<char>> {
    let i = place_of(text, ':', 0);
    if i < text.len() {
        Some(text.subrange(i as int + 1, text.len() as int))
    } else {
        None
    }
}

/// A number, with the type that may follow it after a colon.
pub open spec fn low_numeric(t: Tree, f: FileId, id: u32) -> LowV<ExprV> {
    expr_node(
        ExprKindV::NumberLit { text: before_char(t.text@, ':'), suffix: suffix_of(t.text@) },
        span_of(t, f),
        id,
    )
}

/// An imaginary number, without the letter that ends it.
pub open spec fn low_imaginary(t: Tree, f: FileId, id: u32) -> Option<LowV<ExprV>> {
    if t.text@.len() == 0 {
        None
    } else {
        Some(
            expr_node(
                ExprKindV::ImaginaryLit { text: t.text@.drop_last(), suffix: None },
                span_of(t, f),
                id,
            ),
        )
    }
}

/// A truth value.
pub open spec fn low_bool(t: Tree, f: FileId, id: u32) -> LowV<ExprV> {
    expr_node(ExprKindV::BoolLit(t.text@ == "true"@), span_of(t, f), id)
}

/// The first `n` bytes as numbers.
pub open spec fn low_bytes(bytes: Seq<u8>, n: nat, span: Span, id: u32) -> LowV<Seq<ExprV>>
    decreases n,
{
    if n == 0 || n > bytes.len() {
        LowV { value: Seq::empty(), next: id }
    } else {
        let before = low_bytes(bytes, (n - 1) as nat, span, id);
        let e = expr_node(
            ExprKindV::NumberLit { text: decimal(bytes[n - 1] as nat), suffix: Some("i8"@) },
            span,
            before.next,
        );
        LowV { value: before.value.push(e.value), next: e.next }
    }
}

/// A string: the array of its UTF-8 bytes, without the quotes.
pub open spec fn low_string(t: Tree, f: FileId, id: u32) -> Option<LowV<ExprV>> {
    if t.text@.len() < 2 {
        None
    } else {
        let bytes = vstd::utf8::encode_utf8(unquoted(t.text@));
        let items = low_bytes(bytes, bytes.len(), span_of(t, f), id);
        Some(expr_node(ExprKindV::ArrayLit(items.value), span_of(t, f), items.next))
    }
}

/// A type.
pub open spec fn low_type(t: Tree, f: FileId, id: u32) -> Option<LowV<TypeV>>
    decreases t, 0nat,
{
    if t.children@.len() == 0 {
        None
    } else {
        let first = t.children@[0];
        match first.rule {
            Rule::ArrayType => low_array_type(first, f, id),
            Rule::FnType => low_fn_type(first, f, id),
            Rule::TupleType => low_tuple_type(first, f, id),
            Rule::PackRef => if first.children@.len() == 0 {
                None
            } else {
                Some(
                    type_node(TypeKindV::PackRef(first.children@[0].text@), span_of(t, f), id),
                )
            },
            Rule::Path => match low_generic_args(t.children, 1, t.children@.len(), f, id) {
                None => None,
                Some(args) => Some(
                    type_node(
                        TypeKindV::Path(texts_of(first.children, 0), args.value),
                        span_of(t, f),
                        args.next,
                    ),
                ),
            },
            _ => None,
        }
    }
}

/// The first `n` types.
pub open spec fn low_types(children: Vec<Tree>, n: nat, f: FileId, id: u32) -> Option<
    LowV<Seq<TypeV>>,
>
    decreases children, n,
{
    if n == 0 || n > children@.len() {
        Some(LowV { value: Seq::empty(), next: id })
    } else {
        match low_types(children, (n - 1) as nat, f, id) {
            None => None,
            Some(before) => match low_type(children@[n - 1], f, before.next) {
                None => None,
                Some(ty) => Some(LowV { value: before.value.push(ty.value), next: ty.next }),
            },
        }
    }
}

/// A function type; the last type is what the function returns.
pub open spec fn low_fn_type(t: Tree, f: FileId, id: u32) -> Option<LowV<TypeV>>
    decreases t, 0nat,
{
    match low_types(t.children, t.children@.len(), f, id) {
        None => None,
        Some(types) => if types.value.len() == 0 {
            None
        } else {
            Some(
                type_node(
                    TypeKindV::Fn(types.value.drop_last(), Box::new(types.value.last())),
                    span_of(t, f),
                    types.next,
                ),
            )
        },
    }
}

/// The types as generics.
pub open spec fn type_args(types: Seq<TypeV>) -> Seq<GenericArgV> {
    Seq::new(types.len(), |i: int| GenericArgV::Type(types[i]))
}

/// A tuple type: the struct that stands for tuples of that many items.
pub open spec fn low_tuple_type(t: Tree, f: FileId, id: u32) -> Option<LowV<TypeV>>
    decreases t, 0nat,
{
    match low_types(t.children, t.children@.len(), f, id) {
        None => None,
        Some(types) => Some(
            type_node(
                TypeKindV::Path(seq![tuple_name(types.value.len())], type_args(types.value)),
                span_of(t, f),
                types.next,
            ),
        ),
    }
}

/// An array type: arrays of arrays, the first size outermost.
pub open spec fn low_array_type(t: Tree, f: FileId, id: u32) -> Option<LowV<TypeV>>
    decreases t, 0nat,
{
    if t.children@.len() == 0 {
        None
    } else {
        match low_type(t.children@[0], f, id) {
            None => None,
            Some(elem) => match low_dims(t.children, t.children@.len(), f, elem.next) {
                None => None,
                Some(dims) => Some(
                    nested_type(elem.value, dims.value, span_of(t, f), dims.next),
                ),
            },
        }
    }
}

/// Arrays of arrays of a type, the first size outermost. They are numbered from the
/// innermost out.
pub open spec fn nested_type(elem: TypeV, dims: Seq<ExprV>, span: Span, id: u32) -> LowV<TypeV>
    decreases dims.len(),
{
    if dims.len() == 0 {
        LowV { value: elem, next: id }
    } else {
        let inner = type_node(
            TypeKindV::Array(Box::new(elem), Box::new(dims.last())),
            span,
            id,
        );
        nested_type(inner.value, dims.drop_last(), span, inner.next)
    }
}

/// The sizes of the children after the first, up to the `n`th.
pub open spec fn low_dims(children: Vec<Tree>, n: nat, f: FileId, id: u32) -> Option<
    LowV<Seq<ExprV>>,
>
    decreases children, n,
{
    if n <= 1 || n > children@.len() {
        Some(LowV { value: Seq::empty(), next: id })
    } else {
        match low_dims(children, (n - 1) as nat, f, id) {
            None => None,
            Some(before) => match low_dim(children@[n - 1], f, before.next) {
                None => None,
                Some(dim) => Some(LowV { value: before.value.push(dim.value), next: dim.next }),
            },
        }
    }
}

/// A size: an expression, or a pack of sizes.
pub open spec fn low_dim(t: Tree, f: FileId, id: u32) -> Option<LowV<ExprV>>
    decreases t, 0nat,
{
    if t.children@.len() == 0 {
        None
    } else {
        match low_expr(t.children@[0], f, id) {
            None => None,
            Some(e) => if is_at(t.children, 1, Rule::PackMarker) {
                match e.value.kind {
                    ExprKindV::Path(segments) => Some(
                        expr_node(
                            ExprKindV::PackRef(joined(segments, "::"@)),
                            span_of(t, f),
                            e.next,
                        ),
                    ),
                    _ => None,
                }
            } else {
                Some(e)
            },
        }
    }
}

/// Statements, and the value that the block has.
pub open spec fn low_block(t: Tree, f: FileId, id: u32) -> Option<LowV<BlockV>>
    decreases t, 0nat,
{
    low_block_parts(t.children, t.children@.len(), f, id)
}

/// The first `n` parts of a block.
pub open spec fn low_block_parts(children: Vec<Tree>, n: nat, f: FileId, id: u32) -> Option<
    LowV<BlockV>,
>
    decreases children, n,
{
    if n == 0 || n > children@.len() {
        Some(LowV { value: BlockV { stmts: Seq::empty(), tail: None }, next: id })
    } else {
        match low_block_parts(children, (n - 1) as nat, f, id) {
            None => None,
            Some(before) => if children@[n - 1].rule == Rule::Stmt {
                match low_stmt(children@[n - 1], f, before.next) {
                    None => None,
                    Some(s) => Some(
                        LowV {
                            value: BlockV {
                                stmts: before.value.stmts.push(s.value),
                                tail: before.value.tail,
                            },
                            next: s.next,
                        },
                    ),
                }
            } else if children@[n - 1].rule == Rule::Expr {
                match low_expr(children@[n - 1], f, before.next) {
                    None => None,
                    Some(e) => Some(
                        LowV {
                            value: BlockV {
                                stmts: before.value.stmts,
                                tail: Some(Box::new(e.value)),
                            },
                            next: e.next,
                        },
                    ),
                }
            } else {
                None
            },
        }
    }
}

/// A statement.
pub open spec fn low_stmt(t: Tree, f: FileId, id: u32) -> Option<LowV<StmtV>>
    decreases t, 0nat,
{
    if t.children@.len() == 0 {
        None
    } else {
        let inner = t.children@[0];
        let kind = match inner.rule {
            Rule::LetStmt => low_let(inner, f, id),
            Rule::AssignStmt => low_assign(inner, f, id),
            Rule::BreakStmt => if inner.children@.len() == 0 {
                Some(LowV { value: StmtKindV::Break(None), next: id })
            } else {
                match low_expr(inner.children@[0], f, id) {
                    None => None,
                    Some(e) => Some(
                        LowV { value: StmtKindV::Break(Some(e.value)), next: e.next },
                    ),
                }
            },
            Rule::ExprStmt => if inner.children@.len() == 0 {
                None
            } else {
                match low_expr(inner.children@[0], f, id) {
                    None => None,
                    Some(e) => Some(LowV { value: StmtKindV::Expr(e.value), next: e.next }),
                }
            },
            _ => None,
        };
        match kind {
            None => None,
            Some(k) => Some(stmt_node(k.value, span_of(t, f), k.next)),
        }
    }
}

/// The parts of a binding that have been seen.
pub struct BindingV {
    pub mutable: bool,
    pub name: Option<Seq<char>>,
    pub ty: Option<TypeV>,
    pub value: Option<ExprV>,
}

/// The first `n` parts of a binding: a name, whether it may change, a type and, in a
/// statement, a value. Of several names the first counts, of several types or values
/// the last.
pub open spec fn low_binding(
    children: Vec<Tree>,
    n: nat,
    with_value: bool,
    f: FileId,
    id: u32,
) -> Option<LowV<BindingV>>
    decreases children, n,
{
    if n == 0 || n > children@.len() {
        Some(
            LowV {
                value: BindingV { mutable: false, name: None, ty: None, value: None },
                next: id,
            },
        )
    } else {
        match low_binding(children, (n - 1) as nat, with_value, f, id) {
            None => None,
            Some(before) => {
                let p = children@[n - 1];
                match p.rule {
                    Rule::MutKw => Some(
                        LowV {
                            value: BindingV { mutable: true, ..before.value },
                            next: before.next,
                        },
                    ),
                    Rule::Ident => if before.value.name is None {
                        Some(
                            LowV {
                                value: BindingV { name: Some(p.text@), ..before.value },
                                next: before.next,
                            },
                        )
                    } else {
                        Some(before)
                    },
                    Rule::Type => match low_type(p, f, before.next) {
                        None => None,
                        Some(ty) => Some(
                            LowV {
                                value: BindingV { ty: Some(ty.value), ..before.value },
                                next: ty.next,
                            },
                        ),
                    },
                    Rule::Expr => if with_value {
                        match low_expr(p, f, before.next) {
                            None => None,
                            Some(e) => Some(
                                LowV {
                                    value: BindingV { value: Some(e.value), ..before.value },
                                    next: e.next,
                                },
                            ),
                        }
                    } else {
                        Some(before)
                    },
                    _ => Some(before),
                }
            },
        }
    }
}

/// A statement that binds a name to a value.
pub open spec fn low_let(t: Tree, f: FileId, id: u32) -> Option<LowV<StmtKindV>>
    decreases t, 0nat,
{
    match low_binding(t.children, t.children@.len(), true, f, id) {
        None => None,
        Some(b) => match (b.value.name, b.value.value) {
            (Some(name), Some(value)) => Some(
                LowV {
                    value: StmtKindV::Let {
                        mutable: b.value.mutable,
                        name,
                        ty: b.value.ty,
                        value,
                    },
                    next: b.next,
                },
            ),
            _ => None,
        },
    }
}

/// A statement that assigns a value.
pub open spec fn low_assign(t: Tree, f: FileId, id: u32) -> Option<LowV<StmtKindV>>
    decreases t, 0nat,
{
    if t.children@.len() < 2 {
        None
    } else {
        match low_target(t.children@[0], f, id) {
            None => None,
            Some(target) => match low_expr(t.children@[1], f, target.next) {
                None => None,
                Some(value) => Some(
                    LowV {
                        value: StmtKindV::Assign { target: target.value, value: value.value },
                        next: value.next,
                    },
                ),
            },
        }
    }
}

/// What is assigned to: a name with the accesses that follow it.
pub open spec fn low_target(t: Tree, f: FileId, id: u32) -> Option<LowV<ExprV>>
    decreases t, 0nat,
{
    if t.children@.len() == 0 {
        None
    } else {
        let ident = t.children@[0];
        low_ops(
            t.children,
            t.children@.len(),
            f,
            expr_node(ExprKindV::Path(seq![ident.text@]), span_of(ident, f), id),
        )
    }
}

/// The first `n` parameters.
pub open spec fn low_params(children: Vec<Tree>, n: nat, f: FileId, id: u32) -> Option<
    LowV<Seq<ParamV>>,
>
    decreases children, n,
{
    if n == 0 || n > children@.len() {
        Some(LowV { value: Seq::empty(), next: id })
    } else {
        match low_params(children, (n - 1) as nat, f, id) {
            None => None,
            Some(before) => match low_param(children@[n - 1], f, before.next) {
                None => None,
                Some(p) => Some(LowV { value: before.value.push(p.value), next: p.next }),
            },
        }
    }
}

/// A parameter.
pub open spec fn low_param(t: Tree, f: FileId, id: u32) -> Option<LowV<ParamV>>
    decreases t, 0nat,
{
    match low_binding(t.children, t.children@.len(), false, f, id) {
        None => None,
        Some(b) => match b.value.name {
            None => None,
            Some(name) => Some(
                LowV {
                    value: ParamV { name, ty: b.value.ty, mutable: b.value.mutable },
                    next: b.next,
                },
            ),
        },
    }
}

} // verus!
