//! How many numbers the nodes take that a parse tree becomes.

use vstd::prelude::*;

use crate::lower_items::{attrs_end, past, types_end};
use crate::lower_specs::{copies, unquoted, ADDITIVE_LEVEL, LAST_LEVEL};
use crate::tree::{is_at, Rule, Tree};

verus! {

// ---- expressions ----

/// The numbers that an expression takes.
pub open spec fn numbers_of_expr(t: Tree) -> nat
    decreases t, 0nat,
{
    if t.rule != Rule::Expr || t.children@.len() == 0 {
        0
    } else {
        numbers_of_binary(t.children@[0], 0)
    }
}

/// The numbers that operands and the operators between them take.
pub open spec fn numbers_of_binary(t: Tree, level: nat) -> nat
    decreases t, 0nat,
{
    numbers_of_fold(t.children, level, ((t.children@.len() + 1) / 2) as nat)
}

pub open spec fn numbers_of_operand(t: Tree, level: nat) -> nat
    decreases t, 1nat,
{
    if level >= LAST_LEVEL {
        numbers_of_unary(t)
    } else {
        numbers_of_binary(t, level + 1)
    }
}

/// The numbers that the first `k` operands and the operators between them take.
pub open spec fn numbers_of_fold(children: Vec<Tree>, level: nat, k: nat) -> nat
    decreases children, k,
{
    if k == 0 || 2 * k - 1 > children@.len() {
        0
    } else if k == 1 {
        numbers_of_operand(children@[0], level)
    } else {
        numbers_of_fold(children, level, (k - 1) as nat) + numbers_of_operand(
            children@[2 * k - 2],
            level,
        ) + 1
    }
}

pub open spec fn numbers_of_unary(t: Tree) -> nat
    decreases t, 0nat,
{
    if is_at(t.children, 0, Rule::UnaryOp) {
        if t.children@.len() < 2 {
            0
        } else {
            numbers_of_unary(t.children@[1]) + 1
        }
    } else if is_at(t.children, 0, Rule::Postfix) {
        numbers_of_postfix(t.children@[0])
    } else {
        0
    }
}

pub open spec fn numbers_of_postfix(t: Tree) -> nat
    decreases t, 0nat,
{
    if t.children@.len() == 0 {
        0
    } else {
        numbers_of_primary(t.children@[0]) + numbers_of_ops(t.children, t.children@.len())
    }
}

/// The numbers that the operations behind the first of the first `k` parts take.
pub open spec fn numbers_of_ops(children: Vec<Tree>, k: nat) -> nat
    decreases children, k,
{
    if k <= 1 || k > children@.len() {
        0
    } else {
        numbers_of_ops(children, (k - 1) as nat) + numbers_of_op(children@[k - 1])
    }
}

/// The numbers that an operation behind its base takes. What is called directly is bound
/// to a variable, which is called in a block.
pub open spec fn numbers_of_op(t: Tree) -> nat
    decreases t, 0nat,
{
    if is_at(t.children, 0, Rule::Ident) || is_at(t.children, 0, Rule::TupleIndex) {
        if t.children@.len() > 1 {
            numbers_of_call_args(t.children@[1]) + 1
        } else {
            1
        }
    } else if is_at(t.children, 0, Rule::Expr) {
        numbers_of_exprs(t.children, 0, t.children@.len()) + 1
    } else if is_at(t.children, 0, Rule::CallArgs) {
        numbers_of_call_args(t.children@[0]) + 3
    } else {
        0
    }
}

/// The numbers that the expressions from one place up to another take.
pub open spec fn numbers_of_exprs(children: Vec<Tree>, from: nat, k: nat) -> nat
    decreases children, k,
{
    if k <= from || k > children@.len() {
        0
    } else {
        numbers_of_exprs(children, from, (k - 1) as nat) + numbers_of_expr(children@[k - 1])
    }
}

/// The numbers that the first `k` arguments take; an attribute takes none.
pub open spec fn numbers_of_args(children: Vec<Tree>, k: nat) -> nat
    decreases children, k,
{
    if k == 0 || k > children@.len() {
        0
    } else {
        let arg = children@[k - 1];
        numbers_of_args(children, (k - 1) as nat) + if arg.children@.len() == 0
            || arg.children@[0].rule == Rule::MlirAttr {
            0
        } else {
            numbers_of_expr(arg.children@[0])
        }
    }
}

pub open spec fn numbers_of_call_args(t: Tree) -> nat
    decreases t, 0nat,
{
    if t.children@.len() == 0 {
        0
    } else {
        numbers_of_args(t.children@[0].children, t.children@[0].children@.len())
    }
}

pub open spec fn numbers_of_args_at(children: Vec<Tree>, i: nat) -> nat
    decreases children, children@.len() + 1,
{
    if i >= children@.len() {
        0
    } else {
        numbers_of_args(children@[i as int].children, children@[i as int].children@.len())
    }
}

pub open spec fn numbers_of_primary(t: Tree) -> nat
    decreases t, 0nat,
{
    if t.children@.len() == 0 {
        0
    } else {
        let inner = t.children@[0];
        match inner.rule {
            Rule::IfExpr => numbers_of_if(inner),
            Rule::WhileExpr => numbers_of_while(inner),
            Rule::ForExpr => numbers_of_for(inner),
            Rule::LoopExpr => numbers_of_loop(inner),
            Rule::ArrayLit => numbers_of_array_lit(inner),
            Rule::LambdaExpr => numbers_of_lambda(inner),
            Rule::StructLit => numbers_of_struct_lit(inner),
            Rule::TupleLit => numbers_of_tuple_lit(inner),
            Rule::CallExpr => numbers_of_call(inner),
            Rule::Literal => numbers_of_literal(inner),
            Rule::Path => 1,
            Rule::Expr => numbers_of_expr(inner),
            Rule::Block => numbers_of_block(inner) + 1,
            _ => 0,
        }
    }
}

pub open spec fn numbers_of_lambda(t: Tree) -> nat
    decreases t, 0nat,
{
    let i: int = if is_at(t.children, 0, Rule::ParamList) {
        1
    } else {
        0
    };
    let k: int = if is_at(t.children, i, Rule::Type) {
        i + 1
    } else {
        i
    };
    if k >= t.children@.len() {
        0
    } else {
        numbers_of_params_at(t.children, 0) + numbers_of_type_at(t.children, i as nat)
            + numbers_of_block(t.children@[k]) + 1
    }
}

/// The numbers that the parameters at a place take, if any are there.
pub open spec fn numbers_of_params_at(children: Vec<Tree>, i: nat) -> nat
    decreases children, children@.len() + 1,
{
    if is_at(children, i as int, Rule::ParamList) {
        numbers_of_params(children@[i as int].children, children@[i as int].children@.len())
    } else {
        0
    }
}

/// The numbers that the type at a place takes, if one is there.
pub open spec fn numbers_of_type_at(children: Vec<Tree>, i: nat) -> nat
    decreases children, children@.len() + 1,
{
    if is_at(children, i as int, Rule::Type) {
        numbers_of_type(children@[i as int])
    } else {
        0
    }
}

pub open spec fn numbers_of_call(t: Tree) -> nat
    decreases t, 0nat,
{
    let i: nat = if is_at(t.children, 1, Rule::Turbofish) {
        2
    } else {
        1
    };
    numbers_of_turbofish(t.children, 1) + numbers_of_args_at(t.children, i) + 1
}

pub open spec fn numbers_of_turbofish(children: Vec<Tree>, i: nat) -> nat
    decreases children, children@.len() + 1,
{
    if is_at(children, i as int, Rule::Turbofish) {
        numbers_of_generic_args(
            children@[i as int].children,
            0,
            children@[i as int].children@.len(),
        )
    } else {
        0
    }
}

/// The numbers that the generics from one place up to another take.
pub open spec fn numbers_of_generic_args(children: Vec<Tree>, from: nat, k: nat) -> nat
    decreases children, k,
{
    if k <= from || k > children@.len() {
        0
    } else {
        numbers_of_generic_args(children, from, (k - 1) as nat) + numbers_of_generic_arg(
            children@[k - 1],
        )
    }
}

pub open spec fn numbers_of_generic_arg(t: Tree) -> nat
    decreases t, 0nat,
{
    if is_at(t.children, 0, Rule::Type) {
        numbers_of_type(t.children@[0])
    } else if is_at(t.children, 0, Rule::NumericLit) || is_at(t.children, 0, Rule::BoolLit) {
        1
    } else {
        0
    }
}

pub open spec fn numbers_of_struct_lit(t: Tree) -> nat
    decreases t, 0nat,
{
    let i: int = if is_at(t.children, 1, Rule::Turbofish) {
        2
    } else {
        1
    };
    numbers_of_turbofish(t.children, 1) + 1 + if i < t.children@.len() {
        numbers_of_inits(t.children@[i].children, t.children@[i].children@.len())
    } else {
        0
    }
}

/// The numbers that the values of the first `k` fields take.
pub open spec fn numbers_of_inits(children: Vec<Tree>, k: nat) -> nat
    decreases children, k,
{
    if k == 0 || k > children@.len() {
        0
    } else {
        numbers_of_inits(children, (k - 1) as nat) + if children@[k - 1].children@.len() < 2 {
            0
        } else {
            numbers_of_expr(children@[k - 1].children@[1])
        }
    }
}

pub open spec fn numbers_of_tuple_lit(t: Tree) -> nat
    decreases t, 0nat,
{
    numbers_of_exprs(t.children, 0, t.children@.len()) + 1
}

pub open spec fn numbers_of_if(t: Tree) -> nat
    decreases t, 0nat,
{
    if t.children@.len() < 2 {
        0
    } else {
        numbers_of_expr(t.children@[0]) + numbers_of_block(t.children@[1]) + numbers_of_else(
            t.children,
        ) + 1
    }
}

pub open spec fn numbers_of_else(children: Vec<Tree>) -> nat
    decreases children, children@.len() + 1,
{
    if children@.len() <= 2 {
        0
    } else if children@[2].rule == Rule::IfExpr {
        numbers_of_if(children@[2])
    } else if children@[2].rule == Rule::Block {
        numbers_of_block(children@[2])
    } else {
        0
    }
}

pub open spec fn numbers_of_while(t: Tree) -> nat
    decreases t, 0nat,
{
    if t.children@.len() < 2 {
        0
    } else {
        numbers_of_expr(t.children@[0]) + numbers_of_block(t.children@[1]) + 1
    }
}

pub open spec fn numbers_of_loop(t: Tree) -> nat
    decreases t, 0nat,
{
    if t.children@.len() == 0 {
        0
    } else {
        numbers_of_block(t.children@[0]) + 1
    }
}

pub open spec fn numbers_of_for(t: Tree) -> nat
    decreases t, 0nat,
{
    if t.children@.len() < 3 {
        0
    } else {
        numbers_of_binary(t.children@[1], ADDITIVE_LEVEL as nat) + 1 + if t.children@[2].rule
            == Rule::Additive {
            numbers_of_binary(t.children@[2], ADDITIVE_LEVEL as nat) + if t.children@.len() < 4 {
                0
            } else {
                numbers_of_block(t.children@[3])
            }
        } else {
            numbers_of_block(t.children@[2])
        }
    }
}

/// The numbers that an array takes. A value that is repeated a written number of times
/// takes its numbers that many times.
pub open spec fn numbers_of_array_lit(t: Tree) -> nat
    decreases t, 0nat,
{
    if t.children@.len() == 0 {
        1
    } else {
        let body = t.children@[0];
        if body.rule == Rule::ArrayList {
            numbers_of_exprs(body.children, 0, body.children@.len()) + 1
        } else if body.rule == Rule::ArrayRepeat && body.children@.len() >= 2 {
            let count = body.children@[1];
            if count.rule == Rule::NumericLit {
                match copies(count.text@) {
                    None => 0,
                    Some(k) => k as nat * numbers_of_expr(body.children@[0]) + 1,
                }
            } else {
                numbers_of_expr(body.children@[0]) + 2
            }
        } else {
            0
        }
    }
}

/// The numbers that a literal takes: a string takes one for each of its bytes besides its
/// own.
pub open spec fn numbers_of_literal(t: Tree) -> nat {
    if t.children@.len() > 0 && t.children@[0].rule == Rule::StringLit {
        vstd::utf8::encode_utf8(unquoted(t.children@[0].text@)).len() + 1
    } else {
        1
    }
}

// ---- types ----

/// The numbers that a type takes.
pub open spec fn numbers_of_type(t: Tree) -> nat
    decreases t, 0nat,
{
    if t.children@.len() == 0 {
        0
    } else {
        let first = t.children@[0];
        match first.rule {
            Rule::ArrayType => numbers_of_array_type(first),
            Rule::FnType => numbers_of_types(first.children, first.children@.len()) + 1,
            Rule::TupleType => numbers_of_types(first.children, first.children@.len()) + 1,
            Rule::PackRef => 1,
            Rule::Path => numbers_of_generic_args(t.children, 1, t.children@.len()) + 1,
            _ => 0,
        }
    }
}

/// The numbers that the first `k` types take.
pub open spec fn numbers_of_types(children: Vec<Tree>, k: nat) -> nat
    decreases children, k,
{
    if k == 0 || k > children@.len() {
        0
    } else {
        numbers_of_types(children, (k - 1) as nat) + numbers_of_type(children@[k - 1])
    }
}

/// The numbers that an array type takes: one for each of its sizes besides theirs.
pub open spec fn numbers_of_array_type(t: Tree) -> nat
    decreases t, 0nat,
{
    if t.children@.len() == 0 {
        0
    } else {
        numbers_of_type(t.children@[0]) + numbers_of_dims(t.children, t.children@.len()) + (
        t.children@.len() - 1) as nat
    }
}

/// The numbers that the sizes among the first `k` parts take.
pub open spec fn numbers_of_dims(children: Vec<Tree>, k: nat) -> nat
    decreases children, k,
{
    if k <= 1 || k > children@.len() {
        0
    } else {
        numbers_of_dims(children, (k - 1) as nat) + numbers_of_dim(children@[k - 1])
    }
}

pub open spec fn numbers_of_dim(t: Tree) -> nat
    decreases t, 0nat,
{
    if t.children@.len() == 0 {
        0
    } else {
        numbers_of_expr(t.children@[0]) + if is_at(t.children, 1, Rule::PackMarker) {
            1nat
        } else {
            0nat
        }
    }
}

// ---- blocks and statements ----

/// The numbers that a block takes.
pub open spec fn numbers_of_block(t: Tree) -> nat
    decreases t, 0nat,
{
    numbers_of_block_parts(t.children, t.children@.len())
}

/// The numbers that the first `k` parts of a block take.
pub open spec fn numbers_of_block_parts(children: Vec<Tree>, k: nat) -> nat
    decreases children, k,
{
    if k == 0 || k > children@.len() {
        0
    } else {
        numbers_of_block_parts(children, (k - 1) as nat) + if children@[k - 1].rule
            == Rule::Stmt {
            numbers_of_stmt(children@[k - 1])
        } else {
            numbers_of_expr(children@[k - 1])
        }
    }
}

pub open spec fn numbers_of_stmt(t: Tree) -> nat
    decreases t, 0nat,
{
    if t.children@.len() == 0 {
        0
    } else {
        let inner = t.children@[0];
        match inner.rule {
            Rule::LetStmt => numbers_of_binding(inner.children, inner.children@.len(), true) + 1,
            Rule::AssignStmt => numbers_of_assign(inner) + 1,
            _ => if inner.children@.len() == 0 {
                1
            } else {
                numbers_of_expr(inner.children@[0]) + 1
            },
        }
    }
}

/// The numbers that the first `k` parts of a binding take: its types, and its values where
/// it has any.
pub open spec fn numbers_of_binding(children: Vec<Tree>, k: nat, with_value: bool) -> nat
    decreases children, k,
{
    if k == 0 || k > children@.len() {
        0
    } else {
        let p = children@[k - 1];
        numbers_of_binding(children, (k - 1) as nat, with_value) + if p.rule == Rule::Type {
            numbers_of_type(p)
        } else if p.rule == Rule::Expr && with_value {
            numbers_of_expr(p)
        } else {
            0
        }
    }
}

pub open spec fn numbers_of_assign(t: Tree) -> nat
    decreases t, 0nat,
{
    if t.children@.len() < 2 {
        0
    } else {
        numbers_of_target(t.children@[0]) + numbers_of_expr(t.children@[1])
    }
}

pub open spec fn numbers_of_target(t: Tree) -> nat
    decreases t, 0nat,
{
    numbers_of_ops(t.children, t.children@.len()) + 1
}

/// The numbers that the first `k` parameters take.
pub open spec fn numbers_of_params(children: Vec<Tree>, k: nat) -> nat
    decreases children, k,
{
    if k == 0 || k > children@.len() {
        0
    } else {
        numbers_of_params(children, (k - 1) as nat) + numbers_of_param(children@[k - 1])
    }
}

pub open spec fn numbers_of_param(t: Tree) -> nat
    decreases t, 0nat,
{
    numbers_of_binding(t.children, t.children@.len(), false)
}

// ---- items ----

pub open spec fn numbers_of_generic_param(t: Tree) -> nat {
    let at: int = if is_at(t.children, 1, Rule::PackMarker) {
        2
    } else {
        1
    };
    if t.children@.len() == at + 1 && t.children@[at].rule == Rule::Type {
        numbers_of_type(t.children@[at])
    } else {
        0
    }
}

/// The numbers that the first `k` generics take.
pub open spec fn numbers_of_generics(children: Vec<Tree>, k: nat) -> nat
    decreases k,
{
    if k == 0 || k > children@.len() {
        0
    } else {
        numbers_of_generics(children, (k - 1) as nat) + numbers_of_generic_param(children@[k - 1])
    }
}

pub open spec fn numbers_of_generics_at(children: Vec<Tree>, i: nat) -> nat {
    if is_at(children, i as int, Rule::GenericParams) {
        numbers_of_generics(children@[i as int].children, children@[i as int].children@.len())
    } else {
        0
    }
}

/// The numbers that a function takes.
pub open spec fn numbers_of_fn_decl(t: Tree) -> nat {
    let at = past(
        t.children,
        past(t.children, attrs_end(t.children, 0), Rule::ExternKw),
        Rule::ExportKw,
    );
    let g = at + 1;
    let p = past(t.children, g, Rule::GenericParams);
    let r = past(t.children, p, Rule::ParamList);
    let b = past(t.children, r, Rule::Type);
    numbers_of_generics_at(t.children, g) + numbers_of_params_at(t.children, p)
        + numbers_of_type_at(t.children, r) + if b < t.children@.len() {
        numbers_of_block(t.children@[b as int])
    } else {
        0
    }
}

/// The numbers that the functions from one place up to another take.
pub open spec fn numbers_of_fns(children: Vec<Tree>, from: nat, k: nat) -> nat
    decreases k,
{
    if k <= from || k > children@.len() {
        0
    } else {
        numbers_of_fns(children, from, (k - 1) as nat) + numbers_of_fn_decl(children@[k - 1])
    }
}

/// The numbers that the types from one place up to another take.
pub open spec fn numbers_of_targets(children: Vec<Tree>, from: nat, k: nat) -> nat
    decreases k,
{
    if k <= from || k > children@.len() {
        0
    } else {
        numbers_of_targets(children, from, (k - 1) as nat) + numbers_of_type(children@[k - 1])
    }
}

/// The numbers that the first `k` fields take.
pub open spec fn numbers_of_fields(children: Vec<Tree>, k: nat) -> nat
    decreases k,
{
    if k == 0 || k > children@.len() {
        0
    } else {
        numbers_of_fields(children, (k - 1) as nat) + if children@[k - 1].children@.len() < 2 {
            0
        } else {
            numbers_of_type(children@[k - 1].children@[1])
        }
    }
}

pub open spec fn numbers_of_struct_decl(t: Tree) -> nat {
    let at = past(t.children, 1, Rule::GenericParams) as int;
    numbers_of_generics_at(t.children, 1) + if at < t.children@.len() {
        numbers_of_fields(t.children@[at].children, t.children@[at].children@.len())
    } else {
        0
    }
}

pub open spec fn numbers_of_fn_sig(t: Tree) -> nat {
    let at = past(t.children, 1, Rule::ParamList) as int;
    numbers_of_params_at(t.children, 1) + if at < t.children@.len() {
        numbers_of_type(t.children@[at])
    } else {
        0
    }
}

pub open spec fn numbers_of_named_expr(t: Tree) -> nat {
    let at = past(t.children, 1, Rule::ParamList) as int;
    numbers_of_params_at(t.children, 1) + if at < t.children@.len() {
        numbers_of_expr(t.children@[at])
    } else {
        0
    }
}

pub open spec fn numbers_of_algebra_item(t: Tree) -> nat {
    if t.children@.len() == 0 {
        0
    } else if t.children@[0].rule == Rule::FnSig {
        numbers_of_fn_sig(t.children@[0]) + 1
    } else {
        numbers_of_named_expr(t.children@[0]) + 1
    }
}

/// The numbers that the declarations from one place up to another take.
pub open spec fn numbers_of_algebra_items(children: Vec<Tree>, from: nat, k: nat) -> nat
    decreases k,
{
    if k <= from || k > children@.len() {
        0
    } else {
        numbers_of_algebra_items(children, from, (k - 1) as nat) + numbers_of_algebra_item(
            children@[k - 1],
        )
    }
}

pub open spec fn numbers_of_algebra_decl(t: Tree) -> nat {
    let b = past(t.children, 1, Rule::GenericParams);
    let i = past(t.children, b, Rule::BoundList);
    numbers_of_generics_at(t.children, 1) + numbers_of_algebra_items(
        t.children,
        i,
        t.children@.len(),
    )
}

pub open spec fn numbers_of_algebra_impl(t: Tree) -> nat {
    let a = attrs_end(t.children, 0);
    let at = past(t.children, a, Rule::GenericParams);
    if at + 1 >= t.children@.len() {
        0
    } else {
        let e = types_end(t.children, at + 2);
        numbers_of_generics_at(t.children, a) + numbers_of_type(t.children@[at as int + 1])
            + numbers_of_targets(t.children, at + 2, e) + numbers_of_fns(
            t.children,
            e,
            t.children@.len(),
        )
    }
}

pub open spec fn numbers_of_inherent_impl(t: Tree) -> nat {
    let at = past(t.children, 0, Rule::GenericParams);
    if at >= t.children@.len() {
        0
    } else {
        numbers_of_generics_at(t.children, 0) + numbers_of_type(t.children@[at as int])
            + numbers_of_fns(t.children, at + 1, t.children@.len())
    }
}

pub open spec fn numbers_of_item_kind(inner: Tree) -> nat {
    match inner.rule {
        Rule::StructDecl => numbers_of_struct_decl(inner),
        Rule::AlgebraDecl => numbers_of_algebra_decl(inner),
        Rule::ImplDecl => if is_at(inner.children, 0, Rule::AlgebraImpl) {
            numbers_of_algebra_impl(inner.children@[0])
        } else if is_at(inner.children, 0, Rule::InherentImpl) {
            numbers_of_inherent_impl(inner.children@[0])
        } else {
            0
        },
        Rule::FnDecl => numbers_of_fn_decl(inner),
        _ => 0,
    }
}

pub open spec fn numbers_of_item(t: Tree) -> nat {
    if t.children@.len() == 0 {
        0
    } else {
        numbers_of_item_kind(t.children@[0]) + 1
    }
}

/// The numbers that the items among the first `k` parts take.
pub open spec fn numbers_of_items(children: Vec<Tree>, k: nat) -> nat
    decreases k,
{
    if k == 0 || k > children@.len() {
        0
    } else {
        numbers_of_items(children, (k - 1) as nat) + if children@[k - 1].rule == Rule::Item {
            numbers_of_item(children@[k - 1])
        } else {
            0
        }
    }
}

/// The numbers that a program takes.
pub open spec fn numbers_of_program(t: Tree) -> nat {
    numbers_of_items(t.children, t.children@.len())
}

} // verus!
