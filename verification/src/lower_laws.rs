//! Every node that a parse tree becomes has a number of its own.

use vstd::prelude::*;

use crate::ast::{FileId, Span};
use crate::ast_views::{BlockV, ExprKindV, ExprV, GenericArgV, StmtKindV, TypeKindV, TypeV};
use crate::lower_specs::{
    call_of, called_name, copies, expr_node, low_args, low_args_at, low_array_lit, low_array_type,
    low_assign, low_binary, low_binding, low_block, low_block_parts, low_bool, low_bytes, low_call,
    low_call_args, low_copies, low_count, low_dim, low_dims, low_else, low_expr, low_exprs,
    low_fn_type, low_fold, low_for, low_generic_arg, low_generic_args, low_if, low_inits,
    low_lambda, low_let, low_literal, low_loop, low_numeric, low_op, low_operand, low_ops,
    low_param, low_params, low_params_at, low_postfix, low_primary, low_stmt, low_struct_lit,
    low_target, low_tuple_lit, low_tuple_type, low_turbofish, low_type, low_type_at, low_types,
    low_unary, low_while, nested_type, numbered, op_name, span_from, span_of, stmt_node, type_args,
    type_node, unquoted, ArgsV, BindingV, LowV, ADDITIVE_LEVEL, LAST_LEVEL,
};
use crate::node_counts::{
    numbers_of_args, numbers_of_args_at, numbers_of_array_lit, numbers_of_array_type, numbers_of_assign, numbers_of_binary, numbers_of_binding, numbers_of_block, numbers_of_block_parts, numbers_of_call, numbers_of_call_args, numbers_of_dim, numbers_of_dims, numbers_of_else, numbers_of_expr, numbers_of_exprs, numbers_of_fold, numbers_of_for, numbers_of_generic_arg, numbers_of_generic_args, numbers_of_if, numbers_of_inits, numbers_of_lambda, numbers_of_literal, numbers_of_loop, numbers_of_op, numbers_of_operand, numbers_of_ops, numbers_of_param, numbers_of_params, numbers_of_params_at, numbers_of_postfix, numbers_of_primary, numbers_of_stmt, numbers_of_struct_lit, numbers_of_target, numbers_of_tuple_lit, numbers_of_turbofish, numbers_of_type, numbers_of_type_at, numbers_of_types, numbers_of_unary, numbers_of_while,
};
use crate::node_ids::{
    ids_block, ids_else, ids_expr, ids_exprs, ids_generic, ids_generics, ids_inits, ids_kind,
    ids_opt_expr, ids_opt_type, ids_param, ids_params, ids_stmt, ids_stmt_kind, ids_stmts,
    ids_type, ids_types, lemma_exchange, lemma_join, lemma_leave_out, lemma_no_numbers, lemma_node,
    lemma_push_exprs, lemma_push_generics, lemma_push_inits, lemma_push_params, lemma_push_stmts,
    lemma_push_types, numbered_from,
};
use crate::tree::{is_at, texts_of, Rule, Tree};

verus! {

// ---- one node above its parts ----

proof fn lemma_expr_node(kind: ExprKindV, span: Span, id: u32, n: nat, mid: u32)
    requires
        numbered_from(ids_kind(kind), id, n, mid),
    ensures
        numbered_from(
            ids_expr(expr_node(kind, span, mid).value),
            id,
            n + 1,
            expr_node(kind, span, mid).next,
        ),
{
    lemma_node(ids_kind(kind), id, n, mid);
}

proof fn lemma_leaf(kind: ExprKindV, span: Span, id: u32)
    requires
        ids_kind(kind) == Seq::<u32>::empty(),
    ensures
        numbered_from(
            ids_expr(expr_node(kind, span, id).value),
            id,
            1,
            expr_node(kind, span, id).next,
        ),
{
    lemma_no_numbers(id);
    lemma_expr_node(kind, span, id, 0, id);
}

proof fn lemma_stmt_node(kind: StmtKindV, span: Span, id: u32, n: nat, mid: u32)
    requires
        numbered_from(ids_stmt_kind(kind), id, n, mid),
    ensures
        numbered_from(
            ids_stmt(stmt_node(kind, span, mid).value),
            id,
            n + 1,
            stmt_node(kind, span, mid).next,
        ),
{
    lemma_node(ids_stmt_kind(kind), id, n, mid);
}

proof fn lemma_list_type_node(
    path: Seq<Seq<char>>,
    args: Seq<GenericArgV>,
    span: Span,
    id: u32,
    n: nat,
    mid: u32,
)
    requires
        numbered_from(ids_generics(args, args.len()), id, n, mid),
    ensures
        numbered_from(
            ids_type(type_node(TypeKindV::Path(path, args), span, mid).value),
            id,
            n + 1,
            type_node(TypeKindV::Path(path, args), span, mid).next,
        ),
{
    lemma_node(ids_generics(args, args.len()), id, n, mid);
}

proof fn lemma_one(e: ExprV)
    ensures
        ids_exprs(seq![e], 1) == ids_expr(e),
{
    reveal_with_fuel(ids_exprs, 2);
    assert(ids_exprs(seq![e], 1) =~= ids_expr(e));
}

proof fn lemma_two(a: ExprV, b: ExprV)
    ensures
        ids_exprs(seq![a, b], 2) == ids_expr(a) + ids_expr(b),
{
    reveal_with_fuel(ids_exprs, 3);
    assert(ids_exprs(seq![a, b], 2) =~= ids_expr(a) + ids_expr(b));
}

// ---- expressions ----

/// How many numbers an expression takes; each of its nodes has one of its own.
pub proof fn lemma_expr_numbers(t: Tree, f: FileId, id: u32)
    ensures
        low_expr(t, f, id) matches Some(r) ==> numbered_from(
            ids_expr(r.value),
            id,
            numbers_of_expr(t),
            r.next,
        ),
    decreases t, 0nat,
{
    if !(t.rule != Rule::Expr || t.children@.len() == 0) {
        lemma_binary(t.children@[0], 0, f, id)
    }
}

proof fn lemma_binary(t: Tree, level: nat, f: FileId, id: u32)
    ensures
        low_binary(t, level, f, id) matches Some(r) ==> numbered_from(
            ids_expr(r.value),
            id,
            numbers_of_binary(t, level),
            r.next,
        ),
    decreases t, 0nat,
{
    if !(t.children@.len() % 2 == 0) {
        lemma_fold(t.children, level, ((t.children@.len() + 1) / 2) as nat, f, id)
    }
}

proof fn lemma_operand(t: Tree, level: nat, f: FileId, id: u32)
    ensures
        low_operand(t, level, f, id) matches Some(r) ==> numbered_from(
            ids_expr(r.value),
            id,
            numbers_of_operand(t, level),
            r.next,
        ),
    decreases t, 1nat,
{
    if level >= LAST_LEVEL {
        lemma_unary(t, f, id)
    } else {
        lemma_binary(t, level + 1, f, id)
    }
}

proof fn lemma_fold(children: Vec<Tree>, level: nat, k: nat, f: FileId, id: u32)
    ensures
        low_fold(children, level, k, f, id) matches Some(r) ==> numbered_from(
            ids_expr(r.value),
            id,
            numbers_of_fold(children, level, k),
            r.next,
        ),
    decreases children, k,
{
    if k == 0 || 2 * k - 1 > children@.len() {
    } else if k == 1 {
        lemma_operand(children@[0], level, f, id)
    } else {
        lemma_fold(children, level, (k - 1) as nat, f, id);
        let a = numbers_of_fold(children, level, (k - 1) as nat);
        if let Some(acc) = low_fold(children, level, (k - 1) as nat, f, id) {
            lemma_operand(children@[2 * k - 2], level, f, acc.next);
            let b = numbers_of_operand(children@[2 * k - 2], level);
            if let Some(rhs) = low_operand(children@[2 * k - 2], level, f, acc.next) {
                if let Some(name) = op_name(level, children@[2 * k - 3].text@) {
                    let args = seq![acc.value, rhs.value];
                    lemma_two(acc.value, rhs.value);
                    lemma_join(
                        ids_expr(acc.value),
                        id,
                        a,
                        acc.next,
                        ids_expr(rhs.value),
                        b,
                        rhs.next,
                    );
                    lemma_call_node(
                        name,
                        args,
                        span_from(f, acc.value.span, rhs.value.span),
                        id,
                        a + b,
                        rhs.next,
                    );
                }
            }
        }
    }
}

/// A call without generics.
proof fn lemma_call_node(
    name: Seq<char>,
    args: Seq<ExprV>,
    span: Span,
    id: u32,
    n: nat,
    mid: u32,
)
    requires
        numbered_from(ids_exprs(args, args.len()), id, n, mid),
    ensures
        numbered_from(
            ids_expr(expr_node(call_of(name, args), span, mid).value),
            id,
            n + 1,
            expr_node(call_of(name, args), span, mid).next,
        ),
{
    let kind = call_of(name, args);
    assert(ids_kind(kind) =~= ids_exprs(args, args.len()));
    lemma_expr_node(kind, span, id, n, mid);
}

proof fn lemma_unary(t: Tree, f: FileId, id: u32)
    ensures
        low_unary(t, f, id) matches Some(r) ==> numbered_from(
            ids_expr(r.value),
            id,
            numbers_of_unary(t),
            r.next,
        ),
    decreases t, 0nat,
{
    if is_at(t.children, 0, Rule::UnaryOp) {
        let op = t.children@[0].text@;
        if !(t.children@.len() < 2 || (op != "-"@ && op != "not"@)) {
            lemma_unary(t.children@[1], f, id);
            let a = numbers_of_unary(t.children@[1]);
            if let Some(operand) = low_unary(t.children@[1], f, id) {
                lemma_one(operand.value);
                lemma_call_node(
                    if op == "-"@ {
                        "neg"@
                    } else {
                        "not"@
                    },
                    seq![operand.value],
                    span_of(t, f),
                    id,
                    a,
                    operand.next,
                );
            }
        }
    } else if is_at(t.children, 0, Rule::Postfix) {
        lemma_postfix(t.children@[0], f, id)
    }
}

proof fn lemma_postfix(t: Tree, f: FileId, id: u32)
    ensures
        low_postfix(t, f, id) matches Some(r) ==> numbered_from(
            ids_expr(r.value),
            id,
            numbers_of_postfix(t),
            r.next,
        ),
    decreases t, 0nat,
{
    if t.children@.len() > 0 {
        lemma_primary(t.children@[0], f, id);
        let a = numbers_of_primary(t.children@[0]);
        if let Some(base) = low_primary(t.children@[0], f, id) {
            lemma_ops(t.children, t.children@.len(), f, id, a, base);
        }
    }
}

proof fn lemma_ops(
    children: Vec<Tree>,
    k: nat,
    f: FileId,
    id: u32,
    a: nat,
    base: LowV<ExprV>,
)
    requires
        numbered_from(ids_expr(base.value), id, a, base.next),
    ensures
        low_ops(children, k, f, base) matches Some(r) ==> numbered_from(
            ids_expr(r.value),
            id,
            a + numbers_of_ops(children, k),
            r.next,
        ),
    decreases children, k,
{
    if !(k <= 1 || k > children@.len()) {
        lemma_ops(children, (k - 1) as nat, f, id, a, base);
        let b = a + numbers_of_ops(children, (k - 1) as nat);
        if let Some(acc) = low_ops(children, (k - 1) as nat, f, base) {
            lemma_op(acc.value, children@[k - 1], f, id, b, acc.next);
        }
    }
}

#[verifier::rlimit(40)]
proof fn lemma_op(base: ExprV, t: Tree, f: FileId, id: u32, a: nat, mid: u32)
    requires
        numbered_from(ids_expr(base), id, a, mid),
    ensures
        low_op(base, t, f, mid) matches Some(r) ==> numbered_from(
            ids_expr(r.value),
            id,
            a + numbers_of_op(t),
            r.next,
        ),
    decreases t, 0nat,
{
    let span = span_from(f, base.span, span_of(t, f));
    if is_at(t.children, 0, Rule::Ident) || is_at(t.children, 0, Rule::TupleIndex) {
        let name = t.children@[0].text@;
        if t.children@.len() > 1 {
            lemma_call_args(t.children@[1], f, mid);
            let b = numbers_of_call_args(t.children@[1]);
            if let Some(args) = low_call_args(t.children@[1], f, mid) {
                let given = args.value.args;
                lemma_join(
                    ids_expr(base),
                    id,
                    a,
                    mid,
                    ids_exprs(given, given.len()),
                    b,
                    args.next,
                );
                if name == "to"@ && given.len() == 0 {
                    lemma_one(base);
                    assert(ids_expr(base) + ids_exprs(given, given.len()) =~= ids_exprs(
                        seq![base],
                        1,
                    ));
                    lemma_call_node("convert"@, seq![base], span, id, a + b, args.next);
                } else {
                    lemma_expr_node(
                        ExprKindV::MethodCall(Box::new(base), name, given),
                        span,
                        id,
                        a + b,
                        args.next,
                    );
                }
            }
        } else {
            lemma_expr_node(ExprKindV::FieldAccess(Box::new(base), name), span, id, a, mid);
        }
    } else if is_at(t.children, 0, Rule::Expr) {
        lemma_exprs(t.children, 0, t.children@.len(), f, mid);
        let b = numbers_of_exprs(t.children, 0, t.children@.len());
        if let Some(indices) = low_exprs(t.children, 0, t.children@.len(), f, mid) {
            lemma_join(
                ids_expr(base),
                id,
                a,
                mid,
                ids_exprs(indices.value, indices.value.len()),
                b,
                indices.next,
            );
            lemma_expr_node(
                ExprKindV::Index(Box::new(base), indices.value),
                span,
                id,
                a + b,
                indices.next,
            );
        }
    } else if is_at(t.children, 0, Rule::CallArgs) {
        lemma_call_args(t.children@[0], f, mid);
        let b = numbers_of_call_args(t.children@[0]);
        if let Some(args) = low_call_args(t.children@[0], f, mid) {
            lemma_called(base, args.value, span, id, a, mid, b, args.next);
        }
    }
}

/// A base that is called directly: it is bound to a variable, which is called.
proof fn lemma_called(
    base: ExprV,
    args: ArgsV,
    span: Span,
    id: u32,
    a: nat,
    mid: u32,
    b: nat,
    next: u32,
)
    requires
        numbered_from(ids_expr(base), id, a, mid),
        numbered_from(ids_exprs(args.args, args.args.len()), mid, b, next),
    ensures
        ({
            let name = called_name(base.id);
            let bind = stmt_node(
                StmtKindV::Let { mutable: false, name, ty: None, value: base },
                base.span,
                next,
            );
            let call = expr_node(
                ExprKindV::Call(seq![name], Seq::empty(), args.args, args.attrs),
                span,
                bind.next,
            );
            let r = expr_node(
                ExprKindV::Block(
                    BlockV { stmts: seq![bind.value], tail: Some(Box::new(call.value)) },
                ),
                span,
                call.next,
            );
            numbered_from(ids_expr(r.value), id, a + b + 3, r.next)
        }),
{
    let name = called_name(base.id);
    let bind_kind = StmtKindV::Let { mutable: false, name, ty: None, value: base };
    let bind = stmt_node(bind_kind, base.span, next);
    let call_kind = ExprKindV::Call(seq![name], Seq::empty(), args.args, args.attrs);
    let call = expr_node(call_kind, span, bind.next);
    let block = BlockV { stmts: seq![bind.value], tail: Some(Box::new(call.value)) };
    let r = expr_node(ExprKindV::Block(block), span, call.next);
    let x = ids_expr(base);
    let y = ids_exprs(args.args, args.args.len());
    assert(ids_stmt_kind(bind_kind) =~= x);
    assert(ids_kind(call_kind) =~= y);
    reveal_with_fuel(ids_stmts, 2);
    assert(ids_stmts(block.stmts, 1) =~= ids_stmt(bind.value));
    let all = (seq![next] + x) + (seq![bind.next] + y);
    assert(ids_stmt(bind.value) == seq![next] + x);
    assert(ids_expr(call.value) == seq![bind.next] + y);
    assert(ids_block(block) == ids_stmts(block.stmts, 1) + ids_expr(call.value));
    assert(ids_kind(ExprKindV::Block(block)) =~= all);
    if id + (a + b + 3) <= u32::MAX {
        let first = seq![next] + x;
        let second = seq![bind.next] + y;
        assert forall|i: int| 0 <= i < first.len() implies (first[i] == next || id <= first[i]
            < mid) by {
            if i > 0 {
                assert(first[i] == x[i - 1]);
            }
        }
        assert forall|i: int| 0 <= i < second.len() implies (second[i] == bind.next || mid
            <= second[i] < next) by {
            if i > 0 {
                assert(second[i] == y[i - 1]);
            }
        }
        assert forall|i: int, j: int| 0 <= i < j < first.len() implies first[i] != first[j] by {
            assert(first[j] == x[j - 1]);
            if i > 0 {
                assert(first[i] == x[i - 1]);
            }
        }
        assert forall|i: int, j: int| 0 <= i < j < second.len() implies second[i] != second[j] by {
            assert(second[j] == y[j - 1]);
            if i > 0 {
                assert(second[i] == y[i - 1]);
            }
        }
        assert forall|i: int| 0 <= i < all.len() implies id <= #[trigger] all[i] < id + (a + b
            + 2) by {
            if i < first.len() {
                assert(all[i] == first[i]);
            } else {
                assert(all[i] == second[i - first.len()]);
            }
        }
        assert forall|i: int, j: int| 0 <= i < j < all.len() implies #[trigger] all[i]
            != #[trigger] all[j] by {
            if j < first.len() {
                assert(all[i] == first[i] && all[j] == first[j]);
            } else if i < first.len() {
                assert(all[i] == first[i] && all[j] == second[j - first.len()]);
            } else {
                assert(all[i] == second[i - first.len()] && all[j] == second[j - first.len()]);
            }
        }
    }
    assert(numbered_from(all, id, a + b + 2, call.next));
    lemma_expr_node(ExprKindV::Block(block), span, id, a + b + 2, call.next);
}

proof fn lemma_exprs(children: Vec<Tree>, from: nat, k: nat, f: FileId, id: u32)
    ensures
        low_exprs(children, from, k, f, id) matches Some(r) ==> numbered_from(
            ids_exprs(r.value, r.value.len()),
            id,
            numbers_of_exprs(children, from, k),
            r.next,
        ),
    decreases children, k,
{
    if k <= from || k > children@.len() {
        lemma_no_numbers(id);
    } else {
        lemma_exprs(children, from, (k - 1) as nat, f, id);
        let a = numbers_of_exprs(children, from, (k - 1) as nat);
        if let Some(before) = low_exprs(children, from, (k - 1) as nat, f, id) {
            lemma_expr_numbers(children@[k - 1], f, before.next);
            let b = numbers_of_expr(children@[k - 1]);
            if let Some(e) = low_expr(children@[k - 1], f, before.next) {
                lemma_one_more(before.value, id, a, before.next, e.value, b, e.next);
            }
        }
    }
}

/// A list of expressions with one more.
proof fn lemma_one_more(
    before: Seq<ExprV>,
    id: u32,
    a: nat,
    mid: u32,
    e: ExprV,
    b: nat,
    next: u32,
)
    requires
        numbered_from(ids_exprs(before, before.len()), id, a, mid),
        numbered_from(ids_expr(e), mid, b, next),
    ensures
        numbered_from(ids_exprs(before.push(e), before.push(e).len()), id, a + b, next),
{
    lemma_push_exprs(before, e);
    lemma_join(ids_exprs(before, before.len()), id, a, mid, ids_expr(e), b, next);
}

proof fn lemma_args(children: Vec<Tree>, k: nat, f: FileId, id: u32)
    ensures
        low_args(children, k, f, id) matches Some(r) ==> numbered_from(
            ids_exprs(r.value.args, r.value.args.len()),
            id,
            numbers_of_args(children, k),
            r.next,
        ),
    decreases children, k,
{
    if k == 0 || k > children@.len() {
        lemma_no_numbers(id);
    } else {
        lemma_args(children, (k - 1) as nat, f, id);
        let a = numbers_of_args(children, (k - 1) as nat);
        if let Some(before) = low_args(children, (k - 1) as nat, f, id) {
            let arg = children@[k - 1];
            if arg.children@.len() == 0 {
            } else if arg.children@[0].rule == Rule::MlirAttr {
            } else {
                lemma_expr_numbers(arg.children@[0], f, before.next);
                let b = numbers_of_expr(arg.children@[0]);
                if let Some(e) = low_expr(arg.children@[0], f, before.next) {
                    lemma_one_more(before.value.args, id, a, before.next, e.value, b, e.next);
                }
            }
        }
    }
}

proof fn lemma_call_args(t: Tree, f: FileId, id: u32)
    ensures
        low_call_args(t, f, id) matches Some(r) ==> numbered_from(
            ids_exprs(r.value.args, r.value.args.len()),
            id,
            numbers_of_call_args(t),
            r.next,
        ),
    decreases t, 0nat,
{
    if t.children@.len() == 0 {
        lemma_no_numbers(id);
    } else {
        lemma_args(t.children@[0].children, t.children@[0].children@.len(), f, id)
    }
}

proof fn lemma_args_at(children: Vec<Tree>, i: nat, f: FileId, id: u32)
    ensures
        low_args_at(children, i, f, id) matches Some(r) ==> numbered_from(
            ids_exprs(r.value.args, r.value.args.len()),
            id,
            numbers_of_args_at(children, i),
            r.next,
        ),
    decreases children, children@.len() + 1,
{
    if i >= children@.len() {
        lemma_no_numbers(id);
    } else {
        lemma_args(children@[i as int].children, children@[i as int].children@.len(), f, id)
    }
}

#[verifier::rlimit(40)]
proof fn lemma_primary(t: Tree, f: FileId, id: u32)
    ensures
        low_primary(t, f, id) matches Some(r) ==> numbered_from(
            ids_expr(r.value),
            id,
            numbers_of_primary(t),
            r.next,
        ),
    decreases t, 0nat,
{
    if t.children@.len() > 0 {
        let inner = t.children@[0];
        match inner.rule {
            Rule::IfExpr => lemma_if(inner, f, id),
            Rule::WhileExpr => lemma_while(inner, f, id),
            Rule::ForExpr => lemma_for(inner, f, id),
            Rule::LoopExpr => lemma_loop(inner, f, id),
            Rule::ArrayLit => lemma_array_lit(inner, f, id),
            Rule::LambdaExpr => lemma_lambda(inner, f, id),
            Rule::StructLit => lemma_struct_lit(inner, f, id),
            Rule::TupleLit => lemma_tuple_lit(inner, f, id),
            Rule::CallExpr => lemma_call(inner, f, id),
            Rule::Literal => lemma_literal(inner, f, id),
            Rule::Path => {
                lemma_leaf(ExprKindV::Path(texts_of(inner.children, 0)), span_of(t, f), id);
            },
            Rule::Expr => lemma_expr_numbers(inner, f, id),
            Rule::Block => {
                lemma_block_numbers(inner, f, id);
                let a = numbers_of_block(inner);
                if let Some(b) = low_block(inner, f, id) {
                    lemma_expr_node(ExprKindV::Block(b.value), span_of(t, f), id, a, b.next);
                }
            },
            _ => {},
        }
    }
}

#[verifier::rlimit(40)]
proof fn lemma_lambda(t: Tree, f: FileId, id: u32)
    ensures
        low_lambda(t, f, id) matches Some(r) ==> numbered_from(
            ids_expr(r.value),
            id,
            numbers_of_lambda(t),
            r.next,
        ),
    decreases t, 0nat,
{
    lemma_params_at(t.children, 0, f, id);
    let a = numbers_of_params_at(t.children, 0);
    if let Some(params) = low_params_at(t.children, 0, f, id) {
        let i: int = if is_at(t.children, 0, Rule::ParamList) {
            1
        } else {
            0
        };
        lemma_type_at(t.children, i as nat, f, params.next);
        let b = numbers_of_type_at(t.children, i as nat);
        if let Some(ret) = low_type_at(t.children, i as nat, f, params.next) {
            let k: int = if is_at(t.children, i, Rule::Type) {
                i + 1
            } else {
                i
            };
            if k < t.children@.len() {
                lemma_block_numbers(t.children@[k], f, ret.next);
                let c = numbers_of_block(t.children@[k]);
                if let Some(body) = low_block(t.children@[k], f, ret.next) {
                    let x = ids_params(params.value, params.value.len());
                    let y = ids_opt_type(ret.value);
                    let z = ids_block(body.value);
                    lemma_join(x, id, a, params.next, y, b, ret.next);
                    lemma_join(x + y, id, a + b, ret.next, z, c, body.next);
                    lemma_expr_node(
                        ExprKindV::Lambda {
                            params: params.value,
                            ret: ret.value,
                            body: body.value,
                        },
                        span_of(t, f),
                        id,
                        a + b + c,
                        body.next,
                    );
                }
            }
        }
    }
}

/// How many numbers the parameters at a place take; each node has one of its own.
pub proof fn lemma_params_at(children: Vec<Tree>, i: nat, f: FileId, id: u32)
    ensures
        low_params_at(children, i, f, id) matches Some(r) ==> numbered_from(
            ids_params(r.value, r.value.len()),
            id,
            numbers_of_params_at(children, i),
            r.next,
        ),
    decreases children, children@.len() + 1,
{
    if is_at(children, i as int, Rule::ParamList) {
        lemma_params(children@[i as int].children, children@[i as int].children@.len(), f, id)
    } else {
        lemma_no_numbers(id);
    }
}

/// How many numbers the type at a place takes; each node has one of its own.
pub proof fn lemma_type_at(children: Vec<Tree>, i: nat, f: FileId, id: u32)
    ensures
        low_type_at(children, i, f, id) matches Some(r) ==> numbered_from(
            ids_opt_type(r.value),
            id,
            numbers_of_type_at(children, i),
            r.next,
        ),
    decreases children, children@.len() + 1,
{
    if is_at(children, i as int, Rule::Type) {
        lemma_type_numbers(children@[i as int], f, id)
    } else {
        lemma_no_numbers(id);
    }
}

#[verifier::rlimit(40)]
proof fn lemma_call(t: Tree, f: FileId, id: u32)
    ensures
        low_call(t, f, id) matches Some(r) ==> numbered_from(
            ids_expr(r.value),
            id,
            numbers_of_call(t),
            r.next,
        ),
    decreases t, 0nat,
{
    if t.children@.len() > 0 {
        lemma_turbofish(t.children, 1, f, id);
        let a = numbers_of_turbofish(t.children, 1);
        if let Some(generics) = low_turbofish(t.children, 1, f, id) {
            let i: nat = if is_at(t.children, 1, Rule::Turbofish) {
                2
            } else {
                1
            };
            lemma_args_at(t.children, i, f, generics.next);
            let b = numbers_of_args_at(t.children, i);
            if let Some(args) = low_args_at(t.children, i, f, generics.next) {
                lemma_join(
                    ids_generics(generics.value, generics.value.len()),
                    id,
                    a,
                    generics.next,
                    ids_exprs(args.value.args, args.value.args.len()),
                    b,
                    args.next,
                );
                lemma_expr_node(
                    ExprKindV::Call(
                        texts_of(t.children@[0].children, 0),
                        generics.value,
                        args.value.args,
                        args.value.attrs,
                    ),
                    span_of(t, f),
                    id,
                    a + b,
                    args.next,
                );
            }
        }
    }
}

proof fn lemma_turbofish(children: Vec<Tree>, i: nat, f: FileId, id: u32)
    ensures
        low_turbofish(children, i, f, id) matches Some(r) ==> numbered_from(
            ids_generics(r.value, r.value.len()),
            id,
            numbers_of_turbofish(children, i),
            r.next,
        ),
    decreases children, children@.len() + 1,
{
    if is_at(children, i as int, Rule::Turbofish) {
        lemma_generic_args(
            children@[i as int].children,
            0,
            children@[i as int].children@.len(),
            f,
            id,
        )
    } else {
        lemma_no_numbers(id);
    }
}

proof fn lemma_generic_args(children: Vec<Tree>, from: nat, k: nat, f: FileId, id: u32)
    ensures
        low_generic_args(children, from, k, f, id) matches Some(r) ==> numbered_from(
            ids_generics(r.value, r.value.len()),
            id,
            numbers_of_generic_args(children, from, k),
            r.next,
        ),
    decreases children, k,
{
    if k <= from || k > children@.len() {
        lemma_no_numbers(id);
    } else {
        lemma_generic_args(children, from, (k - 1) as nat, f, id);
        let a = numbers_of_generic_args(children, from, (k - 1) as nat);
        if let Some(before) = low_generic_args(children, from, (k - 1) as nat, f, id) {
            lemma_generic_arg(children@[k - 1], f, before.next);
            let b = numbers_of_generic_arg(children@[k - 1]);
            if let Some(g) = low_generic_arg(children@[k - 1], f, before.next) {
                lemma_push_generics(before.value, g.value);
                lemma_join(
                    ids_generics(before.value, before.value.len()),
                    id,
                    a,
                    before.next,
                    ids_generic(g.value),
                    b,
                    g.next,
                );
            }
        }
    }
}

proof fn lemma_generic_arg(t: Tree, f: FileId, id: u32)
    ensures
        low_generic_arg(t, f, id) matches Some(r) ==> numbered_from(
            ids_generic(r.value),
            id,
            numbers_of_generic_arg(t),
            r.next,
        ),
    decreases t, 0nat,
{
    if is_at(t.children, 0, Rule::Type) {
        lemma_type_numbers(t.children@[0], f, id)
    } else if is_at(t.children, 0, Rule::NumericLit) {
        lemma_numeric(t.children@[0], f, id);
    } else if is_at(t.children, 0, Rule::BoolLit) {
        lemma_bool(t.children@[0], f, id);
    }
}

/// The construction of a struct from generics and fields.
proof fn lemma_struct_node(
    path: Seq<Seq<char>>,
    generics: LowV<Seq<GenericArgV>>,
    inits: LowV<Seq<(Seq<char>, ExprV)>>,
    span: Span,
    id: u32,
    a: nat,
    b: nat,
)
    requires
        numbered_from(
            ids_generics(generics.value, generics.value.len()),
            id,
            a,
            generics.next,
        ),
        numbered_from(
            ids_inits(inits.value, inits.value.len()),
            generics.next,
            b,
            inits.next,
        ),
    ensures
        ({
            let kind = ExprKindV::StructLit(path, generics.value, inits.value);
            let r = expr_node(kind, span, inits.next);
            numbered_from(ids_expr(r.value), id, a + b + 1, r.next)
        }),
{
    lemma_join(
        ids_generics(generics.value, generics.value.len()),
        id,
        a,
        generics.next,
        ids_inits(inits.value, inits.value.len()),
        b,
        inits.next,
    );
    lemma_expr_node(
        ExprKindV::StructLit(path, generics.value, inits.value),
        span,
        id,
        a + b,
        inits.next,
    );
}

#[verifier::rlimit(40)]
proof fn lemma_struct_lit(t: Tree, f: FileId, id: u32)
    ensures
        low_struct_lit(t, f, id) matches Some(r) ==> numbered_from(
            ids_expr(r.value),
            id,
            numbers_of_struct_lit(t),
            r.next,
        ),
    decreases t, 0nat,
{
    if t.children@.len() > 0 {
        lemma_turbofish(t.children, 1, f, id);
        let a = numbers_of_turbofish(t.children, 1);
        if let Some(generics) = low_turbofish(t.children, 1, f, id) {
            let i: int = if is_at(t.children, 1, Rule::Turbofish) {
                2
            } else {
                1
            };
            let path = texts_of(t.children@[0].children, 0);
            if i < t.children@.len() {
                let parts = t.children@[i].children;
                lemma_inits(parts, parts@.len(), f, generics.next);
                let b = numbers_of_inits(parts, parts@.len());
                if let Some(inits) = low_inits(parts, parts@.len(), f, generics.next) {
                    lemma_struct_node(path, generics, inits, span_of(t, f), id, a, b);
                }
            } else {
                let none = LowV { value: Seq::empty(), next: generics.next };
                lemma_no_numbers(generics.next);
                lemma_struct_node(path, generics, none, span_of(t, f), id, a, 0);
            }
        }
    }
}

proof fn lemma_inits(children: Vec<Tree>, k: nat, f: FileId, id: u32)
    ensures
        low_inits(children, k, f, id) matches Some(r) ==> numbered_from(
            ids_inits(r.value, r.value.len()),
            id,
            numbers_of_inits(children, k),
            r.next,
        ),
    decreases children, k,
{
    if k == 0 || k > children@.len() {
        lemma_no_numbers(id);
    } else {
        lemma_inits(children, (k - 1) as nat, f, id);
        let a = numbers_of_inits(children, (k - 1) as nat);
        if let Some(before) = low_inits(children, (k - 1) as nat, f, id) {
            let init = children@[k - 1];
            if init.children@.len() >= 2 {
                lemma_expr_numbers(init.children@[1], f, before.next);
                let b = numbers_of_expr(init.children@[1]);
                if let Some(e) = low_expr(init.children@[1], f, before.next) {
                    lemma_push_inits(before.value, (init.children@[0].text@, e.value));
                    lemma_join(
                        ids_inits(before.value, before.value.len()),
                        id,
                        a,
                        before.next,
                        ids_expr(e.value),
                        b,
                        e.next,
                    );
                }
            }
        }
    }
}

proof fn lemma_numbered(items: Seq<ExprV>, k: nat)
    requires
        k <= items.len(),
    ensures
        ids_inits(numbered(items), k) == ids_exprs(items, k),
    decreases k,
{
    if k > 0 {
        lemma_numbered(items, (k - 1) as nat);
    }
}

proof fn lemma_tuple_lit(t: Tree, f: FileId, id: u32)
    ensures
        low_tuple_lit(t, f, id) matches Some(r) ==> numbered_from(
            ids_expr(r.value),
            id,
            numbers_of_tuple_lit(t),
            r.next,
        ),
    decreases t, 0nat,
{
    lemma_exprs(t.children, 0, t.children@.len(), f, id);
    let a = numbers_of_exprs(t.children, 0, t.children@.len());
    if let Some(items) = low_exprs(t.children, 0, t.children@.len(), f, id) {
        let kind = ExprKindV::StructLit(
            seq![crate::ast::tuple_name(items.value.len())],
            Seq::empty(),
            numbered(items.value),
        );
        lemma_numbered(items.value, items.value.len());
        assert(ids_kind(kind) =~= ids_exprs(items.value, items.value.len()));
        lemma_expr_node(kind, span_of(t, f), id, a, items.next);
    }
}

#[verifier::rlimit(40)]
proof fn lemma_if(t: Tree, f: FileId, id: u32)
    ensures
        low_if(t, f, id) matches Some(r) ==> numbered_from(
            ids_expr(r.value),
            id,
            numbers_of_if(t),
            r.next,
        ),
    decreases t, 0nat,
{
    if t.children@.len() >= 2 {
        lemma_expr_numbers(t.children@[0], f, id);
        let a = numbers_of_expr(t.children@[0]);
        if let Some(cond) = low_expr(t.children@[0], f, id) {
            lemma_block_numbers(t.children@[1], f, cond.next);
            let b = numbers_of_block(t.children@[1]);
            if let Some(then_branch) = low_block(t.children@[1], f, cond.next) {
                lemma_else(t.children, f, then_branch.next);
                let c = numbers_of_else(t.children);
                if let Some(else_branch) = low_else(t.children, f, then_branch.next) {
                    let x = ids_expr(cond.value);
                    let y = ids_block(then_branch.value);
                    let z = ids_else(else_branch.value);
                    lemma_join(x, id, a, cond.next, y, b, then_branch.next);
                    lemma_join(
                        x + y,
                        id,
                        a + b,
                        then_branch.next,
                        z,
                        c,
                        else_branch.next,
                    );
                    lemma_expr_node(
                        ExprKindV::If {
                            cond: Box::new(cond.value),
                            then_branch: then_branch.value,
                            else_branch: else_branch.value,
                        },
                        span_of(t, f),
                        id,
                        a + b + c,
                        else_branch.next,
                    );
                }
            }
        }
    }
}

proof fn lemma_else(children: Vec<Tree>, f: FileId, id: u32)
    ensures
        low_else(children, f, id) matches Some(r) ==> numbered_from(
            ids_else(r.value),
            id,
            numbers_of_else(children),
            r.next,
        ),
    decreases children, children@.len() + 1,
{
    if children@.len() <= 2 {
        lemma_no_numbers(id);
    } else if children@[2].rule == Rule::IfExpr {
        lemma_if(children@[2], f, id)
    } else if children@[2].rule == Rule::Block {
        lemma_block_numbers(children@[2], f, id)
    }
}

proof fn lemma_while(t: Tree, f: FileId, id: u32)
    ensures
        low_while(t, f, id) matches Some(r) ==> numbered_from(
            ids_expr(r.value),
            id,
            numbers_of_while(t),
            r.next,
        ),
    decreases t, 0nat,
{
    if t.children@.len() >= 2 {
        lemma_expr_numbers(t.children@[0], f, id);
        let a = numbers_of_expr(t.children@[0]);
        if let Some(cond) = low_expr(t.children@[0], f, id) {
            lemma_block_numbers(t.children@[1], f, cond.next);
            let b = numbers_of_block(t.children@[1]);
            if let Some(body) = low_block(t.children@[1], f, cond.next) {
                lemma_join(
                    ids_expr(cond.value),
                    id,
                    a,
                    cond.next,
                    ids_block(body.value),
                    b,
                    body.next,
                );
                lemma_expr_node(
                    ExprKindV::While { cond: Box::new(cond.value), body: body.value },
                    span_of(t, f),
                    id,
                    a + b,
                    body.next,
                );
            }
        }
    }
}

proof fn lemma_loop(t: Tree, f: FileId, id: u32)
    ensures
        low_loop(t, f, id) matches Some(r) ==> numbered_from(
            ids_expr(r.value),
            id,
            numbers_of_loop(t),
            r.next,
        ),
    decreases t, 0nat,
{
    if t.children@.len() > 0 {
        lemma_block_numbers(t.children@[0], f, id);
        let a = numbers_of_block(t.children@[0]);
        if let Some(body) = low_block(t.children@[0], f, id) {
            lemma_expr_node(
                ExprKindV::Loop { body: body.value },
                span_of(t, f),
                id,
                a,
                body.next,
            );
        }
    }
}

#[verifier::rlimit(40)]
proof fn lemma_for(t: Tree, f: FileId, id: u32)
    ensures
        low_for(t, f, id) matches Some(r) ==> numbered_from(
            ids_expr(r.value),
            id,
            numbers_of_for(t),
            r.next,
        ),
    decreases t, 0nat,
{
    if t.children@.len() >= 3 {
        let var = t.children@[0].text@;
        lemma_binary(t.children@[1], ADDITIVE_LEVEL as nat, f, id);
        let a = numbers_of_binary(t.children@[1], ADDITIVE_LEVEL as nat);
        if let Some(first) = low_binary(t.children@[1], ADDITIVE_LEVEL as nat, f, id) {
            if t.children@[2].rule == Rule::Additive {
                lemma_binary(t.children@[2], ADDITIVE_LEVEL as nat, f, first.next);
                let b = numbers_of_binary(t.children@[2], ADDITIVE_LEVEL as nat);
                if let Some(end) = low_binary(t.children@[2], ADDITIVE_LEVEL as nat, f, first.next) {
                    if t.children@.len() >= 4 {
                        lemma_block_numbers(t.children@[3], f, end.next);
                        let c = numbers_of_block(t.children@[3]);
                        if let Some(body) = low_block(t.children@[3], f, end.next) {
                            let x = ids_expr(first.value);
                            let y = ids_expr(end.value);
                            let z = ids_block(body.value);
                            lemma_join(x, id, a, first.next, y, b, end.next);
                            lemma_join(x + y, id, a + b, end.next, z, c, body.next);
                            lemma_expr_node(
                                ExprKindV::For {
                                    var,
                                    start: Box::new(first.value),
                                    end: Box::new(end.value),
                                    body: body.value,
                                },
                                span_of(t, f),
                                id,
                                a + b + c,
                                body.next,
                            );
                        }
                    }
                }
            } else {
                lemma_block_numbers(t.children@[2], f, first.next);
                let b = numbers_of_block(t.children@[2]);
                if let Some(body) = low_block(t.children@[2], f, first.next) {
                    lemma_join(
                        ids_expr(first.value),
                        id,
                        a,
                        first.next,
                        ids_block(body.value),
                        b,
                        body.next,
                    );
                    lemma_expr_node(
                        ExprKindV::ForIn {
                            var,
                            iter: Box::new(first.value),
                            body: body.value,
                        },
                        span_of(t, f),
                        id,
                        a + b,
                        body.next,
                    );
                }
            }
        }
    }
}

proof fn lemma_copies(t: Tree, k: nat, f: FileId, id: u32)
    ensures
        low_copies(t, k, f, id) matches Some(r) ==> numbered_from(
            ids_exprs(r.value, r.value.len()),
            id,
            k * numbers_of_expr(t),
            r.next,
        ),
    decreases t, k,
{
    if k == 0 {
        lemma_no_numbers(id);
    } else {
        lemma_copies(t, (k - 1) as nat, f, id);
        let a = (k - 1) as nat * numbers_of_expr(t);
        if let Some(before) = low_copies(t, (k - 1) as nat, f, id) {
            lemma_expr_numbers(t, f, before.next);
            let b = numbers_of_expr(t);
            if let Some(e) = low_expr(t, f, before.next) {
                lemma_one_more(before.value, id, a, before.next, e.value, b, e.next);
                assert(a + b == k * b) by (nonlinear_arith)
                    requires
                        k > 0,
                        a == (k - 1) * b,
                ;
            }
        }
    }
}

#[verifier::rlimit(40)]
proof fn lemma_array_lit(t: Tree, f: FileId, id: u32)
    ensures
        low_array_lit(t, f, id) matches Some(r) ==> numbered_from(
            ids_expr(r.value),
            id,
            numbers_of_array_lit(t),
            r.next,
        ),
    decreases t, 0nat,
{
    let span = span_of(t, f);
    if t.children@.len() == 0 {
        lemma_leaf(ExprKindV::ArrayLit(Seq::empty()), span, id);
    } else {
        let body = t.children@[0];
        if body.rule == Rule::ArrayList {
            lemma_exprs(body.children, 0, body.children@.len(), f, id);
            let a = numbers_of_exprs(body.children, 0, body.children@.len());
            if let Some(items) = low_exprs(body.children, 0, body.children@.len(), f, id) {
                lemma_expr_node(ExprKindV::ArrayLit(items.value), span, id, a, items.next);
            }
        } else if body.rule == Rule::ArrayRepeat && body.children@.len() >= 2 {
            let count = body.children@[1];
            if count.rule == Rule::NumericLit {
                if let Some(k) = copies(count.text@) {
                    lemma_copies(body.children@[0], k as nat, f, id);
                    let a = k as nat * numbers_of_expr(body.children@[0]);
                    if let Some(items) = low_copies(body.children@[0], k as nat, f, id) {
                        lemma_expr_node(
                            ExprKindV::ArrayLit(items.value),
                            span,
                            id,
                            a,
                            items.next,
                        );
                    }
                }
            } else {
                lemma_expr_numbers(body.children@[0], f, id);
                let a = numbers_of_expr(body.children@[0]);
                if let Some(value) = low_expr(body.children@[0], f, id) {
                    if let Some(c) = low_count(count, f, value.next) {
                        lemma_count(count, f, value.next);
                        lemma_join(
                            ids_expr(value.value),
                            id,
                            a,
                            value.next,
                            ids_expr(c.value),
                            1,
                            c.next,
                        );
                        lemma_expr_node(
                            ExprKindV::ArrayRepeat {
                                value: Box::new(value.value),
                                count: Box::new(c.value),
                            },
                            span,
                            id,
                            a + 1,
                            c.next,
                        );
                    }
                }
            }
        }
    }
}

proof fn lemma_count(t: Tree, f: FileId, id: u32)
    ensures
        low_count(t, f, id) matches Some(r) ==> numbered_from(
            ids_expr(r.value),
            id,
            1,
            r.next,
        ),
{
    if t.rule == Rule::Ident {
        lemma_leaf(ExprKindV::Path(seq![t.text@]), span_of(t, f), id);
    } else if t.rule == Rule::PackRef && t.children@.len() > 0 {
        lemma_leaf(ExprKindV::PackRef(t.children@[0].text@), span_of(t, f), id);
    }
}

proof fn lemma_literal(t: Tree, f: FileId, id: u32)
    ensures
        low_literal(t, f, id) matches Some(r) ==> numbered_from(
            ids_expr(r.value),
            id,
            numbers_of_literal(t),
            r.next,
        ),
{
    if t.children@.len() > 0 {
        let inner = t.children@[0];
        match inner.rule {
            Rule::ImaginaryLit => {
                if inner.text@.len() > 0 {
                    lemma_leaf(
                        ExprKindV::ImaginaryLit { text: inner.text@.drop_last(), suffix: None },
                        span_of(inner, f),
                        id,
                    );
                }
            },
            Rule::NumericLit => {
                lemma_numeric(inner, f, id);
            },
            Rule::BoolLit => {
                lemma_bool(inner, f, id);
            },
            Rule::StringLit => {
                if inner.text@.len() >= 2 {
                    let bytes = vstd::utf8::encode_utf8(unquoted(inner.text@));
                    lemma_bytes(bytes, bytes.len(), span_of(inner, f), id);
                    let items = low_bytes(bytes, bytes.len(), span_of(inner, f), id);
                    lemma_expr_node(
                        ExprKindV::ArrayLit(items.value),
                        span_of(inner, f),
                        id,
                        bytes.len(),
                        items.next,
                    );
                }
            },
            _ => {},
        }
    }
}

proof fn lemma_numeric(t: Tree, f: FileId, id: u32)
    ensures
        numbered_from(
            ids_expr(low_numeric(t, f, id).value),
            id,
            1,
            low_numeric(t, f, id).next,
        ),
{
    lemma_leaf(low_numeric(t, f, id).value.kind, span_of(t, f), id);
}

proof fn lemma_bool(t: Tree, f: FileId, id: u32)
    ensures
        numbered_from(ids_expr(low_bool(t, f, id).value), id, 1, low_bool(t, f, id).next),
{
    lemma_leaf(low_bool(t, f, id).value.kind, span_of(t, f), id);
}

proof fn lemma_bytes(bytes: Seq<u8>, k: nat, span: Span, id: u32)
    requires
        k <= bytes.len(),
    ensures
        low_bytes(bytes, k, span, id).value.len() == k,
        numbered_from(
            ids_exprs(low_bytes(bytes, k, span, id).value, k),
            id,
            k,
            low_bytes(bytes, k, span, id).next,
        ),
    decreases k,
{
    if k == 0 {
        lemma_no_numbers(id);
    } else {
        lemma_bytes(bytes, (k - 1) as nat, span, id);
        let before = low_bytes(bytes, (k - 1) as nat, span, id);
        let kind = ExprKindV::NumberLit {
            text: crate::text::decimal(bytes[k - 1] as nat),
            suffix: Some("i8"@),
        };
        let e = expr_node(kind, span, before.next);
        lemma_leaf(kind, span, before.next);
        lemma_one_more(before.value, id, (k - 1) as nat, before.next, e.value, 1, e.next);
    }
}

// ---- types ----

/// How many numbers a type takes; each of its nodes has one of its own.
pub proof fn lemma_type_numbers(t: Tree, f: FileId, id: u32)
    ensures
        low_type(t, f, id) matches Some(r) ==> numbered_from(
            ids_type(r.value),
            id,
            numbers_of_type(t),
            r.next,
        ),
    decreases t, 0nat,
{
    if t.children@.len() > 0 {
        let first = t.children@[0];
        match first.rule {
            Rule::ArrayType => lemma_array_type(first, f, id),
            Rule::FnType => lemma_fn_type(first, f, id),
            Rule::TupleType => lemma_tuple_type(first, f, id),
            Rule::PackRef => {
                if first.children@.len() > 0 {
                    lemma_no_numbers(id);
                    lemma_node(Seq::empty(), id, 0, id);
                }
            },
            Rule::Path => {
                lemma_generic_args(t.children, 1, t.children@.len(), f, id);
                let a = numbers_of_generic_args(t.children, 1, t.children@.len());
                if let Some(args) = low_generic_args(t.children, 1, t.children@.len(), f, id) {
                    lemma_list_type_node(
                        texts_of(first.children, 0),
                        args.value,
                        span_of(t, f),
                        id,
                        a,
                        args.next,
                    );
                }
            },
            _ => {},
        }
    }
}

proof fn lemma_types(children: Vec<Tree>, k: nat, f: FileId, id: u32)
    ensures
        low_types(children, k, f, id) matches Some(r) ==> numbered_from(
            ids_types(r.value, r.value.len()),
            id,
            numbers_of_types(children, k),
            r.next,
        ),
    decreases children, k,
{
    if k == 0 || k > children@.len() {
        lemma_no_numbers(id);
    } else {
        lemma_types(children, (k - 1) as nat, f, id);
        let a = numbers_of_types(children, (k - 1) as nat);
        if let Some(before) = low_types(children, (k - 1) as nat, f, id) {
            lemma_type_numbers(children@[k - 1], f, before.next);
            let b = numbers_of_type(children@[k - 1]);
            if let Some(ty) = low_type(children@[k - 1], f, before.next) {
                lemma_push_types(before.value, ty.value);
                lemma_join(
                    ids_types(before.value, before.value.len()),
                    id,
                    a,
                    before.next,
                    ids_type(ty.value),
                    b,
                    ty.next,
                );
            }
        }
    }
}

proof fn lemma_fn_type(t: Tree, f: FileId, id: u32)
    ensures
        low_fn_type(t, f, id) matches Some(r) ==> numbered_from(
            ids_type(r.value),
            id,
            numbers_of_types(t.children, t.children@.len()) + 1,
            r.next,
        ),
    decreases t, 0nat,
{
    lemma_types(t.children, t.children@.len(), f, id);
    let a = numbers_of_types(t.children, t.children@.len());
    if let Some(types) = low_types(t.children, t.children@.len(), f, id) {
        if types.value.len() > 0 {
            let most = types.value.drop_last();
            assert(types.value =~= most.push(types.value.last()));
            lemma_push_types(most, types.value.last());
            lemma_node(ids_types(types.value, types.value.len()), id, a, types.next);
        }
    }
}

proof fn lemma_type_args(types: Seq<TypeV>, k: nat)
    requires
        k <= types.len(),
    ensures
        ids_generics(type_args(types), k) == ids_types(types, k),
    decreases k,
{
    if k > 0 {
        lemma_type_args(types, (k - 1) as nat);
        assert(ids_generic(type_args(types)[k - 1]) == ids_type(types[k - 1]));
    }
}

proof fn lemma_tuple_type(t: Tree, f: FileId, id: u32)
    ensures
        low_tuple_type(t, f, id) matches Some(r) ==> numbered_from(
            ids_type(r.value),
            id,
            numbers_of_types(t.children, t.children@.len()) + 1,
            r.next,
        ),
    decreases t, 0nat,
{
    lemma_types(t.children, t.children@.len(), f, id);
    let a = numbers_of_types(t.children, t.children@.len());
    if let Some(types) = low_types(t.children, t.children@.len(), f, id) {
        lemma_type_args(types.value, types.value.len());
        lemma_list_type_node(
            seq![crate::ast::tuple_name(types.value.len())],
            type_args(types.value),
            span_of(t, f),
            id,
            a,
            types.next,
        );
    }
}

proof fn lemma_array_type(t: Tree, f: FileId, id: u32)
    ensures
        low_array_type(t, f, id) matches Some(r) ==> numbered_from(
            ids_type(r.value),
            id,
            numbers_of_array_type(t),
            r.next,
        ),
    decreases t, 0nat,
{
    if t.children@.len() > 0 {
        lemma_type_numbers(t.children@[0], f, id);
        let a = numbers_of_type(t.children@[0]);
        if let Some(elem) = low_type(t.children@[0], f, id) {
            lemma_dims(t.children, t.children@.len(), f, elem.next);
            let b = numbers_of_dims(t.children, t.children@.len());
            if let Some(dims) = low_dims(t.children, t.children@.len(), f, elem.next) {
                lemma_join(
                    ids_type(elem.value),
                    id,
                    a,
                    elem.next,
                    ids_exprs(dims.value, dims.value.len()),
                    b,
                    dims.next,
                );
                lemma_dims_len(t.children, t.children@.len(), f, elem.next);
                lemma_nested(
                    elem.value,
                    dims.value,
                    span_of(t, f),
                    id,
                    a + b,
                    dims.next,
                );
            }
        }
    }
}

/// There is a size for each part but the first.
proof fn lemma_dims_len(children: Vec<Tree>, k: nat, f: FileId, id: u32)
    requires
        0 < k <= children@.len(),
    ensures
        low_dims(children, k, f, id) matches Some(r) ==> r.value.len() == k - 1,
    decreases k,
{
    if k > 1 {
        lemma_dims_len(children, (k - 1) as nat, f, id);
    }
}

proof fn lemma_nested(elem: TypeV, dims: Seq<ExprV>, span: Span, id: u32, n: nat, mid: u32)
    requires
        numbered_from(ids_type(elem) + ids_exprs(dims, dims.len()), id, n, mid),
    ensures
        numbered_from(
            ids_type(nested_type(elem, dims, span, mid).value),
            id,
            n + dims.len(),
            nested_type(elem, dims, span, mid).next,
        ),
    decreases dims.len(),
{
    if dims.len() == 0 {
        assert(ids_type(elem) + ids_exprs(dims, 0) =~= ids_type(elem));
    } else {
        let most = dims.drop_last();
        let last = dims.last();
        let kind = TypeKindV::Array(Box::new(elem), Box::new(last));
        let inner = type_node(kind, span, mid);
        let e = ids_type(elem);
        let m = ids_exprs(most, most.len());
        let l = ids_expr(last);
        assert(dims =~= most.push(last));
        lemma_push_exprs(most, last);
        lemma_exchange(e, m, l, id, n, mid);
        lemma_node((e + l) + m, id, n, mid);
        assert(seq![mid] + ((e + l) + m) =~= ids_type(inner.value) + m);
        lemma_nested(inner.value, most, span, id, n + 1, inner.next);
    }
}

proof fn lemma_dims(children: Vec<Tree>, k: nat, f: FileId, id: u32)
    ensures
        low_dims(children, k, f, id) matches Some(r) ==> numbered_from(
            ids_exprs(r.value, r.value.len()),
            id,
            numbers_of_dims(children, k),
            r.next,
        ),
    decreases children, k,
{
    if k <= 1 || k > children@.len() {
        lemma_no_numbers(id);
    } else {
        lemma_dims(children, (k - 1) as nat, f, id);
        let a = numbers_of_dims(children, (k - 1) as nat);
        if let Some(before) = low_dims(children, (k - 1) as nat, f, id) {
            lemma_dim(children@[k - 1], f, before.next);
            let b = numbers_of_dim(children@[k - 1]);
            if let Some(dim) = low_dim(children@[k - 1], f, before.next) {
                lemma_one_more(before.value, id, a, before.next, dim.value, b, dim.next);
            }
        }
    }
}

proof fn lemma_dim(t: Tree, f: FileId, id: u32)
    ensures
        low_dim(t, f, id) matches Some(r) ==> numbered_from(
            ids_expr(r.value),
            id,
            numbers_of_dim(t),
            r.next,
        ),
    decreases t, 0nat,
{
    if t.children@.len() > 0 {
        lemma_expr_numbers(t.children@[0], f, id);
        let a = numbers_of_expr(t.children@[0]);
        if let Some(e) = low_expr(t.children@[0], f, id) {
            if is_at(t.children, 1, Rule::PackMarker) {
                if let ExprKindV::Path(segments) = e.value.kind {
                    let kind = ExprKindV::PackRef(crate::text::joined(segments, "::"@));
                    lemma_leave_out(ids_expr(e.value), Seq::empty(), id, a, e.next);
                    assert(ids_expr(e.value) + Seq::<u32>::empty() =~= ids_expr(e.value));
                    lemma_leave_out(Seq::empty(), ids_expr(e.value), id, a, e.next);
                    assert(numbered_from(Seq::empty(), id, a, e.next));
                    lemma_expr_node(kind, span_of(t, f), id, a, e.next);
                }
            }
        }
    }
}

// ---- blocks and statements ----

/// How many numbers a block takes; each of its nodes has one of its own.
pub proof fn lemma_block_numbers(t: Tree, f: FileId, id: u32)
    ensures
        low_block(t, f, id) matches Some(r) ==> numbered_from(
            ids_block(r.value),
            id,
            numbers_of_block(t),
            r.next,
        ),
    decreases t, 0nat,
{
    lemma_block_parts(t.children, t.children@.len(), f, id)
}

/// The numbers of the value that a block has.
spec fn ids_tail(b: BlockV) -> Seq<u32> {
    match b.tail {
        None => Seq::empty(),
        Some(e) => ids_expr(*e),
    }
}

proof fn lemma_block_parts(children: Vec<Tree>, k: nat, f: FileId, id: u32)
    ensures
        low_block_parts(children, k, f, id) matches Some(r) ==> numbered_from(
            ids_block(r.value),
            id,
            numbers_of_block_parts(children, k),
            r.next,
        ),
    decreases children, k,
{
    if k == 0 || k > children@.len() {
        lemma_no_numbers(id);
        let b = BlockV { stmts: Seq::empty(), tail: None };
        assert(ids_block(b) =~= Seq::<u32>::empty());
    } else {
        lemma_block_parts(children, (k - 1) as nat, f, id);
        let a = numbers_of_block_parts(children, (k - 1) as nat);
        if let Some(before) = low_block_parts(children, (k - 1) as nat, f, id) {
            let stmts = ids_stmts(before.value.stmts, before.value.stmts.len());
            let tail = ids_tail(before.value);
            if children@[k - 1].rule == Rule::Stmt {
                lemma_stmt(children@[k - 1], f, before.next);
                let b = numbers_of_stmt(children@[k - 1]);
                if let Some(s) = low_stmt(children@[k - 1], f, before.next) {
                    let now = BlockV {
                        stmts: before.value.stmts.push(s.value),
                        tail: before.value.tail,
                    };
                    lemma_push_stmts(before.value.stmts, s.value);
                    lemma_join(
                        stmts + tail,
                        id,
                        a,
                        before.next,
                        ids_stmt(s.value),
                        b,
                        s.next,
                    );
                    assert(stmts + tail + ids_stmt(s.value) =~= stmts + (tail + ids_stmt(
                        s.value,
                    )));
                    lemma_exchange(stmts, tail, ids_stmt(s.value), id, a + b, s.next);
                    assert(ids_block(now) =~= (stmts + ids_stmt(s.value)) + tail);
                }
            } else if children@[k - 1].rule == Rule::Expr {
                lemma_expr_numbers(children@[k - 1], f, before.next);
                let b = numbers_of_expr(children@[k - 1]);
                if let Some(e) = low_expr(children@[k - 1], f, before.next) {
                    lemma_leave_out(stmts, tail, id, a, before.next);
                    lemma_join(stmts, id, a, before.next, ids_expr(e.value), b, e.next);
                }
            }
        }
    }
}

#[verifier::rlimit(40)]
proof fn lemma_stmt(t: Tree, f: FileId, id: u32)
    ensures
        low_stmt(t, f, id) matches Some(r) ==> numbered_from(
            ids_stmt(r.value),
            id,
            numbers_of_stmt(t),
            r.next,
        ),
    decreases t, 0nat,
{
    if t.children@.len() > 0 {
        let inner = t.children@[0];
        match inner.rule {
            Rule::LetStmt => {
                lemma_let(inner, f, id);
                let a = numbers_of_binding(inner.children, inner.children@.len(), true);
                if let Some(k) = low_let(inner, f, id) {
                    lemma_stmt_node(k.value, span_of(t, f), id, a, k.next);
                }
            },
            Rule::AssignStmt => {
                lemma_assign(inner, f, id);
                let a = numbers_of_assign(inner);
                if let Some(k) = low_assign(inner, f, id) {
                    lemma_stmt_node(k.value, span_of(t, f), id, a, k.next);
                }
            },
            Rule::BreakStmt => if inner.children@.len() == 0 {
                lemma_no_numbers(id);
                lemma_stmt_node(StmtKindV::Break(None), span_of(t, f), id, 0, id);
            } else {
                lemma_expr_numbers(inner.children@[0], f, id);
                let a = numbers_of_expr(inner.children@[0]);
                if let Some(e) = low_expr(inner.children@[0], f, id) {
                    lemma_stmt_node(
                        StmtKindV::Break(Some(e.value)),
                        span_of(t, f),
                        id,
                        a,
                        e.next,
                    );
                }
            },
            Rule::ExprStmt => if inner.children@.len() > 0 {
                lemma_expr_numbers(inner.children@[0], f, id);
                let a = numbers_of_expr(inner.children@[0]);
                if let Some(e) = low_expr(inner.children@[0], f, id) {
                    lemma_stmt_node(StmtKindV::Expr(e.value), span_of(t, f), id, a, e.next);
                }
            },
            _ => {},
        }
    }
}

/// The numbers of the parts of a binding.
spec fn ids_binding(b: BindingV) -> Seq<u32> {
    ids_opt_type(b.ty) + ids_opt_expr(b.value)
}

proof fn lemma_binding(
    children: Vec<Tree>,
    k: nat,
    with_value: bool,
    f: FileId,
    id: u32,
)
    ensures
        low_binding(children, k, with_value, f, id) matches Some(r) ==> numbered_from(
            ids_binding(r.value),
            id,
            numbers_of_binding(children, k, with_value),
            r.next,
        ),
    decreases children, k,
{
    if k == 0 || k > children@.len() {
        lemma_no_numbers(id);
        let b = BindingV { mutable: false, name: None, ty: None, value: None };
        assert(ids_binding(b) =~= Seq::<u32>::empty());
    } else {
        lemma_binding(children, (k - 1) as nat, with_value, f, id);
        let a = numbers_of_binding(children, (k - 1) as nat, with_value);
        if let Some(before) = low_binding(children, (k - 1) as nat, with_value, f, id) {
            let p = children@[k - 1];
            let ty = ids_opt_type(before.value.ty);
            let value = ids_opt_expr(before.value.value);
            match p.rule {
                Rule::Type => {
                    lemma_type_numbers(p, f, before.next);
                    let b = numbers_of_type(p);
                    if let Some(x) = low_type(p, f, before.next) {
                        lemma_leave_out(ty, value, id, a, before.next);
                        lemma_join(value, id, a, before.next, ids_type(x.value), b, x.next);
                    }
                },
                Rule::Expr => if with_value {
                    lemma_expr_numbers(p, f, before.next);
                    let b = numbers_of_expr(p);
                    if let Some(x) = low_expr(p, f, before.next) {
                        lemma_leave_out(ty, value, id, a, before.next);
                        lemma_join(ty, id, a, before.next, ids_expr(x.value), b, x.next);
                    }
                },
                _ => {},
            }
        }
    }
}

proof fn lemma_let(t: Tree, f: FileId, id: u32)
    ensures
        low_let(t, f, id) matches Some(r) ==> numbered_from(
            ids_stmt_kind(r.value),
            id,
            numbers_of_binding(t.children, t.children@.len(), true),
            r.next,
        ),
    decreases t, 0nat,
{
    lemma_binding(t.children, t.children@.len(), true, f, id)
}

proof fn lemma_assign(t: Tree, f: FileId, id: u32)
    ensures
        low_assign(t, f, id) matches Some(r) ==> numbered_from(
            ids_stmt_kind(r.value),
            id,
            numbers_of_assign(t),
            r.next,
        ),
    decreases t, 0nat,
{
    if t.children@.len() >= 2 {
        lemma_target(t.children@[0], f, id);
        let a = numbers_of_target(t.children@[0]);
        if let Some(target) = low_target(t.children@[0], f, id) {
            lemma_expr_numbers(t.children@[1], f, target.next);
            let b = numbers_of_expr(t.children@[1]);
            if let Some(value) = low_expr(t.children@[1], f, target.next) {
                lemma_join(
                    ids_expr(target.value),
                    id,
                    a,
                    target.next,
                    ids_expr(value.value),
                    b,
                    value.next,
                );
            }
        }
    }
}

proof fn lemma_target(t: Tree, f: FileId, id: u32)
    ensures
        low_target(t, f, id) matches Some(r) ==> numbered_from(
            ids_expr(r.value),
            id,
            numbers_of_target(t),
            r.next,
        ),
    decreases t, 0nat,
{
    if t.children@.len() > 0 {
        let ident = t.children@[0];
        let base = expr_node(ExprKindV::Path(seq![ident.text@]), span_of(ident, f), id);
        lemma_leaf(ExprKindV::Path(seq![ident.text@]), span_of(ident, f), id);
        lemma_ops(t.children, t.children@.len(), f, id, 1, base)
    }
}

proof fn lemma_params(children: Vec<Tree>, k: nat, f: FileId, id: u32)
    ensures
        low_params(children, k, f, id) matches Some(r) ==> numbered_from(
            ids_params(r.value, r.value.len()),
            id,
            numbers_of_params(children, k),
            r.next,
        ),
    decreases children, k,
{
    if k == 0 || k > children@.len() {
        lemma_no_numbers(id);
    } else {
        lemma_params(children, (k - 1) as nat, f, id);
        let a = numbers_of_params(children, (k - 1) as nat);
        if let Some(before) = low_params(children, (k - 1) as nat, f, id) {
            lemma_param(children@[k - 1], f, before.next);
            let b = numbers_of_param(children@[k - 1]);
            if let Some(p) = low_param(children@[k - 1], f, before.next) {
                lemma_push_params(before.value, p.value);
                lemma_join(
                    ids_params(before.value, before.value.len()),
                    id,
                    a,
                    before.next,
                    ids_param(p.value),
                    b,
                    p.next,
                );
            }
        }
    }
}

proof fn lemma_param(t: Tree, f: FileId, id: u32)
    ensures
        low_param(t, f, id) matches Some(r) ==> numbered_from(
            ids_param(r.value),
            id,
            numbers_of_param(t),
            r.next,
        ),
    decreases t, 0nat,
{
    lemma_binding(t.children, t.children@.len(), false, f, id);
    let a = numbers_of_binding(t.children, t.children@.len(), false);
    if let Some(b) = low_binding(t.children, t.children@.len(), false, f, id) {
        lemma_leave_out(ids_opt_type(b.value.ty), ids_opt_expr(b.value.value), id, a, b.next);
    }
}

} // verus!
