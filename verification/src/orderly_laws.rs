//! Code whose nodes have numbers of their own is in order, and so is every function of a
//! program that came of a file.

use vstd::prelude::*;

use crate::ast::{
    Block, ElseBranch, Expr, ExprKind, FileId, FnDecl, Item, ItemKind, Program, Stmt, StmtKind,
};
use crate::ast_views::{
    lemma_block, lemma_else_branch_block, lemma_else_branch_if, lemma_expr,
    lemma_expr_kind_array_lit, lemma_expr_kind_array_repeat, lemma_expr_kind_block,
    lemma_expr_kind_call, lemma_expr_kind_field_access, lemma_expr_kind_for,
    lemma_expr_kind_for_in, lemma_expr_kind_if, lemma_expr_kind_index, lemma_expr_kind_lambda,
    lemma_expr_kind_loop, lemma_expr_kind_method_call, lemma_expr_kind_struct_lit,
    lemma_expr_kind_while, lemma_stmt, lemma_stmt_kind_assign, lemma_stmt_kind_break,
    lemma_stmt_kind_expr, lemma_stmt_kind_let,
};
use crate::decl_views::{FnDeclV, ItemV};
use crate::infer_finish::numbered_fn;
use crate::lower_items::low_program;
use crate::node_counts::numbers_of_program;
use crate::node_ids::{
    ids_block, ids_else, ids_expr, ids_exprs, ids_generics, ids_inits, ids_kind, ids_opt_expr,
    ids_opt_type, ids_params, ids_stmt, ids_stmt_kind, ids_stmts, spread,
};
use crate::program_laws::{
    ids_fn, ids_fns, ids_generic_params, ids_item, ids_items, lemma_program_numbers,
};
use crate::table::views;
use crate::tree::Tree;
use crate::typing::{
    block_ids, field_ids_from, ids, ids_from, inner_ids, orderly, orderly_block,
    orderly_fields_from, orderly_from, orderly_stmt, orderly_stmts_from, orderly_within, stmt_ids,
    stmt_ids_from,
};

verus! {

// ---- lists of numbers ----

/// Whether two lists have no number in common.
spec fn apart(a: Seq<u32>, b: Seq<u32>) -> bool {
    forall|v: u32| a.contains(v) ==> !#[trigger] b.contains(v)
}

/// Whether all numbers of a set are in a list.
spec fn within(s: Set<u32>, q: Seq<u32>) -> bool {
    forall|v: u32| #[trigger] s.contains(v) ==> q.contains(v)
}

proof fn lemma_either(a: Seq<u32>, b: Seq<u32>)
    ensures
        forall|v: u32| #[trigger] (a + b).contains(v) <==> a.contains(v) || b.contains(v),
{
    assert forall|v: u32| #[trigger] (a + b).contains(v) <==> a.contains(v) || b.contains(v) by {
        if a.contains(v) {
            let i = a.index_of(v);
            assert((a + b)[i] == v);
        } else if b.contains(v) {
            let i = b.index_of(v);
            assert((a + b)[i + a.len()] == v);
        } else if (a + b).contains(v) {
            let i = (a + b).index_of(v);
            if i < a.len() {
                assert(a[i] == v);
            } else {
                assert(b[i - a.len()] == v);
            }
        }
    }
}

/// The parts of a list without repetition.
proof fn lemma_both(a: Seq<u32>, b: Seq<u32>)
    requires
        (a + b).no_duplicates(),
    ensures
        a.no_duplicates(),
        b.no_duplicates(),
        apart(a, b),
{
    let s = a + b;
    assert forall|i: int, j: int| 0 <= i < a.len() && 0 <= j < a.len() && i != j implies a[i]
        != a[j] by {
        assert(s[i] == a[i] && s[j] == a[j]);
    }
    assert forall|i: int, j: int| 0 <= i < b.len() && 0 <= j < b.len() && i != j implies b[i]
        != b[j] by {
        assert(s[i + a.len()] == b[i] && s[j + a.len()] == b[j]);
    }
    assert forall|v: u32| a.contains(v) implies !#[trigger] b.contains(v) by {
        if b.contains(v) {
            let i = a.index_of(v);
            let j = b.index_of(v);
            assert(s[i] == v && s[j + a.len()] == v);
        }
    }
}

/// Sets within lists that are apart have nothing in common.
proof fn lemma_disjoint(s: Set<u32>, a: Seq<u32>, t: Set<u32>, b: Seq<u32>)
    requires
        within(s, a),
        within(t, b),
        apart(a, b),
    ensures
        s.disjoint(t),
{
    assert forall|v: u32| s.contains(v) implies !t.contains(v) by {
        if t.contains(v) {
            assert(a.contains(v) && b.contains(v));
        }
    }
}

/// The first `n` lists put together.
spec fn put_together(qs: Seq<Seq<u32>>, n: nat) -> Seq<u32>
    decreases n,
{
    if n == 0 || n > qs.len() {
        Seq::empty()
    } else {
        put_together(qs, (n - 1) as nat) + qs[n - 1]
    }
}

/// What is in one of the lists is in all of them put together.
proof fn lemma_one_of(qs: Seq<Seq<u32>>, n: nat, k: int)
    requires
        0 <= k < n <= qs.len(),
    ensures
        forall|v: u32| #[trigger] qs[k].contains(v) ==> put_together(qs, n).contains(v),
    decreases n,
{
    lemma_either(put_together(qs, (n - 1) as nat), qs[n - 1]);
    if k < n - 1 {
        lemma_one_of(qs, (n - 1) as nat, k);
    }
}

/// Lists that make one without repetition have none, and have nothing in common.
proof fn lemma_parts_apart(qs: Seq<Seq<u32>>, n: nat, j: int, k: int)
    requires
        n <= qs.len(),
        put_together(qs, n).no_duplicates(),
        0 <= j < n,
    ensures
        qs[j].no_duplicates(),
        j < k < n ==> apart(qs[j], qs[k]),
    decreases n,
{
    let before = put_together(qs, (n - 1) as nat);
    lemma_both(before, qs[n - 1]);
    if j < n - 1 {
        lemma_parts_apart(qs, (n - 1) as nat, j, k);
        if k == n - 1 {
            lemma_one_of(qs, (n - 1) as nat, j);
            assert forall|v: u32| qs[j].contains(v) implies !#[trigger] qs[k].contains(v) by {
                assert(before.contains(v));
            }
        }
    }
}

/// The numbers of each expression of a list.
spec fn each_expr(es: Vec<Expr>) -> Seq<Seq<u32>> {
    Seq::new(es@.len(), |i: int| ids_expr(es@[i]@))
}

/// The numbers of each field of a list.
spec fn each_field(fields: Vec<(String, Expr)>) -> Seq<Seq<u32>> {
    Seq::new(fields@.len(), |i: int| ids_expr(fields@[i].1@))
}

/// The numbers of each statement of a list.
spec fn each_stmt(stmts: Vec<Stmt>) -> Seq<Seq<u32>> {
    Seq::new(stmts@.len(), |i: int| ids_stmt(stmts@[i]@))
}

proof fn lemma_each_expr(es: Vec<Expr>, n: nat)
    requires
        n <= es@.len(),
    ensures
        ids_exprs(views(es@), n) == put_together(each_expr(es), n),
    decreases n,
{
    if n > 0 {
        lemma_each_expr(es, (n - 1) as nat);
    }
}

proof fn lemma_each_field(fields: Vec<(String, Expr)>, n: nat)
    requires
        n <= fields@.len(),
    ensures
        ids_inits(views(fields@), n) == put_together(each_field(fields), n),
    decreases n,
{
    if n > 0 {
        lemma_each_field(fields, (n - 1) as nat);
    }
}

proof fn lemma_each_stmt(stmts: Vec<Stmt>, n: nat)
    requires
        n <= stmts@.len(),
    ensures
        ids_stmts(views(stmts@), n) == put_together(each_stmt(stmts), n),
    decreases n,
{
    if n > 0 {
        lemma_each_stmt(stmts, (n - 1) as nat);
    }
}

// ---- the numbers of code are those of its nodes ----

/// Whether all numbers of a set are in one of the lists from the `i`th on.
spec fn within_from(s: Set<u32>, qs: Seq<Seq<u32>>, i: nat) -> bool {
    forall|v: u32| #[trigger] s.contains(v) ==> held_from(qs, i, v)
}

spec fn held_from(qs: Seq<Seq<u32>>, i: nat, v: u32) -> bool {
    exists|k: int| i <= k < qs.len() && (#[trigger] qs[k]).contains(v)
}

proof fn lemma_from_start(s: Set<u32>, qs: Seq<Seq<u32>>)
    requires
        within_from(s, qs, 0),
    ensures
        within(s, put_together(qs, qs.len())),
{
    assert forall|v: u32| #[trigger] s.contains(v) implies put_together(
        qs,
        qs.len(),
    ).contains(v) by {
        assert(held_from(qs, 0, v));
        let k = choose|k: int| 0 <= k < qs.len() && (#[trigger] qs[k]).contains(v);
        lemma_one_of(qs, qs.len(), k);
    }
}

/// One list has nothing in common with those after it.
proof fn lemma_apart_from(s: Set<u32>, t: Set<u32>, qs: Seq<Seq<u32>>, i: nat)
    requires
        i < qs.len(),
        within(s, qs[i as int]),
        within_from(t, qs, i + 1),
        put_together(qs, qs.len()).no_duplicates(),
    ensures
        s.disjoint(t),
{
    assert forall|v: u32| s.contains(v) implies !t.contains(v) by {
        if t.contains(v) {
            assert(held_from(qs, i + 1, v));
            let k = choose|k: int| i + 1 <= k < qs.len() && (#[trigger] qs[k]).contains(v);
            lemma_parts_apart(qs, qs.len(), i as int, k);
            assert(qs[i as int].contains(v));
        }
    }
}

proof fn lemma_next_from(s: Set<u32>, t: Set<u32>, qs: Seq<Seq<u32>>, i: nat)
    requires
        i < qs.len(),
        within(s, qs[i as int]),
        within_from(t, qs, i + 1),
    ensures
        within_from(s.union(t), qs, i),
{
    assert forall|v: u32| #[trigger] s.union(t).contains(v) implies held_from(qs, i, v) by {
        if s.contains(v) {
            assert(qs[i as int].contains(v));
        } else {
            assert(held_from(qs, i + 1, v));
            let k = choose|k: int| i + 1 <= k < qs.len() && (#[trigger] qs[k]).contains(v);
            assert(qs[k].contains(v));
        }
    }
}

/// The numbers of an expression's nodes.
proof fn lemma_expr_within(e: Expr)
    ensures
        within(ids(e), ids_expr(e@)),
        within(inner_ids(e), ids_kind(e.kind@)),
        ids_expr(e@) == seq![e.id.0] + ids_kind(e.kind@),
    decreases e, 1nat,
{
    lemma_expr(e.id, e.span, e.kind);
    lemma_either(seq![e.id.0], ids_kind(e.kind@));
    lemma_inner_within(e);
    assert(seq![e.id.0][0] == e.id.0);
}

proof fn lemma_inner_within(e: Expr)
    ensures
        within(inner_ids(e), ids_kind(e.kind@)),
    decreases e, 0nat,
{
    match e.kind {
        ExprKind::Call(p, generics, args, attrs) => {
            lemma_expr_kind_call(p, generics, args, attrs);
            lemma_list_within(args);
            let g = views(generics@);
            lemma_either(ids_generics(g, g.len()), ids_exprs(views(args@), args@.len()));
        },
        ExprKind::FieldAccess(base, name) => {
            lemma_expr_kind_field_access(base, name);
            lemma_expr_within(*base);
        },
        ExprKind::MethodCall(base, name, args) => {
            lemma_expr_kind_method_call(base, name, args);
            lemma_expr_within(*base);
            lemma_list_within(args);
            lemma_either(ids_expr(base@), ids_exprs(views(args@), args@.len()));
        },
        ExprKind::Index(base, indices) => {
            lemma_expr_kind_index(base, indices);
            lemma_expr_within(*base);
            lemma_list_within(indices);
            lemma_either(ids_expr(base@), ids_exprs(views(indices@), indices@.len()));
        },
        ExprKind::ArrayLit(elems) => {
            lemma_expr_kind_array_lit(elems);
            lemma_list_within(elems);
        },
        ExprKind::ArrayRepeat { value, count } => {
            lemma_expr_kind_array_repeat(value, count);
            lemma_expr_within(*value);
            lemma_expr_within(*count);
            lemma_either(ids_expr(value@), ids_expr(count@));
        },
        ExprKind::StructLit(p, generics, fields) => {
            lemma_expr_kind_struct_lit(p, generics, fields);
            lemma_fields_within(fields, 0);
            lemma_each_field(fields, fields@.len());
            lemma_from_start(field_ids_from(fields, 0), each_field(fields));
            let g = views(generics@);
            lemma_either(ids_generics(g, g.len()), ids_inits(views(fields@), fields@.len()));
        },
        ExprKind::If { cond, then_branch, else_branch } => {
            lemma_expr_kind_if(cond, then_branch, else_branch);
            lemma_expr_within(*cond);
            lemma_block_within(then_branch);
            lemma_either(ids_expr(cond@), ids_block(then_branch@));
            let rest = crate::ast_views::opt_else(else_branch);
            lemma_either(ids_expr(cond@) + ids_block(then_branch@), ids_else(rest));
            if let Some(b) = else_branch {
                match *b {
                    ElseBranch::If(x) => {
                        lemma_else_branch_if(x);
                        lemma_expr_within(x);
                    },
                    ElseBranch::Block(x) => {
                        lemma_else_branch_block(x);
                        lemma_block_within(x);
                    },
                }
            }
        },
        ExprKind::While { cond, body } => {
            lemma_expr_kind_while(cond, body);
            lemma_expr_within(*cond);
            lemma_block_within(body);
            lemma_either(ids_expr(cond@), ids_block(body@));
        },
        ExprKind::For { var, start, end, body } => {
            lemma_expr_kind_for(var, start, end, body);
            lemma_expr_within(*start);
            lemma_expr_within(*end);
            lemma_block_within(body);
            lemma_either(ids_expr(start@), ids_expr(end@));
            lemma_either(ids_expr(start@) + ids_expr(end@), ids_block(body@));
        },
        ExprKind::ForIn { var, iter, body } => {
            lemma_expr_kind_for_in(var, iter, body);
            lemma_expr_within(*iter);
            lemma_block_within(body);
            lemma_either(ids_expr(iter@), ids_block(body@));
        },
        ExprKind::Loop { body } => {
            lemma_expr_kind_loop(body);
            lemma_block_within(body);
        },
        ExprKind::Block(b) => {
            lemma_expr_kind_block(b);
            lemma_block_within(b);
        },
        ExprKind::Lambda { params, ret, body } => {
            lemma_expr_kind_lambda(params, ret, body);
            lemma_block_within(body);
            let ps = views(params@);
            let r = crate::ast_views::opt_type(ret);
            lemma_either(ids_params(ps, ps.len()) + ids_opt_type(r), ids_block(body@));
        },
        _ => {},
    }
}

proof fn lemma_list_within(es: Vec<Expr>)
    ensures
        within(ids_from(es, 0), ids_exprs(views(es@), es@.len())),
        within_from(ids_from(es, 0), each_expr(es), 0),
    decreases es, es@.len() + 1,
{
    lemma_exprs_within(es, 0);
    lemma_each_expr(es, es@.len());
    lemma_from_start(ids_from(es, 0), each_expr(es));
}

proof fn lemma_exprs_within(es: Vec<Expr>, i: nat)
    ensures
        within_from(ids_from(es, i), each_expr(es), i),
    decreases es, es@.len() - i,
{
    if i < es@.len() {
        lemma_expr_within(es@[i as int]);
        lemma_exprs_within(es, i + 1);
        lemma_next_from(ids(es@[i as int]), ids_from(es, i + 1), each_expr(es), i);
    }
}

proof fn lemma_fields_within(fields: Vec<(String, Expr)>, i: nat)
    ensures
        within_from(field_ids_from(fields, i), each_field(fields), i),
    decreases fields, fields@.len() - i,
{
    if i < fields@.len() {
        lemma_expr_within(fields@[i as int].1);
        lemma_fields_within(fields, i + 1);
        lemma_next_from(
            ids(fields@[i as int].1),
            field_ids_from(fields, i + 1),
            each_field(fields),
            i,
        );
    }
}

/// The numbers of a block's nodes.
proof fn lemma_block_within(b: Block)
    ensures
        within(block_ids(b), ids_block(b@)),
        within(stmt_ids_from(b.stmts, 0), ids_stmts(views(b.stmts@), b.stmts@.len())),
        b@.stmts == views(b.stmts@),
        b.tail matches Some(tail) ==> ids_block(b@) == ids_stmts(
            views(b.stmts@),
            b.stmts@.len(),
        ) + ids_expr(tail@),
        b.tail is None ==> ids_block(b@) == ids_stmts(views(b.stmts@), b.stmts@.len()),
    decreases b, 1nat,
{
    lemma_block(b.stmts, b.tail);
    lemma_stmts_within(b.stmts, 0);
    lemma_each_stmt(b.stmts, b.stmts@.len());
    lemma_from_start(stmt_ids_from(b.stmts, 0), each_stmt(b.stmts));
    let own = ids_stmts(views(b.stmts@), b.stmts@.len());
    match b.tail {
        Some(tail) => {
            lemma_expr_within(*tail);
            lemma_either(own, ids_expr(tail@));
        },
        None => {
            assert(own + Seq::<u32>::empty() =~= own);
        },
    }
}

proof fn lemma_stmts_within(stmts: Vec<Stmt>, i: nat)
    ensures
        within_from(stmt_ids_from(stmts, i), each_stmt(stmts), i),
    decreases stmts, stmts@.len() - i,
{
    if i < stmts@.len() {
        lemma_stmt_within(stmts@[i as int]);
        lemma_stmts_within(stmts, i + 1);
        lemma_next_from(
            stmt_ids(stmts@[i as int]),
            stmt_ids_from(stmts, i + 1),
            each_stmt(stmts),
            i,
        );
    }
}

proof fn lemma_stmt_within(s: Stmt)
    ensures
        within(stmt_ids(s), ids_stmt(s@)),
        ids_stmt(s@) == seq![s.id.0] + ids_stmt_kind(s.kind@),
    decreases s, 0nat,
{
    lemma_stmt(s.id, s.span, s.kind);
    lemma_either(seq![s.id.0], ids_stmt_kind(s.kind@));
    match s.kind {
        StmtKind::Let { mutable, name, ty, value } => {
            lemma_stmt_kind_let(mutable, name, ty, value);
            lemma_expr_within(value);
            lemma_either(ids_opt_type(crate::ast_views::opt_type(ty)), ids_expr(value@));
        },
        StmtKind::Assign { target, value } => {
            lemma_stmt_kind_assign(target, value);
            lemma_expr_within(target);
            lemma_expr_within(value);
            lemma_either(ids_expr(target@), ids_expr(value@));
        },
        StmtKind::Expr(e) => {
            lemma_stmt_kind_expr(e);
            lemma_expr_within(e);
        },
        StmtKind::Break(value) => {
            lemma_stmt_kind_break(value);
            if let Some(v) = value {
                lemma_expr_within(v);
            }
        },
    }
}

// ---- code whose nodes have numbers of their own ----

/// An expression whose nodes have numbers of their own is in order.
pub proof fn lemma_expr_orderly(e: Expr)
    requires
        ids_expr(e@).no_duplicates(),
    ensures
        orderly(e),
    decreases e, 1nat,
{
    lemma_expr_within(e);
    lemma_both(seq![e.id.0], ids_kind(e.kind@));
    assert(seq![e.id.0].contains(e.id.0)) by {
        assert(seq![e.id.0][0] == e.id.0);
    }
    lemma_inner_orderly(e);
}

proof fn lemma_inner_orderly(e: Expr)
    requires
        ids_kind(e.kind@).no_duplicates(),
    ensures
        orderly_within(e),
    decreases e, 0nat,
{
    match e.kind {
        ExprKind::Call(p, generics, args, attrs) => {
            lemma_expr_kind_call(p, generics, args, attrs);
            let g = views(generics@);
            lemma_both(ids_generics(g, g.len()), ids_exprs(views(args@), args@.len()));
            lemma_each_expr(args, args@.len());
            lemma_exprs_orderly(args, 0);
        },
        ExprKind::FieldAccess(base, name) => {
            lemma_expr_kind_field_access(base, name);
            lemma_expr_orderly(*base);
        },
        ExprKind::MethodCall(base, name, args) => {
            lemma_expr_kind_method_call(base, name, args);
            let list = ids_exprs(views(args@), args@.len());
            lemma_both(ids_expr(base@), list);
            lemma_each_expr(args, args@.len());
            lemma_expr_orderly(*base);
            lemma_exprs_orderly(args, 0);
            lemma_expr_within(*base);
            lemma_list_within(args);
            lemma_disjoint(ids(*base), ids_expr(base@), ids_from(args, 0), list);
        },
        ExprKind::Index(base, indices) => {
            lemma_expr_kind_index(base, indices);
            let list = ids_exprs(views(indices@), indices@.len());
            lemma_both(ids_expr(base@), list);
            lemma_each_expr(indices, indices@.len());
            lemma_expr_orderly(*base);
            lemma_exprs_orderly(indices, 0);
            lemma_expr_within(*base);
            lemma_list_within(indices);
            lemma_disjoint(ids(*base), ids_expr(base@), ids_from(indices, 0), list);
        },
        ExprKind::ArrayLit(elems) => {
            lemma_expr_kind_array_lit(elems);
            lemma_each_expr(elems, elems@.len());
            lemma_exprs_orderly(elems, 0);
        },
        ExprKind::ArrayRepeat { value, count } => {
            lemma_expr_kind_array_repeat(value, count);
            lemma_both(ids_expr(value@), ids_expr(count@));
            lemma_expr_orderly(*value);
            lemma_expr_orderly(*count);
            lemma_expr_within(*value);
            lemma_expr_within(*count);
            lemma_disjoint(ids(*value), ids_expr(value@), ids(*count), ids_expr(count@));
        },
        ExprKind::StructLit(p, generics, fields) => {
            lemma_expr_kind_struct_lit(p, generics, fields);
            let g = views(generics@);
            lemma_both(ids_generics(g, g.len()), ids_inits(views(fields@), fields@.len()));
            lemma_each_field(fields, fields@.len());
            lemma_fields_orderly(fields, 0);
        },
        ExprKind::If { cond, then_branch, else_branch } => {
            lemma_expr_kind_if(cond, then_branch, else_branch);
            let (x, y) = (ids_expr(cond@), ids_block(then_branch@));
            let z = ids_else(crate::ast_views::opt_else(else_branch));
            lemma_both(x + y, z);
            lemma_both(x, y);
            lemma_either(x, y);
            assert(apart(x, z)) by {
                assert forall|v: u32| x.contains(v) implies !#[trigger] z.contains(v) by {
                    assert((x + y).contains(v));
                }
            }
            assert(apart(y, z)) by {
                assert forall|v: u32| y.contains(v) implies !#[trigger] z.contains(v) by {
                    assert((x + y).contains(v));
                }
            }
            lemma_expr_orderly(*cond);
            lemma_block_orderly(then_branch);
            lemma_expr_within(*cond);
            lemma_block_within(then_branch);
            lemma_disjoint(ids(*cond), x, block_ids(then_branch), y);
            if let Some(b) = else_branch {
                match *b {
                    ElseBranch::If(e2) => {
                        lemma_else_branch_if(e2);
                        lemma_expr_orderly(e2);
                        lemma_expr_within(e2);
                        lemma_disjoint(ids(*cond), x, ids(e2), z);
                        lemma_disjoint(block_ids(then_branch), y, ids(e2), z);
                    },
                    ElseBranch::Block(b2) => {
                        lemma_else_branch_block(b2);
                        lemma_block_orderly(b2);
                        lemma_block_within(b2);
                        lemma_disjoint(ids(*cond), x, block_ids(b2), z);
                        lemma_disjoint(block_ids(then_branch), y, block_ids(b2), z);
                    },
                }
            }
        },
        ExprKind::While { cond, body } => {
            lemma_expr_kind_while(cond, body);
            lemma_both(ids_expr(cond@), ids_block(body@));
            lemma_expr_orderly(*cond);
            lemma_block_orderly(body);
            lemma_expr_within(*cond);
            lemma_block_within(body);
            lemma_disjoint(ids(*cond), ids_expr(cond@), block_ids(body), ids_block(body@));
        },
        ExprKind::For { var, start, end, body } => {
            lemma_expr_kind_for(var, start, end, body);
            let (x, y, z) = (ids_expr(start@), ids_expr(end@), ids_block(body@));
            lemma_both(x + y, z);
            lemma_both(x, y);
            lemma_either(x, y);
            assert(apart(x, z)) by {
                assert forall|v: u32| x.contains(v) implies !#[trigger] z.contains(v) by {
                    assert((x + y).contains(v));
                }
            }
            assert(apart(y, z)) by {
                assert forall|v: u32| y.contains(v) implies !#[trigger] z.contains(v) by {
                    assert((x + y).contains(v));
                }
            }
            lemma_expr_orderly(*start);
            lemma_expr_orderly(*end);
            lemma_block_orderly(body);
            lemma_expr_within(*start);
            lemma_expr_within(*end);
            lemma_block_within(body);
            lemma_disjoint(ids(*start), x, ids(*end), y);
            lemma_disjoint(ids(*start), x, block_ids(body), z);
            lemma_disjoint(ids(*end), y, block_ids(body), z);
        },
        ExprKind::ForIn { var, iter, body } => {
            lemma_expr_kind_for_in(var, iter, body);
            lemma_both(ids_expr(iter@), ids_block(body@));
            lemma_expr_orderly(*iter);
            lemma_block_orderly(body);
            lemma_expr_within(*iter);
            lemma_block_within(body);
            lemma_disjoint(ids(*iter), ids_expr(iter@), block_ids(body), ids_block(body@));
        },
        ExprKind::Loop { body } => {
            lemma_expr_kind_loop(body);
            lemma_block_orderly(body);
        },
        ExprKind::Block(b) => {
            lemma_expr_kind_block(b);
            lemma_block_orderly(b);
        },
        ExprKind::Lambda { params, ret, body } => {
            lemma_expr_kind_lambda(params, ret, body);
            let ps = views(params@);
            let r = crate::ast_views::opt_type(ret);
            lemma_both(ids_params(ps, ps.len()) + ids_opt_type(r), ids_block(body@));
            lemma_block_orderly(body);
        },
        _ => {},
    }
}

proof fn lemma_exprs_orderly(es: Vec<Expr>, i: nat)
    requires
        put_together(each_expr(es), es@.len()).no_duplicates(),
    ensures
        orderly_from(es, i),
    decreases es, es@.len() - i,
{
    if i < es@.len() {
        lemma_parts_apart(each_expr(es), es@.len(), i as int, i as int);
        lemma_expr_orderly(es@[i as int]);
        lemma_exprs_orderly(es, i + 1);
        lemma_expr_within(es@[i as int]);
        lemma_exprs_within(es, i + 1);
        lemma_apart_from(ids(es@[i as int]), ids_from(es, i + 1), each_expr(es), i);
    }
}

proof fn lemma_fields_orderly(fields: Vec<(String, Expr)>, i: nat)
    requires
        put_together(each_field(fields), fields@.len()).no_duplicates(),
    ensures
        orderly_fields_from(fields, i),
    decreases fields, fields@.len() - i,
{
    if i < fields@.len() {
        lemma_parts_apart(each_field(fields), fields@.len(), i as int, i as int);
        lemma_expr_orderly(fields@[i as int].1);
        lemma_fields_orderly(fields, i + 1);
        lemma_expr_within(fields@[i as int].1);
        lemma_fields_within(fields, i + 1);
        lemma_apart_from(
            ids(fields@[i as int].1),
            field_ids_from(fields, i + 1),
            each_field(fields),
            i,
        );
    }
}

/// A block whose nodes have numbers of their own is in order.
pub proof fn lemma_block_orderly(b: Block)
    requires
        ids_block(b@).no_duplicates(),
    ensures
        orderly_block(b),
    decreases b, 1nat,
{
    lemma_block_within(b);
    let own = ids_stmts(views(b.stmts@), b.stmts@.len());
    lemma_each_stmt(b.stmts, b.stmts@.len());
    match b.tail {
        Some(tail) => {
            lemma_both(own, ids_expr(tail@));
            lemma_stmts_orderly(b.stmts, 0);
            lemma_expr_orderly(*tail);
            lemma_expr_within(*tail);
            lemma_disjoint(stmt_ids_from(b.stmts, 0), own, ids(*tail), ids_expr(tail@));
        },
        None => lemma_stmts_orderly(b.stmts, 0),
    }
}

proof fn lemma_stmts_orderly(stmts: Vec<Stmt>, i: nat)
    requires
        put_together(each_stmt(stmts), stmts@.len()).no_duplicates(),
    ensures
        orderly_stmts_from(stmts, i),
    decreases stmts, stmts@.len() - i,
{
    if i < stmts@.len() {
        lemma_parts_apart(each_stmt(stmts), stmts@.len(), i as int, i as int);
        lemma_stmt_orderly(stmts@[i as int]);
        lemma_stmts_orderly(stmts, i + 1);
        lemma_stmt_within(stmts@[i as int]);
        lemma_stmts_within(stmts, i + 1);
        lemma_apart_from(
            stmt_ids(stmts@[i as int]),
            stmt_ids_from(stmts, i + 1),
            each_stmt(stmts),
            i,
        );
    }
}

proof fn lemma_stmt_orderly(s: Stmt)
    requires
        ids_stmt(s@).no_duplicates(),
    ensures
        orderly_stmt(s),
    decreases s, 0nat,
{
    lemma_stmt_within(s);
    lemma_both(seq![s.id.0], ids_stmt_kind(s.kind@));
    match s.kind {
        StmtKind::Let { mutable, name, ty, value } => {
            lemma_stmt_kind_let(mutable, name, ty, value);
            lemma_both(ids_opt_type(crate::ast_views::opt_type(ty)), ids_expr(value@));
            lemma_expr_orderly(value);
        },
        StmtKind::Assign { target, value } => {
            lemma_stmt_kind_assign(target, value);
            lemma_both(ids_expr(target@), ids_expr(value@));
            lemma_expr_orderly(target);
            lemma_expr_orderly(value);
            lemma_expr_within(target);
            lemma_expr_within(value);
            lemma_disjoint(ids(target), ids_expr(target@), ids(value), ids_expr(value@));
        },
        StmtKind::Expr(e) => {
            lemma_stmt_kind_expr(e);
            lemma_expr_orderly(e);
        },
        StmtKind::Break(value) => {
            lemma_stmt_kind_break(value);
            if let Some(v) = value {
                assert(ids_opt_expr(Some(v@)) == ids_expr(v@));
                lemma_expr_orderly(v);
            }
        },
    }
}

// ---- the functions of a program ----

/// Whether a function is one of a list.
pub open spec fn among(d: FnDecl, fns: Seq<FnDecl>) -> bool {
    exists|k: int| 0 <= k < fns.len() && #[trigger] fns[k] == d
}

/// Whether an item is a function, or is an impl that has it.
pub open spec fn has_fn(item: Item, d: FnDecl) -> bool {
    match item.kind {
        ItemKind::Fn(x) => x == d,
        ItemKind::Impl(x) => among(d, x.fns@),
        ItemKind::InherentImpl(x) => among(d, x.fns@),
        _ => false,
    }
}

/// Whether a program has a function, or an impl that has it.
pub open spec fn declares_fn(p: Program, d: FnDecl) -> bool {
    exists|i: int| 0 <= i < p.items@.len() && has_fn(#[trigger] p.items@[i], d)
}

proof fn lemma_fn_body(d: FnDecl)
    requires
        ids_fn(d@).no_duplicates(),
        d.body is Some,
    ensures
        numbered_fn(d),
{
    let v = d@;
    let front = ids_generic_params(v.generics, v.generics.len()) + ids_params(
        v.params,
        v.params.len(),
    ) + ids_opt_type(v.ret);
    lemma_both(front, ids_block(d.body->0@));
    lemma_block_orderly(d.body->0);
}

proof fn lemma_one_fn(fns: Seq<FnDeclV>, n: nat, k: int)
    requires
        0 <= k < n <= fns.len(),
        ids_fns(fns, n).no_duplicates(),
    ensures
        ids_fn(fns[k]).no_duplicates(),
    decreases n,
{
    lemma_both(ids_fns(fns, (n - 1) as nat), ids_fn(fns[n - 1]));
    if k < n - 1 {
        lemma_one_fn(fns, (n - 1) as nat, k);
    }
}

proof fn lemma_one_item(items: Seq<ItemV>, n: nat, k: int)
    requires
        0 <= k < n <= items.len(),
        ids_items(items, n).no_duplicates(),
    ensures
        ids_item(items[k]).no_duplicates(),
    decreases n,
{
    lemma_both(ids_items(items, (n - 1) as nat), ids_item(items[n - 1]));
    if k < n - 1 {
        lemma_one_item(items, (n - 1) as nat, k);
    }
}

proof fn lemma_fn_among(d: FnDecl, fns: Seq<FnDecl>)
    requires
        among(d, fns),
        ids_fns(views(fns), fns.len()).no_duplicates(),
    ensures
        ids_fn(d@).no_duplicates(),
{
    let k = choose|k: int| 0 <= k < fns.len() && #[trigger] fns[k] == d;
    lemma_one_fn(views(fns), fns.len(), k);
    assert(views(fns)[k] == d@);
}

/// Every function of a program that came of a file, and every method of its impls, has nodes
/// with numbers of their own, as long as the numbers last.
pub proof fn lemma_lowered_functions_are_numbered(
    t: Tree,
    f: FileId,
    id: u32,
    p: Program,
    d: FnDecl,
)
    requires
        low_program(t, f, id) is Some,
        low_program(t, f, id)->0.value == p@,
        id + numbers_of_program(t) <= u32::MAX,
        declares_fn(p, d),
        d.body is Some,
    ensures
        numbered_fn(d),
{
    lemma_program_numbers(t, f, id);
    let all = ids_items(p@.items, p@.items.len());
    assert(all.no_duplicates()) by {
        assert(spread(all, id as int, low_program(t, f, id)->0.next as int));
        assert forall|i: int, j: int|
            0 <= i < all.len() && 0 <= j < all.len() && i != j implies all[i] != all[j] by {
            if i < j {
                assert(all[i] != all[j]);
            } else {
                assert(all[j] != all[i]);
            }
        }
    }
    let i = choose|i: int| 0 <= i < p.items@.len() && has_fn(#[trigger] p.items@[i], d);
    let item = p.items@[i];
    lemma_one_item(p@.items, p@.items.len(), i);
    assert(p@.items[i] == item@);
    lemma_both(seq![item.id.0], crate::program_laws::ids_item_kind(item@.kind));
    match item.kind {
        ItemKind::Fn(_) => {},
        ItemKind::Impl(x) => {
            let v = x@;
            let front = ids_generic_params(v.generics, v.generics.len())
                + crate::node_ids::ids_type(v.target) + crate::node_ids::ids_types(
                v.extra_targets,
                v.extra_targets.len(),
            );
            lemma_both(front, ids_fns(v.fns, v.fns.len()));
            lemma_fn_among(d, x.fns@);
        },
        ItemKind::InherentImpl(x) => {
            let v = x@;
            let front = ids_generic_params(v.generics, v.generics.len())
                + crate::node_ids::ids_type(v.target);
            lemma_both(front, ids_fns(v.fns, v.fns.len()));
            lemma_fn_among(d, x.fns@);
        },
        _ => {},
    }
    lemma_fn_body(d);
}

} // verus!
