//! Lowering keeps what arrays, calls, choices and bindings mean.

use vstd::prelude::*;

use crate::ast::FileId;
use crate::ast_views::{BlockV, ElseBranchV, ExprKindV, ExprV, GenericArgV, StmtV};
use crate::lower_specs::{
    copies, low_args, low_args_at, low_array_lit, low_block, low_block_parts, low_call,
    low_copies, low_else, low_expr, low_exprs, low_if, low_stmt, low_turbofish, ArgsV, LowV,
};
use crate::meaning::{
    fits, mean_block, mean_else, mean_expr, mean_exprs, mean_kind, mean_stmt, mean_stmts,
    number_parts, read_array, read_block, read_call, read_if, read_let, read_lets, written_path,
    Names, World,
};
use crate::meaning_laws::{
    kept, lemma_args, lemma_block, lemma_copies, lemma_exprs, lemma_let, lemma_many,
    lemma_meaning_is_kept, lemma_path, lemma_stmts_front,
};
use crate::numerals::numeral;
use crate::tree::{is_at, Rule, Tree};

verus! {

/// Equality as it stands.
pub open spec fn is_same<A>(a: A, b: A) -> bool {
    a == b
}

// ---- calls ----

proof fn lemma_call_means<T>(
    w: World<T>,
    path: Seq<Seq<char>>,
    generics: Seq<GenericArgV>,
    a: ArgsV,
    env: Names<T>,
)
    requires
        generics.len() == 0,
        a.attrs.len() == 0,
    ensures
        mean_exprs(w, a.args, a.args.len(), env) matches Some(vs) ==> is_same(
            mean_kind(w, ExprKindV::Call(path, generics, a.args, a.attrs), env),
            Some((w.call)(path, vs)),
        ),
{
}

pub proof fn lemma_call<T>(w: World<T>, t: Tree, f: FileId, id: u32, env: Names<T>, typed: bool)
    requires
        fits(w),
    ensures
        kept(w, low_call(t, f, id), read_call(w, t, env, typed), env, typed),
    decreases t, 0nat,
{
    if !(t.children@.len() == 0 || is_at(t.children, 1, Rule::Turbofish)) {
        lemma_path(t.children@[0]);
        let generics = low_turbofish(t.children, 1, f, id)->0;
        assert(low_turbofish(t.children, 1, f, id) is Some && generics.value.len() == 0
            && generics.next == id);
        let path = written_path(t.children@[0]);
        let a = low_args_at(t.children, 1, f, id);
        if t.children@.len() > 1 {
            let list = t.children@[1].children;
            lemma_args(w, list, list@.len(), f, id, env, typed);
            assert(is_same(a, low_args(list, list@.len(), f, id)));
        }
        if a is Some && a->0.value.attrs.len() == 0 {
            lemma_call_means(w, path, generics.value, a->0.value, env);
            let r = low_call(t, f, id)->0;
            assert(is_same(
                r.value.kind,
                ExprKindV::Call(path, generics.value, a->0.value.args, a->0.value.attrs),
            ));
        }
    }
}

// ---- arrays ----

proof fn lemma_array_means<T>(w: World<T>, items: Seq<ExprV>, env: Names<T>)
    ensures
        mean_exprs(w, items, items.len(), env) matches Some(vs) ==> is_same(
            mean_kind(w, ExprKindV::ArrayLit(items), env),
            Some((w.array)(vs)),
        ),
{
}

pub proof fn lemma_array<T>(w: World<T>, t: Tree, f: FileId, id: u32, env: Names<T>, typed: bool)
    requires
        fits(w),
    ensures
        kept(w, low_array_lit(t, f, id), read_array(w, t, env, typed), env, typed),
    decreases t, 1nat,
{
    if t.children@.len() == 0 {
        lemma_array_means(w, Seq::empty(), env);
    } else {
        let body = t.children@[0];
        if body.rule == Rule::ArrayList {
            lemma_exprs(w, body.children, body.children@.len(), f, id, env, typed);
            if let Some(items) = low_exprs(body.children, 0, body.children@.len(), f, id) {
                lemma_array_means(w, items.value, env);
            }
        } else if body.rule == Rule::ArrayRepeat && body.children@.len() >= 2 {
            lemma_repeat(w, t, f, id, env, typed);
        }
    }
}

proof fn lemma_repeat<T>(w: World<T>, t: Tree, f: FileId, id: u32, env: Names<T>, typed: bool)
    requires
        fits(w),
        t.children@.len() > 0,
        t.children@[0].rule == Rule::ArrayRepeat,
        t.children@[0].children@.len() >= 2,
    ensures
        kept(w, low_array_lit(t, f, id), read_array(w, t, env, typed), env, typed),
    decreases t, 0nat,
{
    let body = t.children@[0];
    let count = body.children@[1];
    if count.rule == Rule::NumericLit {
        lemma_copies(count.text@);
        let want = numeral(number_parts(count.text@).0);
        if want is Some && want->0 <= usize::MAX {
            let n = copies(count.text@)->0;
            assert(n as nat == want->0);
            lemma_many(w, body.children@[0], n as nat, f, id, env, typed);
            if let Some(items) = low_copies(body.children@[0], n as nat, f, id) {
                lemma_array_means(w, items.value, env);
            }
        }
    } else {
        lemma_meaning_is_kept(w, body.children@[0], f, id, env, typed);
        if count.rule == Rule::Ident {
            if let Some(value) = low_expr(body.children@[0], f, id) {
                let c = crate::lower_specs::low_count(count, f, value.next)->0.value;
                assert(is_same(mean_expr(w, c, env), Some(env(seq![count.text@]))));
                lemma_repeat_means(w, value.value, c, env);
            }
        }
    }
}

proof fn lemma_repeat_means<T>(w: World<T>, value: ExprV, count: ExprV, env: Names<T>)
    ensures
        mean_expr(w, value, env) is Some && mean_expr(w, count, env) is Some ==> is_same(
            mean_kind(
                w,
                ExprKindV::ArrayRepeat { value: Box::new(value), count: Box::new(count) },
                env,
            ),
            Some((w.repeat)(mean_expr(w, value, env)->0, mean_expr(w, count, env)->0)),
        ),
{
}

// ---- choices ----

proof fn lemma_if_means<T>(
    w: World<T>,
    cond: ExprV,
    then_branch: BlockV,
    else_branch: Option<Box<ElseBranchV>>,
    env: Names<T>,
)
    ensures
        ({
            let c = mean_expr(w, cond, env);
            let a = mean_block(w, then_branch, env);
            let b = mean_else(w, else_branch, env);
            c is Some && a is Some && b is Some ==> is_same(
                mean_kind(
                    w,
                    ExprKindV::If { cond: Box::new(cond), then_branch, else_branch },
                    env,
                ),
                Some((w.choice)(c->0, a->0, b->0)),
            )
        }),
{
}

/// What is there where a condition does not hold.
spec fn read_other<T>(w: World<T>, t: Tree, env: Names<T>, typed: bool) -> Option<T> {
    if t.children@.len() == 2 {
        Some(w.nothing)
    } else if t.children@[2].rule == Rule::IfExpr {
        read_if(w, t.children@[2], env, typed)
    } else if t.children@[2].rule == Rule::Block {
        read_block(w, t.children@[2], env, typed)
    } else {
        None
    }
}

proof fn lemma_other<T>(w: World<T>, t: Tree, f: FileId, id: u32, env: Names<T>, typed: bool)
    requires
        fits(w),
        t.children@.len() >= 2,
    ensures
        ({
            let low = low_else(t.children, f, id);
            let want = read_other(w, t, env, typed);
            want is Some && (typed ==> low is Some) ==> low is Some && is_same(
                mean_else(w, low->0.value, env),
                want,
            )
        }),
    decreases t, 0nat,
{
    if t.children@.len() > 2 {
        if t.children@[2].rule == Rule::IfExpr {
            lemma_if(w, t.children@[2], f, id, env, typed);
        } else if t.children@[2].rule == Rule::Block {
            lemma_block(w, t.children@[2], f, id, env, typed);
        }
    }
}

pub proof fn lemma_if<T>(w: World<T>, t: Tree, f: FileId, id: u32, env: Names<T>, typed: bool)
    requires
        fits(w),
    ensures
        kept(w, low_if(t, f, id), read_if(w, t, env, typed), env, typed),
    decreases t, 1nat,
{
    if t.children@.len() >= 2 {
        lemma_meaning_is_kept(w, t.children@[0], f, id, env, typed);
        if let Some(cond) = low_expr(t.children@[0], f, id) {
            lemma_block(w, t.children@[1], f, cond.next, env, typed);
            if let Some(then_branch) = low_block(t.children@[1], f, cond.next) {
                lemma_other(w, t, f, then_branch.next, env, typed);
                if let Some(other) = low_else(t.children, f, then_branch.next) {
                    lemma_if_means(w, cond.value, then_branch.value, other.value, env);
                    let r = low_if(t, f, id)->0;
                    assert(is_same(
                        r.value.kind,
                        ExprKindV::If {
                            cond: Box::new(cond.value),
                            then_branch: then_branch.value,
                            else_branch: other.value,
                        },
                    ));
                }
            }
        }
    }
}

// ---- bindings ----

proof fn lemma_stmts_push<T>(w: World<T>, stmts: Seq<StmtV>, s: StmtV, env: Names<T>)
    ensures
        is_same(
            mean_stmts(w, stmts.push(s), stmts.len() + 1, env),
            match mean_stmts(w, stmts, stmts.len(), env) {
                None => None,
                Some(x) => mean_stmt(w, s, x),
            },
        ),
{
    lemma_stmts_front(w, stmts, stmts.push(s), stmts.len(), env);
}

proof fn lemma_parts_step(children: Vec<Tree>, n: nat, f: FileId, id: u32)
    requires
        0 < n <= children@.len(),
    ensures
        ({
            let low = low_block_parts(children, n, f, id);
            let before = low_block_parts(children, (n - 1) as nat, f, id);
            let s = low_stmt(children@[n - 1], f, before->0.next);
            &&& low is Some ==> before is Some
            &&& before is Some && children@[n - 1].rule == Rule::Stmt ==> {
                &&& low is Some <==> s is Some
                &&& low is Some ==> is_same(
                    low->0.value.stmts,
                    before->0.value.stmts.push(s->0.value),
                ) && is_same(low->0.value.tail, before->0.value.tail)
            }
        }),
{
}

proof fn lemma_read_step<T>(
    w: World<T>,
    children: Vec<Tree>,
    n: nat,
    env: Names<T>,
    typed: bool,
)
    requires
        0 < n <= children@.len(),
    ensures
        ({
            let want = read_lets(w, children, n, env, typed);
            let inner = read_lets(w, children, (n - 1) as nat, env, typed);
            &&& want is Some ==> inner is Some && children@[n - 1].rule == Rule::Stmt
            &&& inner is Some ==> is_same(want, read_let(w, children@[n - 1], inner->0, typed))
        }),
{
}

/// Whether the bindings of a block are kept.
pub open spec fn kept_lets<T>(
    w: World<T>,
    low: Option<LowV<BlockV>>,
    want: Option<Names<T>>,
    env: Names<T>,
    typed: bool,
) -> bool {
    want is Some && (typed ==> low is Some) ==> low is Some && low->0.value.tail is None
        && mean_stmts(w, low->0.value.stmts, low->0.value.stmts.len(), env) == want
}

proof fn lemma_lets_step<T>(
    w: World<T>,
    low: Option<LowV<BlockV>>,
    before: Option<LowV<BlockV>>,
    s: Option<LowV<StmtV>>,
    want: Option<Names<T>>,
    inner: Option<Names<T>>,
    env: Names<T>,
    typed: bool,
)
    requires
        kept_lets(w, before, inner, env, typed),
        low is Some ==> before is Some,
        want is Some ==> inner is Some,
        before is Some && inner is Some && want is Some ==> {
            &&& low is Some <==> s is Some
            &&& low is Some ==> is_same(
                low->0.value.stmts,
                before->0.value.stmts.push(s->0.value),
            ) && is_same(low->0.value.tail, before->0.value.tail)
            &&& (typed ==> s is Some) ==> s is Some && is_same(
                mean_stmt(w, s->0.value, inner->0),
                want,
            )
        },
    ensures
        kept_lets(w, low, want, env, typed),
{
    if want is Some && (typed ==> low is Some) {
        assert(before is Some);
        assert(s is Some);
        lemma_stmts_push(w, before->0.value.stmts, s->0.value, env);
    }
}

pub proof fn lemma_lets<T>(
    w: World<T>,
    children: Vec<Tree>,
    n: nat,
    f: FileId,
    id: u32,
    env: Names<T>,
    typed: bool,
)
    requires
        fits(w),
        n <= children@.len(),
    ensures
        kept_lets(
            w,
            low_block_parts(children, n, f, id),
            read_lets(w, children, n, env, typed),
            env,
            typed,
        ),
    decreases children, n,
{
    if n > 0 {
        let m = (n - 1) as nat;
        lemma_lets(w, children, m, f, id, env, typed);
        lemma_parts_step(children, n, f, id);
        lemma_read_step(w, children, n, env, typed);
        let inner = read_lets(w, children, m, env, typed);
        let before = low_block_parts(children, m, f, id);
        if inner is Some && before is Some {
            lemma_let(w, children@[n - 1], f, before->0.next, inner->0, typed);
        }
        lemma_lets_step(
            w,
            low_block_parts(children, n, f, id),
            before,
            low_stmt(children@[n - 1], f, before->0.next),
            read_lets(w, children, n, env, typed),
            inner,
            env,
            typed,
        );
    }
}

} // verus!
