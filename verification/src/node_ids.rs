//! The numbers of the nodes of a syntax tree.

use vstd::prelude::*;

use crate::ast_views::{
    BlockV, ElseBranchV, ExprKindV, ExprV, GenericArgV, ParamV, StmtKindV, StmtV, TypeKindV, TypeV,
};

verus! {

/// The numbers of the nodes of an expression.
pub open spec fn ids_expr(e: ExprV) -> Seq<u32>
    decreases e, 0nat,
{
    seq![e.id.0] + ids_kind(e.kind)
}

/// The numbers of the nodes below an expression.
pub open spec fn ids_kind(k: ExprKindV) -> Seq<u32>
    decreases k, 0nat,
{
    match k {
        ExprKindV::NumberLit { .. } => Seq::empty(),
        ExprKindV::ImaginaryLit { .. } => Seq::empty(),
        ExprKindV::BoolLit(_) => Seq::empty(),
        ExprKindV::Path(_) => Seq::empty(),
        ExprKindV::PackRef(_) => Seq::empty(),
        ExprKindV::Call(_, generics, args, _) => ids_generics(generics, generics.len())
            + ids_exprs(args, args.len()),
        ExprKindV::FieldAccess(base, _) => ids_expr(*base),
        ExprKindV::MethodCall(base, _, args) => ids_expr(*base) + ids_exprs(args, args.len()),
        ExprKindV::Index(base, indices) => ids_expr(*base) + ids_exprs(indices, indices.len()),
        ExprKindV::ArrayLit(elems) => ids_exprs(elems, elems.len()),
        ExprKindV::ArrayRepeat { value, count } => ids_expr(*value) + ids_expr(*count),
        ExprKindV::StructLit(_, generics, fields) => ids_generics(generics, generics.len())
            + ids_inits(fields, fields.len()),
        ExprKindV::If { cond, then_branch, else_branch } => ids_expr(*cond) + ids_block(
            then_branch,
        ) + ids_else(else_branch),
        ExprKindV::While { cond, body } => ids_expr(*cond) + ids_block(body),
        ExprKindV::For { start, end, body, .. } => ids_expr(*start) + ids_expr(*end) + ids_block(
            body,
        ),
        ExprKindV::ForIn { iter, body, .. } => ids_expr(*iter) + ids_block(body),
        ExprKindV::Loop { body } => ids_block(body),
        ExprKindV::Block(b) => ids_block(b),
        ExprKindV::Lambda { params, ret, body } => ids_params(params, params.len()) + ids_opt_type(
            ret,
        ) + ids_block(body),
    }
}

/// The numbers of the nodes of the other branch of a choice.
pub open spec fn ids_else(e: Option<Box<ElseBranchV>>) -> Seq<u32>
    decreases e, 0nat,
{
    match e {
        None => Seq::empty(),
        Some(b) => match *b {
            ElseBranchV::If(e) => ids_expr(e),
            ElseBranchV::Block(b) => ids_block(b),
        },
    }
}

/// The numbers of the nodes of a type.
pub open spec fn ids_type(t: TypeV) -> Seq<u32>
    decreases t, 0nat,
{
    seq![t.id.0] + match t.kind {
        TypeKindV::Path(_, args) => ids_generics(args, args.len()),
        TypeKindV::Array(elem, size) => ids_type(*elem) + ids_expr(*size),
        TypeKindV::Fn(params, ret) => ids_types(params, params.len()) + ids_type(*ret),
        TypeKindV::PackRef(_) => Seq::empty(),
    }
}

/// The numbers of the nodes of a type that may be missing.
pub open spec fn ids_opt_type(t: Option<TypeV>) -> Seq<u32>
    decreases t, 0nat,
{
    match t {
        None => Seq::empty(),
        Some(x) => ids_type(x),
    }
}

/// The numbers of the nodes of an expression that may be missing.
pub open spec fn ids_opt_expr(e: Option<ExprV>) -> Seq<u32>
    decreases e, 0nat,
{
    match e {
        None => Seq::empty(),
        Some(x) => ids_expr(x),
    }
}

/// The numbers of the nodes of a generic.
pub open spec fn ids_generic(g: GenericArgV) -> Seq<u32>
    decreases g, 0nat,
{
    match g {
        GenericArgV::Type(t) => ids_type(t),
        GenericArgV::Const(e) => ids_expr(e),
    }
}

/// The numbers of the nodes below a statement.
pub open spec fn ids_stmt_kind(k: StmtKindV) -> Seq<u32>
    decreases k, 0nat,
{
    match k {
        StmtKindV::Let { ty, value, .. } => ids_opt_type(ty) + ids_expr(value),
        StmtKindV::Assign { target, value } => ids_expr(target) + ids_expr(value),
        StmtKindV::Expr(e) => ids_expr(e),
        StmtKindV::Break(value) => ids_opt_expr(value),
    }
}

/// The numbers of the nodes of a statement.
pub open spec fn ids_stmt(s: StmtV) -> Seq<u32>
    decreases s, 0nat,
{
    seq![s.id.0] + ids_stmt_kind(s.kind)
}

/// The numbers of the nodes of a block.
pub open spec fn ids_block(b: BlockV) -> Seq<u32>
    decreases b, 0nat,
{
    ids_stmts(b.stmts, b.stmts.len()) + match b.tail {
        None => Seq::empty(),
        Some(e) => ids_expr(*e),
    }
}

/// The numbers of the nodes of a parameter.
pub open spec fn ids_param(p: ParamV) -> Seq<u32>
    decreases p, 0nat,
{
    ids_opt_type(p.ty)
}

/// The numbers of the nodes of the first `n` expressions.
pub open spec fn ids_exprs(s: Seq<ExprV>, n: nat) -> Seq<u32>
    decreases s, n,
{
    if n == 0 || n > s.len() {
        Seq::empty()
    } else {
        ids_exprs(s, (n - 1) as nat) + ids_expr(s[n - 1])
    }
}

proof fn lemma_front_exprs(a: Seq<ExprV>, b: Seq<ExprV>, n: nat)
    requires
        n <= a.len(),
        n <= b.len(),
        forall|i: int| 0 <= i < n ==> a[i] == b[i],
    ensures
        ids_exprs(a, n) == ids_exprs(b, n),
    decreases n,
{
    if n > 0 {
        lemma_front_exprs(a, b, (n - 1) as nat);
    }
}

/// One more at the end adds its numbers.
pub proof fn lemma_push_exprs(s: Seq<ExprV>, x: ExprV)
    ensures
        ids_exprs(s.push(x), s.len() + 1) == ids_exprs(s, s.len()) + ids_expr(x),
{
    lemma_front_exprs(s, s.push(x), s.len());
}

/// The numbers of the nodes of the first `n` fields.
pub open spec fn ids_inits(s: Seq<(Seq<char>, ExprV)>, n: nat) -> Seq<u32>
    decreases s, n,
{
    if n == 0 || n > s.len() {
        Seq::empty()
    } else {
        ids_inits(s, (n - 1) as nat) + ids_expr(s[n - 1].1)
    }
}

proof fn lemma_front_inits(a: Seq<(Seq<char>, ExprV)>, b: Seq<(Seq<char>, ExprV)>, n: nat)
    requires
        n <= a.len(),
        n <= b.len(),
        forall|i: int| 0 <= i < n ==> a[i] == b[i],
    ensures
        ids_inits(a, n) == ids_inits(b, n),
    decreases n,
{
    if n > 0 {
        lemma_front_inits(a, b, (n - 1) as nat);
    }
}

/// One more at the end adds its numbers.
pub proof fn lemma_push_inits(s: Seq<(Seq<char>, ExprV)>, x: (Seq<char>, ExprV))
    ensures
        ids_inits(s.push(x), s.len() + 1) == ids_inits(s, s.len()) + ids_expr(x.1),
{
    lemma_front_inits(s, s.push(x), s.len());
}

/// The numbers of the nodes of the first `n` generics.
pub open spec fn ids_generics(s: Seq<GenericArgV>, n: nat) -> Seq<u32>
    decreases s, n,
{
    if n == 0 || n > s.len() {
        Seq::empty()
    } else {
        ids_generics(s, (n - 1) as nat) + ids_generic(s[n - 1])
    }
}

proof fn lemma_front_generics(a: Seq<GenericArgV>, b: Seq<GenericArgV>, n: nat)
    requires
        n <= a.len(),
        n <= b.len(),
        forall|i: int| 0 <= i < n ==> a[i] == b[i],
    ensures
        ids_generics(a, n) == ids_generics(b, n),
    decreases n,
{
    if n > 0 {
        lemma_front_generics(a, b, (n - 1) as nat);
    }
}

/// One more at the end adds its numbers.
pub proof fn lemma_push_generics(s: Seq<GenericArgV>, x: GenericArgV)
    ensures
        ids_generics(s.push(x), s.len() + 1) == ids_generics(s, s.len()) + ids_generic(x),
{
    lemma_front_generics(s, s.push(x), s.len());
}

/// The numbers of the nodes of the first `n` types.
pub open spec fn ids_types(s: Seq<TypeV>, n: nat) -> Seq<u32>
    decreases s, n,
{
    if n == 0 || n > s.len() {
        Seq::empty()
    } else {
        ids_types(s, (n - 1) as nat) + ids_type(s[n - 1])
    }
}

proof fn lemma_front_types(a: Seq<TypeV>, b: Seq<TypeV>, n: nat)
    requires
        n <= a.len(),
        n <= b.len(),
        forall|i: int| 0 <= i < n ==> a[i] == b[i],
    ensures
        ids_types(a, n) == ids_types(b, n),
    decreases n,
{
    if n > 0 {
        lemma_front_types(a, b, (n - 1) as nat);
    }
}

/// One more at the end adds its numbers.
pub proof fn lemma_push_types(s: Seq<TypeV>, x: TypeV)
    ensures
        ids_types(s.push(x), s.len() + 1) == ids_types(s, s.len()) + ids_type(x),
{
    lemma_front_types(s, s.push(x), s.len());
}

/// The numbers of the nodes of the first `n` statements.
pub open spec fn ids_stmts(s: Seq<StmtV>, n: nat) -> Seq<u32>
    decreases s, n,
{
    if n == 0 || n > s.len() {
        Seq::empty()
    } else {
        ids_stmts(s, (n - 1) as nat) + ids_stmt(s[n - 1])
    }
}

proof fn lemma_front_stmts(a: Seq<StmtV>, b: Seq<StmtV>, n: nat)
    requires
        n <= a.len(),
        n <= b.len(),
        forall|i: int| 0 <= i < n ==> a[i] == b[i],
    ensures
        ids_stmts(a, n) == ids_stmts(b, n),
    decreases n,
{
    if n > 0 {
        lemma_front_stmts(a, b, (n - 1) as nat);
    }
}

/// One more at the end adds its numbers.
pub proof fn lemma_push_stmts(s: Seq<StmtV>, x: StmtV)
    ensures
        ids_stmts(s.push(x), s.len() + 1) == ids_stmts(s, s.len()) + ids_stmt(x),
{
    lemma_front_stmts(s, s.push(x), s.len());
}

/// The numbers of the nodes of the first `n` parameters.
pub open spec fn ids_params(s: Seq<ParamV>, n: nat) -> Seq<u32>
    decreases s, n,
{
    if n == 0 || n > s.len() {
        Seq::empty()
    } else {
        ids_params(s, (n - 1) as nat) + ids_param(s[n - 1])
    }
}

proof fn lemma_front_params(a: Seq<ParamV>, b: Seq<ParamV>, n: nat)
    requires
        n <= a.len(),
        n <= b.len(),
        forall|i: int| 0 <= i < n ==> a[i] == b[i],
    ensures
        ids_params(a, n) == ids_params(b, n),
    decreases n,
{
    if n > 0 {
        lemma_front_params(a, b, (n - 1) as nat);
    }
}

/// One more at the end adds its numbers.
pub proof fn lemma_push_params(s: Seq<ParamV>, x: ParamV)
    ensures
        ids_params(s.push(x), s.len() + 1) == ids_params(s, s.len()) + ids_param(x),
{
    lemma_front_params(s, s.push(x), s.len());
}

/// Whether the numbers are different from one another and lie in a range.
pub open spec fn spread(ids: Seq<u32>, lo: int, hi: int) -> bool {
    &&& forall|i: int| 0 <= i < ids.len() ==> lo <= #[trigger] ids[i] < hi
    &&& forall|i: int, j: int|
        0 <= i < j < ids.len() ==> #[trigger] ids[i] != #[trigger] ids[j]
}

/// Whether the numbers are different from one another and lie among the `n` numbers
/// from `id` on, and `next` is the one after these, as long as the numbers last.
pub open spec fn numbered_from(ids: Seq<u32>, id: u32, n: nat, next: u32) -> bool {
    id + n <= u32::MAX ==> next == id + n && spread(ids, id as int, id + n)
}

/// Numbers from one range and numbers from the next.
pub proof fn lemma_join(
    a: Seq<u32>,
    id: u32,
    n: nat,
    mid: u32,
    b: Seq<u32>,
    k: nat,
    next: u32,
)
    requires
        numbered_from(a, id, n, mid),
        numbered_from(b, mid, k, next),
    ensures
        numbered_from(a + b, id, n + k, next),
        numbered_from(b + a, id, n + k, next),
{
    if id + n + k <= u32::MAX {
        let s = a + b;
        assert forall|i: int| 0 <= i < s.len() implies id <= #[trigger] s[i] < id + n + k by {
            if i < a.len() {
                assert(s[i] == a[i]);
            } else {
                assert(s[i] == b[i - a.len()]);
            }
        }
        assert forall|i: int, j: int| 0 <= i < j < s.len() implies #[trigger] s[i]
            != #[trigger] s[j] by {
            if j < a.len() {
                assert(s[i] == a[i] && s[j] == a[j]);
            } else if i < a.len() {
                assert(s[i] == a[i] && s[j] == b[j - a.len()]);
            } else {
                assert(s[i] == b[i - a.len()] && s[j] == b[j - a.len()]);
            }
        }
        let r = b + a;
        assert forall|i: int| 0 <= i < r.len() implies id <= #[trigger] r[i] < id + n + k by {
            if i < b.len() {
                assert(r[i] == b[i]);
            } else {
                assert(r[i] == a[i - b.len()]);
            }
        }
        assert forall|i: int, j: int| 0 <= i < j < r.len() implies #[trigger] r[i]
            != #[trigger] r[j] by {
            if j < b.len() {
                assert(r[i] == b[i] && r[j] == b[j]);
            } else if i < b.len() {
                assert(r[i] == b[i] && r[j] == a[j - b.len()]);
            } else {
                assert(r[i] == a[i - b.len()] && r[j] == a[j - b.len()]);
            }
        }
    }
}

/// Numbers, and the next one for a node above them.
pub proof fn lemma_node(parts: Seq<u32>, id: u32, n: nat, mid: u32)
    requires
        numbered_from(parts, id, n, mid),
    ensures
        numbered_from(seq![mid] + parts, id, n + 1, crate::ast::following(mid)),
{
    if id + n + 1 <= u32::MAX {
        assert(spread(seq![mid], mid as int, mid + 1));
        lemma_join(parts, id, n, mid, seq![mid], 1, crate::ast::following(mid));
    }
}

/// Numbers of which some at the start or at the end are left out.
pub proof fn lemma_leave_out(a: Seq<u32>, b: Seq<u32>, id: u32, n: nat, next: u32)
    requires
        numbered_from(a + b, id, n, next),
    ensures
        numbered_from(a, id, n, next),
        numbered_from(b, id, n, next),
{
    if id + n <= u32::MAX {
        let s = a + b;
        assert forall|i: int| 0 <= i < a.len() implies id <= #[trigger] a[i] < id + n by {
            assert(s[i] == a[i]);
        }
        assert forall|i: int, j: int| 0 <= i < j < a.len() implies #[trigger] a[i]
            != #[trigger] a[j] by {
            assert(s[i] == a[i] && s[j] == a[j]);
        }
        assert forall|i: int| 0 <= i < b.len() implies id <= #[trigger] b[i] < id + n by {
            assert(s[i + a.len()] == b[i]);
        }
        assert forall|i: int, j: int| 0 <= i < j < b.len() implies #[trigger] b[i]
            != #[trigger] b[j] by {
            assert(s[i + a.len()] == b[i] && s[j + a.len()] == b[j]);
        }
    }
}

/// The order of two groups of numbers makes no difference.
pub proof fn lemma_exchange(a: Seq<u32>, b: Seq<u32>, c: Seq<u32>, id: u32, n: nat, next: u32)
    requires
        numbered_from(a + (b + c), id, n, next),
    ensures
        numbered_from((a + c) + b, id, n, next),
{
    if id + n <= u32::MAX {
        let s = a + (b + c);
        let r = (a + c) + b;
        let from = |i: int|
            if i < a.len() {
                i
            } else if i < a.len() + c.len() {
                i + b.len()
            } else {
                i - c.len()
            };
        assert forall|i: int| 0 <= i < r.len() implies #[trigger] r[i] == s[from(i)] && 0 <= from(
            i,
        ) < s.len() by {}
        assert forall|i: int, j: int| 0 <= i < j < r.len() implies #[trigger] r[i]
            != #[trigger] r[j] by {
            assert(r[i] == s[from(i)] && r[j] == s[from(j)]);
            assert(from(i) != from(j));
            if from(i) < from(j) {
                assert(s[from(i)] != s[from(j)]);
            } else {
                assert(s[from(j)] != s[from(i)]);
            }
        }
        assert forall|i: int| 0 <= i < r.len() implies id <= #[trigger] r[i] < id + n by {
            assert(r[i] == s[from(i)]);
        }
    }
}

/// No numbers.
pub proof fn lemma_no_numbers(id: u32)
    ensures
        numbered_from(Seq::empty(), id, 0, id),
{
}

} // verus!
