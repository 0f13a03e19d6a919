//! What holds of the escape analysis as a whole.

use vstd::prelude::*;

use crate::cps::{CExprV, CFunDefV, CTopLevelFnV};
use crate::escape::{
    escaping_in, escaping_in_first, escaping_of, free_of_locals, jump_path, jumps_to, leads_to,
    live_at_any_app, settled_free, used_through, LocalsV,
};

verus! {

/// The struct constructions of an expression: the variable that each binds, and
/// the expression that follows it.
pub open spec fn struct_scopes(e: CExprV) -> Set<(u32, CExprV)>
    decreases e, 0nat,
{
    match e {
        CExprV::LetPrim { var, op, cont, .. } => if op is Struct {
            struct_scopes(*cont).insert((var, *cont))
        } else {
            struct_scopes(*cont)
        },
        CExprV::App { .. } => Set::empty(),
        CExprV::If { then_branch, else_branch, .. } => struct_scopes(*then_branch).union(
            struct_scopes(*else_branch),
        ),
        CExprV::Fix { defs, body } => struct_scopes_first(defs, defs.len()).union(
            struct_scopes(*body),
        ),
    }
}

pub open spec fn struct_scopes_first(defs: Seq<CFunDefV>, n: nat) -> Set<(u32, CExprV)>
    decreases defs, n,
{
    if n == 0 || n > defs.len() {
        Set::empty()
    } else {
        struct_scopes_first(defs, (n - 1) as nat).union(struct_scopes(defs[n - 1].body))
    }
}

/// Whether some struct construction among the scopes binds the variable and the
/// variable is live at some jump after it.
pub open spec fn outlives_a_jump(
    v: u32,
    scopes: Set<(u32, CExprV)>,
    free: Map<Seq<char>, Set<u32>>,
) -> bool {
    exists|scope: CExprV| #[trigger] scopes.contains((v, scope)) && live_at_any_app(v, scope, free)
}

proof fn lemma_outlives_union(
    v: u32,
    a: Set<(u32, CExprV)>,
    b: Set<(u32, CExprV)>,
    free: Map<Seq<char>, Set<u32>>,
)
    ensures
        outlives_a_jump(v, a.union(b), free) <==> outlives_a_jump(v, a, free) || outlives_a_jump(
            v,
            b,
            free,
        ),
{
    if outlives_a_jump(v, a, free) {
        let scope = choose|scope: CExprV| #[trigger]
            a.contains((v, scope)) && live_at_any_app(v, scope, free);
        assert(a.union(b).contains((v, scope)));
    }
    if outlives_a_jump(v, b, free) {
        let scope = choose|scope: CExprV| #[trigger]
            b.contains((v, scope)) && live_at_any_app(v, scope, free);
        assert(a.union(b).contains((v, scope)));
    }
    if outlives_a_jump(v, a.union(b), free) {
        let scope = choose|scope: CExprV| #[trigger]
            a.union(b).contains((v, scope)) && live_at_any_app(v, scope, free);
        assert(a.contains((v, scope)) || b.contains((v, scope)));
    }
}

/// A variable escapes if and only if a struct construction binds it and it is live
/// at some jump that follows that binding.
pub proof fn lemma_escaping_iff(e: CExprV, free: Map<Seq<char>, Set<u32>>, v: u32)
    ensures
        escaping_in(e, free).contains(v) <==> outlives_a_jump(v, struct_scopes(e), free),
    decreases e, 0nat,
{
    match e {
        CExprV::LetPrim { var, op, cont, .. } => {
            lemma_escaping_iff(*cont, free, v);
            if op is Struct {
                let one = set![(var, *cont)];
                lemma_outlives_union(v, struct_scopes(*cont), one, free);
                assert(struct_scopes(*cont).union(one) =~= struct_scopes(e));
                if v == var && live_at_any_app(var, *cont, free) {
                    assert(one.contains((v, *cont)));
                    assert(outlives_a_jump(v, one, free));
                }
                if outlives_a_jump(v, one, free) {
                    let scope = choose|scope: CExprV| #[trigger]
                        one.contains((v, scope)) && live_at_any_app(v, scope, free);
                    assert((v, scope) == (var, *cont));
                }
            }
        },
        CExprV::App { .. } => {
            if outlives_a_jump(v, struct_scopes(e), free) {
                let scope = choose|scope: CExprV| #[trigger]
                    struct_scopes(e).contains((v, scope)) && live_at_any_app(v, scope, free);
                assert(false);
            }
        },
        CExprV::If { then_branch, else_branch, .. } => {
            lemma_escaping_iff(*then_branch, free, v);
            lemma_escaping_iff(*else_branch, free, v);
            lemma_outlives_union(v, struct_scopes(*then_branch), struct_scopes(*else_branch), free);
        },
        CExprV::Fix { defs, body } => {
            lemma_escaping_first_iff(defs, defs.len(), free, v);
            lemma_escaping_iff(*body, free, v);
            lemma_outlives_union(
                v,
                struct_scopes_first(defs, defs.len()),
                struct_scopes(*body),
                free,
            );
        },
    }
}

proof fn lemma_escaping_first_iff(
    defs: Seq<CFunDefV>,
    n: nat,
    free: Map<Seq<char>, Set<u32>>,
    v: u32,
)
    ensures
        escaping_in_first(defs, n, free).contains(v) <==> outlives_a_jump(
            v,
            struct_scopes_first(defs, n),
            free,
        ),
    decreases defs, n,
{
    if n == 0 || n > defs.len() {
        if outlives_a_jump(v, struct_scopes_first(defs, n), free) {
            let scope = choose|scope: CExprV| #[trigger]
                struct_scopes_first(defs, n).contains((v, scope)) && live_at_any_app(
                    v,
                    scope,
                    free,
                );
            assert(false);
        }
    } else {
        lemma_escaping_first_iff(defs, (n - 1) as nat, free, v);
        lemma_escaping_iff(defs[n - 1].body, free, v);
        lemma_outlives_union(
            v,
            struct_scopes_first(defs, (n - 1) as nat),
            struct_scopes(defs[n - 1].body),
            free,
        );
    }
}

/// A variable of a program escapes if and only if, in some function of it, a struct
/// construction binds the variable and it is live at a jump that follows.
pub proof fn lemma_escaping_of_iff(funcs: Seq<CTopLevelFnV>, v: u32)
    ensures
        escaping_of(funcs).contains(v) <==> exists|i: int|
            0 <= i < funcs.len() && outlives_a_jump(
                v,
                struct_scopes((#[trigger] funcs[i]).def.body),
                free_of_locals(funcs[i].def.body),
            ),
    decreases funcs.len(),
{
    if funcs.len() > 0 {
        let most = funcs.drop_last();
        let last = funcs.last().def.body;
        lemma_escaping_of_iff(most, v);
        lemma_escaping_iff(last, free_of_locals(last), v);
        if escaping_of(most).contains(v) {
            let i = choose|i: int|
                0 <= i < most.len() && outlives_a_jump(
                    v,
                    struct_scopes((#[trigger] most[i]).def.body),
                    free_of_locals(most[i].def.body),
                );
            assert(funcs[i] == most[i]);
        }
        if escaping_in(last, free_of_locals(last)).contains(v) {
            assert(funcs[funcs.len() - 1].def.body == last);
        }
        if exists|i: int|
            0 <= i < funcs.len() && outlives_a_jump(
                v,
                struct_scopes((#[trigger] funcs[i]).def.body),
                free_of_locals(funcs[i].def.body),
            ) {
            let i = choose|i: int|
                0 <= i < funcs.len() && outlives_a_jump(
                    v,
                    struct_scopes((#[trigger] funcs[i]).def.body),
                    free_of_locals(funcs[i].def.body),
                );
            if i < most.len() {
                assert(most[i] == funcs[i]);
            }
        }
    }
}

/// What a continuation itself uses is among what it uses through its jumps.
pub proof fn lemma_settled_keeps_own(st: LocalsV, name: Seq<char>)
    requires
        st.free.contains_key(name),
    ensures
        st.free[name].subset_of(settled_free(st)[name]),
{
    assert forall|v: u32| st.free[name].contains(v) implies settled_free(st)[name].contains(v) by {
        let p = seq![name];
        assert(jump_path(st, name, p));
        assert(p.last() == name);
        assert(leads_to(st, name, name));
    }
}

/// What a continuation uses holds what every continuation that it jumps to uses.
pub proof fn lemma_settled_is_closed(st: LocalsV, a: Seq<char>, b: Seq<char>)
    requires
        st.free.contains_key(a),
        jumps_to(st, a, b),
    ensures
        settled_free(st)[b].subset_of(settled_free(st)[a]),
{
    assert forall|v: u32| settled_free(st)[b].contains(v) implies settled_free(st)[a].contains(
        v,
    ) by {
        let to = choose|to: Seq<char>| #[trigger]
            leads_to(st, b, to) && st.free.contains_key(to) && st.free[to].contains(v);
        let p = choose|p: Seq<Seq<char>>| #[trigger] jump_path(st, b, p) && p.last() == to;
        let q = seq![a] + p;
        assert forall|i: int| 0 <= i < q.len() - 1 implies #[trigger] jumps_to(
            st,
            q[i],
            q[i + 1],
        ) by {
            if i > 0 {
                assert(q[i] == p[i - 1]);
                assert(q[i + 1] == p[(i - 1) + 1]);
                assert(jumps_to(st, p[i - 1], p[(i - 1) + 1]));
            }
        }
        assert(jump_path(st, a, q));
        assert(q.last() == to);
        assert(leads_to(st, a, to));
        assert(used_through(st, a).contains(v));
    }
}

/// Of all the assignments of variables to continuations that hold what each
/// continuation itself uses, and what those that it jumps to are assigned, the
/// analysis finds the smallest.
pub proof fn lemma_settled_is_least(
    st: LocalsV,
    other: Map<Seq<char>, Set<u32>>,
    name: Seq<char>,
)
    requires
        st.free.contains_key(name),
        forall|n: Seq<char>| #[trigger]
            st.free.contains_key(n) ==> other.contains_key(n) && st.free[n].subset_of(other[n]),
        forall|a: Seq<char>, b: Seq<char>|
            st.free.contains_key(a) && #[trigger] jumps_to(st, a, b) ==> other[b].subset_of(
                other[a],
            ),
    ensures
        settled_free(st)[name].subset_of(other[name]),
{
    assert forall|v: u32| settled_free(st)[name].contains(v) implies other[name].contains(v) by {
        let to = choose|to: Seq<char>| #[trigger]
            leads_to(st, name, to) && st.free.contains_key(to) && st.free[to].contains(v);
        let p = choose|p: Seq<Seq<char>>| #[trigger] jump_path(st, name, p) && p.last() == to;
        lemma_passed_back(st, other, name, p, v, (p.len() - 1) as nat);
    }
}

proof fn lemma_passed_back(
    st: LocalsV,
    other: Map<Seq<char>, Set<u32>>,
    name: Seq<char>,
    p: Seq<Seq<char>>,
    v: u32,
    k: nat,
)
    requires
        st.free.contains_key(name),
        jump_path(st, name, p),
        k < p.len(),
        other[p[k as int]].contains(v),
        forall|a: Seq<char>, b: Seq<char>|
            st.free.contains_key(a) && #[trigger] jumps_to(st, a, b) ==> other[b].subset_of(
                other[a],
            ),
    ensures
        other[name].contains(v),
    decreases k,
{
    if k > 0 {
        assert(jumps_to(st, p[k - 1], p[(k - 1) + 1]));
        if k > 1 {
            assert(jumps_to(st, p[k - 2], p[(k - 2) + 1]));
        }
        lemma_passed_back(st, other, name, p, v, (k - 1) as nat);
    }
}

} // verus!
