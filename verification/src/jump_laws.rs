//! What escapes, told by the jumps that stand in a function.

use vstd::prelude::*;

use crate::cps::{CExprV, CFunDefV, CTopLevelFnV, CValV};
use crate::escape::{
    bound_in, bound_in_first, called_in, called_in_first, escaping_in, escaping_in_first,
    escaping_of, free_of_locals, jump_path, jumps_to, leads_to, live_at, live_at_any_app,
    live_in_first, live_through, locals_in, locals_in_first, no_locals, own_free, used_through,
    LocalsV,
};
use crate::inside::{
    anywhere, anywhere_first, binds, builds, defines, goes_to, lemma_anywhere,
    lemma_anywhere_first, mentions,
};
use crate::vars::{referenced_in, referenced_in_first, vars_of};

verus! {

// ---- what is bound, used and jumped to ----

pub open spec fn binding(v: u32) -> spec_fn(CExprV) -> bool {
    |f: CExprV| binds(f, v)
}

pub open spec fn mentioning(v: u32) -> spec_fn(CExprV) -> bool {
    |f: CExprV| mentions(f, CValV::Var(v))
}

pub open spec fn going_to(name: Seq<char>) -> spec_fn(CExprV) -> bool {
    |f: CExprV| goes_to(f, name)
}

/// An expression binds a variable if and only if some expression in it does.
pub proof fn lemma_bound_anywhere(e: CExprV, v: u32)
    ensures
        bound_in(e).contains(v) <==> anywhere(e, binding(v)),
    decreases e, 0nat,
{
    lemma_anywhere(e, binding(v));
    match e {
        CExprV::LetPrim { cont, .. } => lemma_bound_anywhere(*cont, v),
        CExprV::App { .. } => {},
        CExprV::If { then_branch, else_branch, .. } => {
            lemma_bound_anywhere(*then_branch, v);
            lemma_bound_anywhere(*else_branch, v);
        },
        CExprV::Fix { defs, body } => {
            lemma_bound_first(defs, defs.len(), v);
            lemma_bound_anywhere(*body, v);
            assert(binds(e, v) <==> param_first(defs, defs.len(), v));
        },
    }
}

spec fn param_first(defs: Seq<CFunDefV>, n: nat, v: u32) -> bool {
    exists|i: int| 0 <= i < n && i < defs.len() && (#[trigger] defs[i]).params.contains(v)
}

proof fn lemma_bound_first(defs: Seq<CFunDefV>, n: nat, v: u32)
    requires
        n <= defs.len(),
    ensures
        bound_in_first(defs, n).contains(v) <==> param_first(defs, n, v) || anywhere_first(
            defs,
            n,
            binding(v),
        ),
    decreases defs, n,
{
    if n > 0 {
        let m = (n - 1) as nat;
        lemma_bound_first(defs, m, v);
        lemma_bound_anywhere(defs[n - 1].body, v);
        lemma_anywhere_first(defs, n, binding(v));
        if param_first(defs, n, v) {
            let i = choose|i: int|
                0 <= i < n && i < defs.len() && (#[trigger] defs[i]).params.contains(v);
            if i < n - 1 {
                assert(0 <= i < m && defs[i].params.contains(v));
            }
        }
        if param_first(defs, m, v) {
            let i = choose|i: int|
                0 <= i < m && i < defs.len() && (#[trigger] defs[i]).params.contains(v);
            assert(0 <= i < n && defs[i].params.contains(v));
        }
        if defs[n - 1].params.contains(v) {
            assert(0 <= n - 1 < n && defs[n - 1].params.contains(v));
        }
        assert(defs[n - 1].params.to_set().contains(v) <==> defs[n - 1].params.contains(v));
    }
}

/// An expression uses a variable if and only if some expression in it mentions the variable.
pub proof fn lemma_used_anywhere(e: CExprV, v: u32)
    ensures
        referenced_in(e).contains(v) <==> anywhere(e, mentioning(v)),
    decreases e, 0nat,
{
    lemma_anywhere(e, mentioning(v));
    match e {
        CExprV::LetPrim { cont, .. } => lemma_used_anywhere(*cont, v),
        CExprV::App { func, args } => {
            lemma_one_var(func, v);
        },
        CExprV::If { cond, then_branch, else_branch } => {
            lemma_one_var(cond, v);
            lemma_used_anywhere(*then_branch, v);
            lemma_used_anywhere(*else_branch, v);
        },
        CExprV::Fix { defs, body } => {
            lemma_used_first(defs, defs.len(), v);
            lemma_used_anywhere(*body, v);
        },
    }
}

proof fn lemma_one_var(x: CValV, v: u32)
    ensures
        vars_of(seq![x]).contains(v) <==> x == CValV::Var(v),
{
    if x == CValV::Var(v) {
        assert(seq![x][0] == CValV::Var(v));
    }
}

proof fn lemma_used_first(defs: Seq<CFunDefV>, n: nat, v: u32)
    requires
        n <= defs.len(),
    ensures
        referenced_in_first(defs, n).contains(v) <==> anywhere_first(defs, n, mentioning(v)),
    decreases defs, n,
{
    if n > 0 {
        lemma_used_first(defs, (n - 1) as nat, v);
        lemma_used_anywhere(defs[n - 1].body, v);
        lemma_anywhere_first(defs, n, mentioning(v));
    }
}

/// An expression jumps to a label if and only if some jump in it does.
pub proof fn lemma_called_anywhere(e: CExprV, name: Seq<char>)
    ensures
        called_in(e).contains(name) <==> anywhere(e, going_to(name)),
    decreases e, 0nat,
{
    lemma_anywhere(e, going_to(name));
    match e {
        CExprV::LetPrim { cont, .. } => lemma_called_anywhere(*cont, name),
        CExprV::App { func, .. } => {
            assert(set![name].contains(name));
        },
        CExprV::If { then_branch, else_branch, .. } => {
            lemma_called_anywhere(*then_branch, name);
            lemma_called_anywhere(*else_branch, name);
        },
        CExprV::Fix { defs, body } => {
            lemma_called_first(defs, defs.len(), name);
            lemma_called_anywhere(*body, name);
        },
    }
}

proof fn lemma_called_first(defs: Seq<CFunDefV>, n: nat, name: Seq<char>)
    requires
        n <= defs.len(),
    ensures
        called_in_first(defs, n).contains(name) <==> anywhere_first(defs, n, going_to(name)),
    decreases defs, n,
{
    if n > 0 {
        lemma_called_first(defs, (n - 1) as nat, name);
        lemma_called_anywhere(defs[n - 1].body, name);
        lemma_anywhere_first(defs, n, going_to(name));
    }
}

// ---- what is live at jumps ----

/// Whether a label that is mentioned needs the variable.
pub open spec fn label_keeps(
    f: CExprV,
    name: Seq<char>,
    v: u32,
    free: Map<Seq<char>, Set<u32>>,
) -> bool {
    mentions(f, CValV::Label(name)) && free.contains_key(name) && free[name].contains(v)
}

/// Whether a jump passes a variable on, or mentions a continuation that uses it.
pub open spec fn jump_keeps(f: CExprV, v: u32, free: Map<Seq<char>, Set<u32>>) -> bool {
    f is App && (mentions(f, CValV::Var(v)) || exists|name: Seq<char>| #[trigger]
        label_keeps(f, name, v, free))
}

pub open spec fn keeping(v: u32, free: Map<Seq<char>, Set<u32>>) -> spec_fn(CExprV) -> bool {
    |f: CExprV| jump_keeps(f, v, free)
}

proof fn lemma_keeps_value(
    f: CExprV,
    x: CValV,
    v: u32,
    free: Map<Seq<char>, Set<u32>>,
)
    requires
        f is App,
        mentions(f, x),
        live_through(v, x, free),
    ensures
        jump_keeps(f, v, free),
{
    match x {
        CValV::Label(name) => {
            assert(label_keeps(f, name, v, free));
        },
        _ => {},
    }
}

proof fn lemma_jump_keeps(func: CValV, args: Seq<CValV>, v: u32, free: Map<Seq<char>, Set<u32>>)
    ensures
        live_at(v, func, args, free) <==> jump_keeps(CExprV::App { func, args }, v, free),
{
    let f = CExprV::App { func, args };
    if live_at(v, func, args, free) {
        if live_through(v, func, free) {
            lemma_keeps_value(f, func, v, free);
        } else {
            let i = choose|i: int|
                0 <= i < args.len() && live_through(v, #[trigger] args[i], free);
            assert(args.contains(args[i]));
            lemma_keeps_value(f, args[i], v, free);
        }
    }
    if jump_keeps(f, v, free) {
        let x = if mentions(f, CValV::Var(v)) {
            CValV::Var(v)
        } else {
            CValV::Label(choose|name: Seq<char>| #[trigger] label_keeps(f, name, v, free))
        };
        assert(live_through(v, x, free));
        if func != x {
            let i = choose|i: int| 0 <= i < args.len() && args[i] == x;
            assert(live_through(v, args[i], free));
        }
    }
}

/// A variable is live at some jump of an expression if and only if a jump stands in it, at any
/// depth, that passes the variable on or mentions a continuation that uses it.
pub proof fn lemma_live_anywhere(e: CExprV, v: u32, free: Map<Seq<char>, Set<u32>>)
    ensures
        live_at_any_app(v, e, free) <==> anywhere(e, keeping(v, free)),
    decreases e, 0nat,
{
    lemma_anywhere(e, keeping(v, free));
    match e {
        CExprV::LetPrim { cont, .. } => lemma_live_anywhere(*cont, v, free),
        CExprV::App { func, args } => lemma_jump_keeps(func, args, v, free),
        CExprV::If { then_branch, else_branch, .. } => {
            lemma_live_anywhere(*then_branch, v, free);
            lemma_live_anywhere(*else_branch, v, free);
        },
        CExprV::Fix { defs, body } => {
            lemma_live_first(defs, defs.len(), v, free);
            lemma_live_anywhere(*body, v, free);
        },
    }
}

proof fn lemma_live_first(defs: Seq<CFunDefV>, n: nat, v: u32, free: Map<Seq<char>, Set<u32>>)
    requires
        n <= defs.len(),
    ensures
        live_in_first(v, defs, n, free) <==> anywhere_first(defs, n, keeping(v, free)),
    decreases defs, n,
{
    if n > 0 {
        lemma_live_first(defs, (n - 1) as nat, v, free);
        lemma_live_anywhere(defs[n - 1].body, v, free);
        lemma_anywhere_first(defs, n, keeping(v, free));
    }
}

// ---- what escapes ----

/// Whether an expression builds a struct, binds it to a variable, and holds after that a jump
/// that keeps the variable.
pub open spec fn outlived(f: CExprV, v: u32, free: Map<Seq<char>, Set<u32>>) -> bool {
    builds(f, v) && (f matches CExprV::LetPrim { cont, .. } && anywhere(*cont, keeping(v, free)))
}

pub open spec fn outliving(v: u32, free: Map<Seq<char>, Set<u32>>) -> spec_fn(CExprV) -> bool {
    |f: CExprV| outlived(f, v, free)
}

/// A variable of an expression escapes if and only if the expression holds, at any depth, the
/// construction of a struct that is bound to the variable, and after it a jump that keeps it.
pub proof fn lemma_escapes_anywhere(e: CExprV, v: u32, free: Map<Seq<char>, Set<u32>>)
    ensures
        escaping_in(e, free).contains(v) <==> anywhere(e, outliving(v, free)),
    decreases e, 0nat,
{
    lemma_anywhere(e, outliving(v, free));
    match e {
        CExprV::LetPrim { var, cont, .. } => {
            lemma_escapes_anywhere(*cont, v, free);
            lemma_live_anywhere(*cont, var, free);
        },
        CExprV::App { .. } => {},
        CExprV::If { then_branch, else_branch, .. } => {
            lemma_escapes_anywhere(*then_branch, v, free);
            lemma_escapes_anywhere(*else_branch, v, free);
        },
        CExprV::Fix { defs, body } => {
            lemma_escapes_first(defs, defs.len(), v, free);
            lemma_escapes_anywhere(*body, v, free);
        },
    }
}

proof fn lemma_escapes_first(defs: Seq<CFunDefV>, n: nat, v: u32, free: Map<Seq<char>, Set<u32>>)
    requires
        n <= defs.len(),
    ensures
        escaping_in_first(defs, n, free).contains(v) <==> anywhere_first(
            defs,
            n,
            outliving(v, free),
        ),
    decreases defs, n,
{
    if n > 0 {
        lemma_escapes_first(defs, (n - 1) as nat, v, free);
        lemma_escapes_anywhere(defs[n - 1].body, v, free);
        lemma_anywhere_first(defs, n, outliving(v, free));
    }
}

// ---- continuations ----

pub open spec fn defining(d: CFunDefV) -> spec_fn(CExprV) -> bool {
    |f: CExprV| defines(f, d)
}

/// Whether a continuation stands in an expression, at any depth.
pub open spec fn local_in(e: CExprV, d: CFunDefV) -> bool {
    anywhere(e, defining(d))
}

/// Whether a continuation of the name stands in an expression.
pub open spec fn named_in(e: CExprV, n: Seq<char>) -> bool {
    exists|d: CFunDefV| #[trigger] local_in(e, d) && d.name == n
}

/// Whether no two continuations of an expression have the same name.
pub open spec fn named_apart(e: CExprV) -> bool {
    forall|a: CFunDefV, b: CFunDefV| #[trigger]
        local_in(e, a) && #[trigger] local_in(e, b) && a.name == b.name ==> a == b
}

/// Whether a continuation itself uses a variable of its surroundings: something in its body
/// mentions the variable, and neither it nor anything in its body binds it.
pub open spec fn takes(d: CFunDefV, v: u32) -> bool {
    anywhere(d.body, mentioning(v)) && !d.params.contains(v) && !anywhere(d.body, binding(v))
}

/// What a continuation itself uses of its surroundings is what is mentioned in it and bound
/// nowhere in it.
pub proof fn lemma_own_free(d: CFunDefV, v: u32)
    ensures
        own_free(d).contains(v) <==> takes(d, v),
{
    lemma_used_anywhere(d.body, v);
    lemma_bound_anywhere(d.body, v);
    assert(d.params.to_set().contains(v) <==> d.params.contains(v));
}

spec fn told_of(r: LocalsV, d: CFunDefV) -> bool {
    &&& r.free.contains_key(d.name)
    &&& r.free[d.name] == own_free(d)
    &&& r.calls.contains_key(d.name)
    &&& r.calls[d.name] == called_in(d.body)
}

spec fn same_of(st: LocalsV, r: LocalsV, n: Seq<char>) -> bool {
    &&& r.free.contains_key(n) == st.free.contains_key(n)
    &&& r.free[n] == st.free[n]
    &&& r.calls.contains_key(n) == st.calls.contains_key(n)
    &&& r.calls[n] == st.calls[n]
}

/// Whether what is known of a name is what some continuation of the name gives.
spec fn found_in(e: CExprV, n: Seq<char>, r: LocalsV) -> bool {
    exists|d: CFunDefV| #[trigger] local_in(e, d) && d.name == n && told_of(r, d)
}

spec fn first_in(defs: Seq<CFunDefV>, k: nat, d: CFunDefV) -> bool {
    anywhere_first(defs, k, defining(d)) || exists|i: int|
        0 <= i < k && i < defs.len() && #[trigger] defs[i] == d
}

spec fn found_first(defs: Seq<CFunDefV>, k: nat, n: Seq<char>, r: LocalsV) -> bool {
    exists|d: CFunDefV| #[trigger] first_in(defs, k, d) && d.name == n && told_of(r, d)
}

spec fn named_first(defs: Seq<CFunDefV>, k: nat, n: Seq<char>) -> bool {
    exists|d: CFunDefV| #[trigger] first_in(defs, k, d) && d.name == n
}

proof fn lemma_locals(e: CExprV, st: LocalsV, n: Seq<char>)
    ensures
        found_in(e, n, locals_in(e, st)) || (!named_in(e, n) && same_of(st, locals_in(e, st), n)),
    decreases e, 0nat,
{
    let r = locals_in(e, st);
    assert forall|d: CFunDefV| true implies (#[trigger] local_in(e, d) <==> defines(e, d)
        || match e {
        CExprV::LetPrim { cont, .. } => local_in(*cont, d),
        CExprV::App { .. } => false,
        CExprV::If { then_branch, else_branch, .. } => local_in(*then_branch, d) || local_in(
            *else_branch,
            d,
        ),
        CExprV::Fix { defs, body } => anywhere_first(defs, defs.len(), defining(d)) || local_in(
            *body,
            d,
        ),
    }) by {
        lemma_anywhere(e, defining(d));
    }
    match e {
        CExprV::LetPrim { cont, .. } => {
            lemma_locals(*cont, st, n);
            if found_in(*cont, n, r) {
                let d = choose|d: CFunDefV| #[trigger]
                    local_in(*cont, d) && d.name == n && told_of(r, d);
                assert(local_in(e, d));
            } else if named_in(e, n) {
                let d = choose|d: CFunDefV| #[trigger] local_in(e, d) && d.name == n;
                assert(local_in(*cont, d));
            }
        },
        CExprV::App { .. } => {},
        CExprV::If { then_branch, else_branch, .. } => {
            let r1 = locals_in(*then_branch, st);
            lemma_locals(*then_branch, st, n);
            lemma_locals(*else_branch, r1, n);
            if found_in(*else_branch, n, r) {
                let d = choose|d: CFunDefV| #[trigger]
                    local_in(*else_branch, d) && d.name == n && told_of(r, d);
                assert(local_in(e, d));
            } else if found_in(*then_branch, n, r1) {
                let d = choose|d: CFunDefV| #[trigger]
                    local_in(*then_branch, d) && d.name == n && told_of(r1, d);
                assert(local_in(e, d) && told_of(r, d));
            } else if named_in(e, n) {
                let d = choose|d: CFunDefV| #[trigger] local_in(e, d) && d.name == n;
                assert(local_in(*then_branch, d) || local_in(*else_branch, d));
            }
        },
        CExprV::Fix { defs, body } => {
            let r1 = locals_in_first(defs, defs.len(), st);
            lemma_locals_first(defs, defs.len(), st, n);
            lemma_locals(*body, r1, n);
            assert forall|d: CFunDefV| true implies (#[trigger] first_in(defs, defs.len(), d)
                <==> anywhere_first(defs, defs.len(), defining(d)) || defines(e, d)) by {
                if defines(e, d) {
                    let i = choose|i: int| 0 <= i < defs.len() && defs[i] == d;
                    assert(defs[i] == d);
                }
            }
            if found_in(*body, n, r) {
                let d = choose|d: CFunDefV| #[trigger]
                    local_in(*body, d) && d.name == n && told_of(r, d);
                assert(local_in(e, d));
            } else if found_first(defs, defs.len(), n, r1) {
                let d = choose|d: CFunDefV| #[trigger]
                    first_in(defs, defs.len(), d) && d.name == n && told_of(r1, d);
                assert(local_in(e, d) && told_of(r, d));
            } else if named_in(e, n) {
                let d = choose|d: CFunDefV| #[trigger] local_in(e, d) && d.name == n;
                assert(first_in(defs, defs.len(), d) || local_in(*body, d));
            }
        },
    }
}

proof fn lemma_locals_first(defs: Seq<CFunDefV>, k: nat, st: LocalsV, n: Seq<char>)
    requires
        k <= defs.len(),
    ensures
        found_first(defs, k, n, locals_in_first(defs, k, st)) || (!named_first(defs, k, n)
            && same_of(st, locals_in_first(defs, k, st), n)),
    decreases defs, k,
{
    if k > 0 {
        let m = (k - 1) as nat;
        let own = defs[k - 1];
        let before = locals_in_first(defs, m, st);
        let mid = LocalsV {
            free: before.free.insert(own.name, own_free(own)),
            calls: before.calls.insert(own.name, called_in(own.body)),
        };
        let r = locals_in_first(defs, k, st);
        lemma_locals_first(defs, m, st, n);
        lemma_locals(own.body, mid, n);
        assert forall|d: CFunDefV| true implies (#[trigger] first_in(defs, k, d) <==> first_in(
            defs,
            m,
            d,
        ) || d == own || local_in(own.body, d)) by {
            lemma_anywhere_first(defs, k, defining(d));
            if d == own {
                assert(defs[k - 1] == d);
            }
            if exists|i: int| 0 <= i < m && i < defs.len() && #[trigger] defs[i] == d {
                let i = choose|i: int| 0 <= i < m && i < defs.len() && #[trigger] defs[i] == d;
                assert(0 <= i < k && defs[i] == d);
            }
            if exists|i: int| 0 <= i < k && i < defs.len() && #[trigger] defs[i] == d {
                let i = choose|i: int| 0 <= i < k && i < defs.len() && #[trigger] defs[i] == d;
                assert(i < m ==> 0 <= i < m && defs[i] == d);
            }
        }
        if found_in(own.body, n, r) {
            let d = choose|d: CFunDefV| #[trigger]
                local_in(own.body, d) && d.name == n && told_of(r, d);
            assert(first_in(defs, k, d));
        } else if n == own.name {
            assert(first_in(defs, k, own) && told_of(r, own));
        } else if found_first(defs, m, n, before) {
            let d = choose|d: CFunDefV| #[trigger]
                first_in(defs, m, d) && d.name == n && told_of(before, d);
            assert(first_in(defs, k, d) && told_of(r, d));
        } else if named_first(defs, k, n) {
            let d = choose|d: CFunDefV| #[trigger] first_in(defs, k, d) && d.name == n;
            assert(first_in(defs, m, d) || local_in(own.body, d));
        }
    }
}

/// Whether continuations of an expression lead from the name to one that uses the variable,
/// each holding a jump to the next.
pub open spec fn hands_on(e: CExprV, n: Seq<char>, p: Seq<CFunDefV>, v: u32) -> bool {
    &&& p.len() > 0
    &&& p[0].name == n
    &&& forall|i: int| 0 <= i < p.len() ==> local_in(e, #[trigger] p[i])
    &&& forall|i: int|
        0 <= i < p.len() - 1 ==> anywhere((#[trigger] p[i]).body, going_to(p[i + 1].name))
    &&& takes(p.last(), v)
}

/// Whether a continuation of the name uses a variable, itself or through the continuations
/// that it jumps to.
pub open spec fn needs(e: CExprV, n: Seq<char>, v: u32) -> bool {
    exists|p: Seq<CFunDefV>| hands_on(e, n, p, v)
}

spec fn the_local(e: CExprV, n: Seq<char>) -> CFunDefV {
    choose|d: CFunDefV| #[trigger] local_in(e, d) && d.name == n
}

proof fn lemma_the_local(e: CExprV, n: Seq<char>)
    requires
        named_apart(e),
    ensures
        ({
            let st = locals_in(e, no_locals());
            let d = the_local(e, n);
            if named_in(e, n) {
                local_in(e, d) && d.name == n && told_of(st, d)
            } else {
                !st.free.contains_key(n) && !st.calls.contains_key(n)
            }
        }),
{
    let st = locals_in(e, no_locals());
    lemma_locals(e, no_locals(), n);
    if found_in(e, n, st) {
        let d = choose|d: CFunDefV| #[trigger] local_in(e, d) && d.name == n && told_of(st, d);
        assert(named_in(e, n));
        assert(local_in(e, the_local(e, n)));
    }
}

/// What a continuation uses of its surroundings, where no two have the same name: what it or a
/// continuation that its jumps lead to mentions and does not bind.
pub proof fn lemma_needs(e: CExprV, n: Seq<char>, v: u32)
    requires
        named_apart(e),
    ensures
        free_of_locals(e).contains_key(n) <==> named_in(e, n),
        free_of_locals(e).contains_key(n) && free_of_locals(e)[n].contains(v) <==> needs(e, n, v),
{
    let st = locals_in(e, no_locals());
    lemma_the_local(e, n);
    if named_in(e, n) && used_through(st, n).contains(v) {
        let to = choose|to: Seq<char>| #[trigger]
            leads_to(st, n, to) && st.free.contains_key(to) && st.free[to].contains(v);
        let q = choose|q: Seq<Seq<char>>| #[trigger] jump_path(st, n, q) && q.last() == to;
        let p = Seq::new(q.len(), |i: int| the_local(e, q[i]));
        assert forall|i: int| 0 <= i < p.len() implies local_in(e, #[trigger] p[i]) && p[i].name
            == q[i] by {
            lemma_the_local(e, q[i]);
            if i > 0 {
                assert(jumps_to(st, q[i - 1], q[(i - 1) + 1]));
            }
        }
        assert forall|i: int| 0 <= i < p.len() - 1 implies anywhere(
            (#[trigger] p[i]).body,
            going_to(p[i + 1].name),
        ) by {
            lemma_the_local(e, q[i]);
            assert(jumps_to(st, q[i], q[i + 1]));
            assert(local_in(e, p[i]) && local_in(e, p[i + 1]));
            assert(p[i + 1].name == q[i + 1]);
            lemma_called_anywhere(p[i].body, q[i + 1]);
        }
        lemma_the_local(e, to);
        assert(p.last() == the_local(e, to));
        lemma_own_free(p.last(), v);
        assert(local_in(e, p[0]));
        assert(hands_on(e, n, p, v));
    }
    if needs(e, n, v) {
        let p = choose|p: Seq<CFunDefV>| hands_on(e, n, p, v);
        let q = Seq::new(p.len(), |i: int| p[i].name);
        assert(local_in(e, p[0]));
        assert forall|i: int| 0 <= i < p.len() implies told_of(st, #[trigger] p[i]) by {
            assert(local_in(e, p[i]));
            lemma_the_local(e, p[i].name);
            assert(named_in(e, p[i].name));
            assert(local_in(e, the_local(e, p[i].name)));
        }
        assert forall|i: int| 0 <= i < q.len() - 1 implies #[trigger] jumps_to(
            st,
            q[i],
            q[i + 1],
        ) by {
            assert(told_of(st, p[i]) && told_of(st, p[i + 1]));
            lemma_called_anywhere(p[i].body, p[i + 1].name);
        }
        assert(jump_path(st, n, q));
        assert(told_of(st, p[p.len() - 1]));
        lemma_own_free(p.last(), v);
        assert(q.last() == p.last().name);
        assert(leads_to(st, n, p.last().name));
        assert(used_through(st, n).contains(v));
    }
}

// ---- programs ----

/// Whether a jump of a function passes a variable on, or mentions a continuation of the
/// function that uses it, itself or through continuations that it jumps to.
pub open spec fn passes_on(body: CExprV, f: CExprV, v: u32) -> bool {
    f is App && (mentions(f, CValV::Var(v)) || exists|n: Seq<char>|
        mentions(f, CValV::Label(n)) && #[trigger] needs(body, n, v))
}

pub open spec fn passing_on(body: CExprV, v: u32) -> spec_fn(CExprV) -> bool {
    |f: CExprV| passes_on(body, f, v)
}

/// Whether an expression of a function builds a struct, binds it to a variable, and holds after
/// that a jump that passes the variable on.
pub open spec fn lets_out(body: CExprV, f: CExprV, v: u32) -> bool {
    builds(f, v) && (f matches CExprV::LetPrim { cont, .. } && anywhere(
        *cont,
        passing_on(body, v),
    ))
}

pub open spec fn letting_out(body: CExprV, v: u32) -> spec_fn(CExprV) -> bool {
    |f: CExprV| lets_out(body, f, v)
}

proof fn lemma_keeps_is_passes(body: CExprV, f: CExprV, v: u32)
    requires
        named_apart(body),
    ensures
        jump_keeps(f, v, free_of_locals(body)) <==> passes_on(body, f, v),
{
    let free = free_of_locals(body);
    if f is App && exists|name: Seq<char>| #[trigger] label_keeps(f, name, v, free) {
        let name = choose|name: Seq<char>| #[trigger] label_keeps(f, name, v, free);
        lemma_needs(body, name, v);
    }
    if f is App && exists|n: Seq<char>|
        mentions(f, CValV::Label(n)) && #[trigger] needs(body, n, v) {
        let n = choose|n: Seq<char>|
            mentions(f, CValV::Label(n)) && #[trigger] needs(body, n, v);
        lemma_needs(body, n, v);
        assert(label_keeps(f, n, v, free));
    }
}

proof fn lemma_outlived_is_let_out(body: CExprV, f: CExprV, v: u32)
    requires
        named_apart(body),
    ensures
        outlived(f, v, free_of_locals(body)) <==> lets_out(body, f, v),
{
    if let CExprV::LetPrim { cont, .. } = f {
        let q1 = keeping(v, free_of_locals(body));
        let q2 = passing_on(body, v);
        assert forall|g: CExprV| #[trigger] q1(g) == q2(g) by {
            lemma_keeps_is_passes(body, g, v);
        }
        assert(q1 =~= q2);
    }
}

/// A variable of a program escapes if and only if some function of it holds the construction of
/// a struct that is bound to the variable, and after it, at any depth, a jump that mentions the
/// variable or a continuation that uses it, itself or through continuations that it jumps to.
/// No two continuations of a function have the same name.
pub proof fn lemma_escapes(funcs: Seq<CTopLevelFnV>, v: u32)
    requires
        forall|k: int| 0 <= k < funcs.len() ==> named_apart((#[trigger] funcs[k]).def.body),
    ensures
        escaping_of(funcs).contains(v) <==> exists|k: int|
            0 <= k < funcs.len() && anywhere(
                (#[trigger] funcs[k]).def.body,
                letting_out(funcs[k].def.body, v),
            ),
    decreases funcs.len(),
{
    if funcs.len() > 0 {
        let most = funcs.drop_last();
        let body = funcs.last().def.body;
        assert forall|k: int| 0 <= k < most.len() implies named_apart(
            (#[trigger] most[k]).def.body,
        ) by {
            assert(most[k] == funcs[k]);
        }
        lemma_escapes(most, v);
        assert(named_apart(funcs[funcs.len() - 1].def.body));
        let q1 = outliving(v, free_of_locals(body));
        let q2 = letting_out(body, v);
        assert forall|g: CExprV| #[trigger] q1(g) == q2(g) by {
            lemma_outlived_is_let_out(body, g, v);
        }
        assert(q1 =~= q2);
        lemma_escapes_anywhere(body, v, free_of_locals(body));
        if escaping_of(most).contains(v) {
            let k = choose|k: int|
                0 <= k < most.len() && anywhere(
                    (#[trigger] most[k]).def.body,
                    letting_out(most[k].def.body, v),
                );
            assert(funcs[k] == most[k]);
        }
        if escaping_of(funcs).contains(v) && !escaping_of(most).contains(v) {
            assert(funcs[funcs.len() - 1].def.body == body);
        }
        if exists|k: int|
            0 <= k < funcs.len() && anywhere(
                (#[trigger] funcs[k]).def.body,
                letting_out(funcs[k].def.body, v),
            ) {
            let k = choose|k: int|
                0 <= k < funcs.len() && anywhere(
                    (#[trigger] funcs[k]).def.body,
                    letting_out(funcs[k].def.body, v),
                );
            if k < most.len() {
                assert(most[k] == funcs[k]);
            }
        }
    }
}

} // verus!
