//! The rules of axioms hold where the axioms do, and there is one wherever there can be.

use vstd::prelude::*;

use crate::ast::{AxiomDecl, Expr, ExprKind, Param};
use crate::infer_types::path_name;
use crate::listing::entry_place;
use crate::numerals::{digit_of, lemma_parsed, numeral};
use crate::pattern_laws::{
    algebra_declares, law_means, lemma_drawn_means, lemma_owner, names_functions, names_params,
    pattern_means, rule_holds, Functions, Terms, Vars,
};
use crate::patterns::{
    algebra_rules, axiom_rule, axiom_rules, axiom_rules_for, axioms_of, binds_all, drawn,
    drawn_first, is_float_name, no_nodes, params_as, reached_types, with_reached, with_rule,
    DraftV, LawV, PatNodeV, ReachedV, RewriteV,
};
use crate::registry::Registry;
use crate::table::{group_views, views};
use crate::text_parts::{bracketed, is_float_text};

verus! {

broadcast use group_views;

/// Where an axiom is read for given types.
pub open spec fn axiom_law(algebra: Seq<char>, ty: Seq<char>, decl: AxiomDecl) -> LawV {
    LawV {
        algebra,
        ty,
        type_env: params_as(decl.params@, decl.params@.len(), ty),
        differentiates: false,
    }
}

/// Whether an axiom says that two terms are equal.
pub open spec fn equates(decl: AxiomDecl, a: Expr, b: Expr) -> bool {
    decl.body.kind matches ExprKind::Call(p, _, args, _) && p.segments@.len() == 1
        && p.segments@[0]@ == "eq"@ && args@.len() == 2 && args@[0] == a && args@[1] == b
}

proof fn lemma_eq_path(p: crate::ast::Path)
    requires
        p.segments@.len() == 1,
    ensures
        path_name(p) == p.segments@[0]@,
{
    let parts = views(p.segments@);
    assert(parts.len() == 1);
    assert(parts[0] == p.segments@[0]@);
}

/// The two sides of an axiom's rule mean what the two sides of the axiom mean, whatever the
/// parameters stand for.
pub proof fn lemma_axiom_sides<T>(
    m: Terms<T>,
    g: Functions<T>,
    env: Vars<T>,
    params: Vars<T>,
    x: T,
    algebra: Seq<char>,
    ty: Seq<char>,
    decl: AxiomDecl,
    r: Registry,
    a: Expr,
    b: Expr,
)
    requires
        names_functions(m, g, algebra),
        names_params(env, params, x),
        equates(decl, a, b),
        axiom_rule(algebra, ty, decl, r) matches Some(rule) && rule.lhs.len() <= usize::MAX
            && rule.rhs->Pattern_0.len() <= usize::MAX,
        law_means(m, g, params, x, a, axiom_law(algebra, ty, decl), r) is Some,
        law_means(m, g, params, x, b, axiom_law(algebra, ty, decl), r) is Some,
    ensures
        axiom_rule(algebra, ty, decl, r)->0.rhs is Pattern,
        pattern_means(m, env, axiom_rule(algebra, ty, decl, r)->0.lhs) == law_means(
            m,
            g,
            params,
            x,
            a,
            axiom_law(algebra, ty, decl),
            r,
        ),
        pattern_means(m, env, axiom_rule(algebra, ty, decl, r)->0.rhs->Pattern_0) == law_means(
            m,
            g,
            params,
            x,
            b,
            axiom_law(algebra, ty, decl),
            r,
        ),
{
    let law = axiom_law(algebra, ty, decl);
    let none = no_nodes(Set::empty());
    let left = drawn(a, law, r, none)->0;
    let none2 = no_nodes(left.draft.referenced);
    if let ExprKind::Call(p, _, _, _) = decl.body.kind {
        lemma_eq_path(p);
    }
    lemma_drawn_means(m, g, env, params, x, a, law, r, none);
    lemma_drawn_means(m, g, env, params, x, b, law, r, none2);
}

/// Whether an axiom holds: both sides mean the same, whatever the parameters stand for.
pub open spec fn axiom_holds<T>(
    m: Terms<T>,
    g: Functions<T>,
    algebra: Seq<char>,
    ty: Seq<char>,
    decl: AxiomDecl,
    r: Registry,
    a: Expr,
    b: Expr,
) -> bool {
    let law = axiom_law(algebra, ty, decl);
    forall|params: Vars<T>, x: T|
        (#[trigger] law_means(m, g, params, x, a, law, r)) is Some && law_means(
            m,
            g,
            params,
            x,
            a,
            law,
            r,
        ) == law_means(m, g, params, x, b, law, r)
}

/// The rule of an axiom holds wherever the axiom does.
pub proof fn lemma_axiom_rule_holds<T>(
    m: Terms<T>,
    g: Functions<T>,
    algebra: Seq<char>,
    ty: Seq<char>,
    decl: AxiomDecl,
    r: Registry,
    a: Expr,
    b: Expr,
)
    requires
        names_functions(m, g, algebra),
        equates(decl, a, b),
        axiom_rule(algebra, ty, decl, r) matches Some(rule) && rule.lhs.len() <= usize::MAX
            && rule.rhs->Pattern_0.len() <= usize::MAX,
        axiom_holds(m, g, algebra, ty, decl, r, a, b),
    ensures
        rule_holds(m, axiom_rule(algebra, ty, decl, r)->0),
{
    let rule = axiom_rule(algebra, ty, decl, r)->0;
    if let ExprKind::Call(p, _, _, _) = decl.body.kind {
        lemma_eq_path(p);
    }
    let law = axiom_law(algebra, ty, decl);
    assert forall|env: Vars<T>|
        pattern_means(m, env, rule.lhs) is Some && #[trigger] pattern_means(m, env, rule.lhs)
            == pattern_means(m, env, rule.rhs->Pattern_0) by {
        let params = |n: Seq<char>| env("?"@ + n);
        let x = env("?__diff_x"@);
        assert(law_means(m, g, params, x, a, law, r) is Some);
        lemma_axiom_sides(m, g, env, params, x, algebra, ty, decl, r, a, b);
    }
}

// ---- which laws have rules ----

/// Whether one of the parameters has the name.
pub open spec fn is_param(params: Seq<Param>, n: Seq<char>) -> bool {
    exists|k: int| 0 <= k < params.len() && (#[trigger] params[k]).name@ == n
}

proof fn lemma_params_as(params: Seq<Param>, k: nat, ty: Seq<char>, n: Seq<char>)
    requires
        k <= params.len(),
    ensures
        params_as(params, k, ty).contains_key(n) <==> is_param(params.take(k as int), n),
        params_as(params, k, ty).contains_key(n) ==> params_as(params, k, ty)[n] == ty,
    decreases k,
{
    if k > 0 {
        lemma_params_as(params, (k - 1) as nat, ty, n);
        let now = params.take(k as int);
        let then = params.take(k - 1);
        if is_param(then, n) {
            let j = choose|j: int| 0 <= j < then.len() && (#[trigger] then[j]).name@ == n;
            assert(now[j] == then[j]);
        }
        if params[k - 1].name@ == n {
            assert(now[k - 1].name@ == n);
        }
        if is_param(now, n) {
            let j = choose|j: int| 0 <= j < now.len() && (#[trigger] now[j]).name@ == n;
            if j < k - 1 {
                assert(then[j] == now[j]);
            }
        }
    }
}

/// Whether a side of a law is built from parameters, literals, and functions of the law's own
/// algebra.
pub open spec fn plain_side(
    e: Expr,
    algebra: Seq<char>,
    ty: Seq<char>,
    params: Seq<Param>,
    r: Registry,
) -> bool
    decreases e, 0nat,
{
    match e.kind {
        ExprKind::Path(p) => p.segments@.len() == 1 && is_param(params, p.segments@[0]@),
        ExprKind::NumberLit { text, .. } => if ty == "f32"@ || ty == "f64"@ {
            is_float_text(text@)
        } else {
            numeral(text@) matches Some(n) && n <= u64::MAX
        },
        ExprKind::BoolLit(_) => true,
        ExprKind::Call(p, _, args, _) => p.segments@.len() == 1 && algebra_declares(
            r,
            algebra,
            p.segments@[0]@,
            args@.len(),
        ) && plain_sides(args, args@.len(), algebra, ty, params, r),
        _ => false,
    }
}

pub open spec fn plain_sides(
    args: Vec<Expr>,
    n: nat,
    algebra: Seq<char>,
    ty: Seq<char>,
    params: Seq<Param>,
    r: Registry,
) -> bool
    decreases args, n,
{
    n == 0 || n > args@.len() || (plain_side(args@[n - 1], algebra, ty, params, r) && plain_sides(
        args,
        (n - 1) as nat,
        algebra,
        ty,
        params,
        r,
    ))
}

/// The names that a side of a law mentions.
pub open spec fn names_in(e: Expr) -> Set<Seq<char>>
    decreases e, 0nat,
{
    match e.kind {
        ExprKind::Path(p) => set![p.segments@[0]@],
        ExprKind::Call(_, _, args, _) => names_in_first(args, args@.len()),
        _ => Set::empty(),
    }
}

pub open spec fn names_in_first(args: Vec<Expr>, n: nat) -> Set<Seq<char>>
    decreases args, n,
{
    if n == 0 || n > args@.len() {
        Set::empty()
    } else {
        names_in_first(args, (n - 1) as nat).union(names_in(args@[n - 1]))
    }
}

/// Whether the nodes of a draft after another are variables of the names alone, and of each.
spec fn adds_names(d: DraftV, draft: DraftV, names: Set<Seq<char>>) -> bool {
    &&& draft.ast.len() <= d.ast.len()
    &&& forall|i: int| 0 <= i < draft.ast.len() ==> #[trigger] d.ast[i] == draft.ast[i]
    &&& forall|i: int|
        draft.ast.len() <= i < d.ast.len() && (#[trigger] d.ast[i]) is Var ==> exists|n: Seq<char>|
            names.contains(n) && d.ast[i] == PatNodeV::Var(#[trigger] ("?"@ + n))
    &&& forall|n: Seq<char>|
        names.contains(n) ==> d.ast.contains(PatNodeV::Var(#[trigger] ("?"@ + n)))
}

proof fn lemma_plain_drawn(
    e: Expr,
    algebra: Seq<char>,
    ty: Seq<char>,
    params: Seq<Param>,
    r: Registry,
    draft: DraftV,
)
    requires
        plain_side(e, algebra, ty, params, r),
    ensures
        ({
            let law = LawV {
                algebra,
                ty,
                type_env: params_as(params, params.len(), ty),
                differentiates: false,
            };
            drawn(e, law, r, draft) matches Some(d) && adds_names(d.draft, draft, names_in(e))
        }),
    decreases e, 0nat,
{
    let law = LawV {
        algebra,
        ty,
        type_env: params_as(params, params.len(), ty),
        differentiates: false,
    };
    match e.kind {
        ExprKind::Path(p) => {
            let n = p.segments@[0]@;
            lemma_eq_path(p);
            lemma_params_as(params, params.len(), ty, n);
            assert(params.take(params.len() as int) =~= params);
            let d = drawn(e, law, r, draft)->0;
            assert(d.draft.ast[draft.ast.len() as int] == PatNodeV::Var("?"@ + n));
            assert(names_in(e).contains(n));
        },
        ExprKind::NumberLit { text, .. } => {
            if !is_float_name(ty) {
                lemma_parsed(text@);
                assert(digit_of(text@[0]) is Some);
            }
        },
        ExprKind::Call(p, _, args, _) => {
            lemma_eq_path(p);
            lemma_owner(law, r, path_name(p), args@.len());
            lemma_plain_first(args, args@.len(), algebra, ty, params, r, draft);
            let all = drawn_first(args, args@.len(), law, r, draft)->0;
            let d = drawn(e, law, r, draft)->0;
            assert forall|i: int| draft.ast.len() <= i < d.draft.ast.len() && (
            #[trigger] d.draft.ast[i]) is Var implies exists|n: Seq<char>|
                names_in(e).contains(n) && d.draft.ast[i] == PatNodeV::Var(
                    #[trigger] ("?"@ + n),
                ) by {
                assert(d.draft.ast[i] == all.draft.ast[i]);
            }
            assert forall|n: Seq<char>| names_in(e).contains(n) implies d.draft.ast.contains(
                PatNodeV::Var(#[trigger] ("?"@ + n)),
            ) by {
                let v = PatNodeV::Var("?"@ + n);
                let k = choose|k: int| 0 <= k < all.draft.ast.len() && all.draft.ast[k] == v;
                assert(d.draft.ast[k] == v);
            }
        },
        _ => {},
    }
}

proof fn lemma_plain_first(
    args: Vec<Expr>,
    n: nat,
    algebra: Seq<char>,
    ty: Seq<char>,
    params: Seq<Param>,
    r: Registry,
    draft: DraftV,
)
    requires
        n <= args@.len(),
        plain_sides(args, n, algebra, ty, params, r),
    ensures
        ({
            let law = LawV {
                algebra,
                ty,
                type_env: params_as(params, params.len(), ty),
                differentiates: false,
            };
            drawn_first(args, n, law, r, draft) matches Some(d) && adds_names(
                d.draft,
                draft,
                names_in_first(args, n),
            )
        }),
    decreases args, n,
{
    if n > 0 {
        lemma_plain_first(args, (n - 1) as nat, algebra, ty, params, r, draft);
        let law = LawV {
            algebra,
            ty,
            type_env: params_as(params, params.len(), ty),
            differentiates: false,
        };
        let before = drawn_first(args, (n - 1) as nat, law, r, draft)->0;
        lemma_plain_drawn(args@[n - 1], algebra, ty, params, r, before.draft);
        let d = drawn(args@[n - 1], law, r, before.draft)->0;
        let names = names_in_first(args, n);
        assert forall|i: int| draft.ast.len() <= i < d.draft.ast.len() && (
        #[trigger] d.draft.ast[i]) is Var implies exists|n: Seq<char>|
            names.contains(n) && d.draft.ast[i] == PatNodeV::Var(#[trigger] ("?"@ + n)) by {
            if i < before.draft.ast.len() {
                assert(d.draft.ast[i] == before.draft.ast[i]);
                let n1 = choose|n1: Seq<char>|
                    names_in_first(args, (n - 1) as nat).contains(n1) && before.draft.ast[i]
                        == PatNodeV::Var(#[trigger] ("?"@ + n1));
                assert(names.contains(n1) && d.draft.ast[i] == PatNodeV::Var("?"@ + n1));
            } else {
                let n1 = choose|n1: Seq<char>|
                    names_in(args@[n - 1]).contains(n1) && d.draft.ast[i] == PatNodeV::Var(
                        #[trigger] ("?"@ + n1),
                    );
                assert(names.contains(n1) && d.draft.ast[i] == PatNodeV::Var("?"@ + n1));
            }
        }
        assert forall|n1: Seq<char>| names.contains(n1) implies d.draft.ast.contains(
            PatNodeV::Var(#[trigger] ("?"@ + n1)),
        ) by {
            let v = PatNodeV::Var("?"@ + n1);
            if names_in_first(args, (n - 1) as nat).contains(n1) {
                let k = choose|k: int| 0 <= k < before.draft.ast.len() && before.draft.ast[k] == v;
                assert(d.draft.ast[k] == v);
            }
        }
    }
}

/// An axiom that says that two terms are equal has a rule, where both are built from its
/// parameters, literals and functions of its algebra, and what the right side mentions, the
/// left side does.
pub proof fn lemma_axiom_has_rule(
    algebra: Seq<char>,
    ty: Seq<char>,
    decl: AxiomDecl,
    r: Registry,
    a: Expr,
    b: Expr,
)
    requires
        equates(decl, a, b),
        plain_side(a, algebra, ty, decl.params@, r),
        plain_side(b, algebra, ty, decl.params@, r),
        names_in(b).subset_of(names_in(a)),
    ensures
        axiom_rule(algebra, ty, decl, r) is Some,
{
    let law = axiom_law(algebra, ty, decl);
    let none = no_nodes(Set::empty());
    if let ExprKind::Call(p, _, _, _) = decl.body.kind {
        lemma_eq_path(p);
    }
    lemma_plain_drawn(a, algebra, ty, decl.params@, r, none);
    let left = drawn(a, law, r, none)->0;
    let none2 = no_nodes(left.draft.referenced);
    lemma_plain_drawn(b, algebra, ty, decl.params@, r, none2);
    let right = drawn(b, law, r, none2)->0;
    assert forall|i: int| 0 <= i < right.draft.ast.len() && (#[trigger] right.draft.ast[i])
        is Var implies left.draft.ast.contains(right.draft.ast[i]) by {
        let n = choose|n: Seq<char>|
            names_in(b).contains(n) && right.draft.ast[i] == PatNodeV::Var(#[trigger] ("?"@ + n));
        assert(names_in(a).contains(n));
    }
    assert(binds_all(left.draft.ast, right.draft.ast));
}

// ---- the rules of all axioms ----

/// Whether an algebra was reached with types.
pub open spec fn was_reached(groups: ReachedV, algebra: Seq<char>, ty: Seq<char>) -> bool {
    exists|i: int|
        0 <= i < groups.len() && (#[trigger] groups[i]).0 == algebra && groups[i].1.contains(ty)
}

proof fn lemma_place(groups: ReachedV, algebra: Seq<char>, from: nat)
    requires
        from <= groups.len(),
    ensures
        entry_place(groups, algebra, from) >= from,
        entry_place(groups, algebra, from) < groups.len() ==> groups[entry_place(
            groups,
            algebra,
            from,
        ) as int].0 == algebra,
    decreases groups.len() - from,
{
    if from < groups.len() && groups[from as int].0 != algebra {
        lemma_place(groups, algebra, from + 1);
    }
}

proof fn lemma_with_reached(
    groups: ReachedV,
    algebra: Seq<char>,
    ty: Seq<char>,
    a: Seq<char>,
    t: Seq<char>,
)
    ensures
        was_reached(with_reached(groups, algebra, ty), a, t) <==> was_reached(groups, a, t) || (a
            == algebra && t == ty),
{
    lemma_place(groups, algebra, 0);
    let i = entry_place(groups, algebra, 0) as int;
    let now = with_reached(groups, algebra, ty);
    if was_reached(groups, a, t) {
        let k = choose|k: int|
            0 <= k < groups.len() && (#[trigger] groups[k]).0 == a && groups[k].1.contains(t);
        assert(now[k].0 == a);
        if now[k] != groups[k] {
            let j = choose|j: int| 0 <= j < groups[k].1.len() && groups[k].1[j] == t;
            assert(now[k].1[j] == t);
        }
        assert(now[k].1.contains(t));
    }
    if a == algebra && t == ty {
        if i < groups.len() {
            assert(now[i].0 == algebra);
            if !groups[i].1.contains(ty) {
                assert(now[i].1[groups[i].1.len() as int] == ty);
            }
            assert(now[i].1.contains(ty));
        } else {
            assert(now[groups.len() as int] == (algebra, seq![ty]));
            assert(seq![ty][0] == ty);
        }
    }
    if was_reached(now, a, t) && !was_reached(groups, a, t) {
        let k = choose|k: int|
            0 <= k < now.len() && (#[trigger] now[k]).0 == a && now[k].1.contains(t);
        if k < groups.len() {
            assert(now[k] != groups[k]);
            assert(k == i);
            let j = choose|j: int| 0 <= j < now[k].1.len() && now[k].1[j] == t;
            if j < groups[i].1.len() {
                assert(groups[i].1[j] == t);
                assert(groups[i].1.contains(t));
            }
        } else {
            let j = choose|j: int| 0 <= j < now[k].1.len() && now[k].1[j] == t;
            assert(now[k].1[j] == ty);
        }
    }
}

/// An algebra is reached with types if and only if some function that is called is one of the
/// algebra, and its name has the types between its brackets.
pub proof fn lemma_reached(
    reached: Seq<(Seq<char>, (Seq<char>, Seq<char>))>,
    n: nat,
    a: Seq<char>,
    t: Seq<char>,
)
    requires
        n <= reached.len(),
    ensures
        was_reached(reached_types(reached, n), a, t) <==> exists|i: int|
            0 <= i < n && (#[trigger] reached[i]).1.0 == a && bracketed(reached[i].0) == Some(t),
    decreases n,
{
    if n > 0 {
        let m = (n - 1) as nat;
        lemma_reached(reached, m, a, t);
        let before = reached_types(reached, m);
        let last = reached[n - 1];
        if let Some(ty) = bracketed(last.0) {
            lemma_with_reached(before, last.1.0, ty, a, t);
        }
        if exists|i: int|
            0 <= i < m && (#[trigger] reached[i]).1.0 == a && bracketed(reached[i].0) == Some(t) {
            let i = choose|i: int|
                0 <= i < m && (#[trigger] reached[i]).1.0 == a && bracketed(reached[i].0) == Some(
                    t,
                );
            assert(0 <= i < n && reached[i].1.0 == a);
        }
        if exists|i: int|
            0 <= i < n && (#[trigger] reached[i]).1.0 == a && bracketed(reached[i].0) == Some(t) {
            let i = choose|i: int|
                0 <= i < n && (#[trigger] reached[i]).1.0 == a && bracketed(reached[i].0) == Some(
                    t,
                );
            if i < m {
                assert(0 <= i < m && reached[i].1.0 == a);
            }
        }
    } else {
        assert(!was_reached(reached_types(reached, n), a, t));
    }
}

/// Whether a rule is that of an axiom of an algebra that was reached, for types that it was
/// reached with.
pub open spec fn of_an_axiom(groups: ReachedV, registry: Registry, rule: RewriteV) -> bool {
    exists|i: int, k: int, j: int| #[trigger] rule_at(groups, registry, i, k, j) == Some(rule)
}

/// The rule of the `j`th axiom of the `i`th algebra for the `k`th types.
pub open spec fn rule_at(groups: ReachedV, registry: Registry, i: int, k: int, j: int) -> Option<
    RewriteV,
> {
    if 0 <= i < groups.len() && 0 <= k < groups[i].1.len() && 0 <= j < axioms_of(
        registry,
        groups[i].0,
    ).len() {
        axiom_rule(
            groups[i].0,
            groups[i].1[k],
            axioms_of(registry, groups[i].0)[j],
            registry,
        )
    } else {
        None
    }
}

proof fn lemma_push_holds(rules: Seq<RewriteV>, rule: Option<RewriteV>, x: RewriteV)
    ensures
        with_rule(rules, rule).contains(x) <==> rules.contains(x) || rule == Some(x),
{
    let now = with_rule(rules, rule);
    if rules.contains(x) {
        let i = choose|i: int| 0 <= i < rules.len() && rules[i] == x;
        assert(now[i] == x);
    }
    if rule == Some(x) {
        assert(now[rules.len() as int] == x);
    }
}

proof fn lemma_rules_for(
    algebra: Seq<char>,
    types: Seq<Seq<char>>,
    n: nat,
    decl: AxiomDecl,
    r: Registry,
    rules: Seq<RewriteV>,
    x: RewriteV,
)
    requires
        n <= types.len(),
    ensures
        axiom_rules_for(algebra, types, n, decl, r, rules).contains(x) <==> rules.contains(x)
            || exists|k: int|
            0 <= k < n && axiom_rule(algebra, #[trigger] types[k], decl, r) == Some(x),
    decreases n,
{
    if n > 0 {
        let m = (n - 1) as nat;
        lemma_rules_for(algebra, types, m, decl, r, rules, x);
        lemma_push_holds(
            axiom_rules_for(algebra, types, m, decl, r, rules),
            axiom_rule(algebra, types[n - 1], decl, r),
            x,
        );
        if exists|k: int| 0 <= k < n && axiom_rule(algebra, #[trigger] types[k], decl, r) == Some(x)
        {
            let k = choose|k: int|
                0 <= k < n && axiom_rule(algebra, #[trigger] types[k], decl, r) == Some(x);
            if k < m {
                assert(0 <= k < m && axiom_rule(algebra, types[k], decl, r) == Some(x));
            }
        }
        if exists|k: int| 0 <= k < m && axiom_rule(algebra, #[trigger] types[k], decl, r) == Some(x)
        {
            let k = choose|k: int|
                0 <= k < m && axiom_rule(algebra, #[trigger] types[k], decl, r) == Some(x);
            assert(0 <= k < n && axiom_rule(algebra, types[k], decl, r) == Some(x));
        }
    }
}

spec fn algebra_rule(
    algebra: Seq<char>,
    types: Seq<Seq<char>>,
    axioms: Seq<AxiomDecl>,
    k: int,
    j: int,
    r: Registry,
) -> Option<RewriteV> {
    axiom_rule(algebra, types[k], axioms[j], r)
}

proof fn lemma_algebra_rules(
    algebra: Seq<char>,
    types: Seq<Seq<char>>,
    axioms: Seq<AxiomDecl>,
    n: nat,
    r: Registry,
    rules: Seq<RewriteV>,
    x: RewriteV,
)
    requires
        n <= axioms.len(),
    ensures
        algebra_rules(algebra, types, axioms, n, r, rules).contains(x) <==> rules.contains(x)
            || exists|k: int, j: int|
            0 <= k < types.len() && 0 <= j < n && #[trigger] algebra_rule(
                algebra,
                types,
                axioms,
                k,
                j,
                r,
            ) == Some(x),
    decreases n,
{
    if n > 0 {
        let m = (n - 1) as nat;
        lemma_algebra_rules(algebra, types, axioms, m, r, rules, x);
        let before = algebra_rules(algebra, types, axioms, m, r, rules);
        lemma_rules_for(algebra, types, types.len(), axioms[n - 1], r, before, x);
        if exists|k: int|
            0 <= k < types.len() && axiom_rule(algebra, #[trigger] types[k], axioms[n - 1], r)
                == Some(x) {
            let k = choose|k: int|
                0 <= k < types.len() && axiom_rule(algebra, #[trigger] types[k], axioms[n - 1], r)
                    == Some(x);
            assert(algebra_rule(algebra, types, axioms, k, n - 1, r) == Some(x));
        }
        if exists|k: int, j: int|
            0 <= k < types.len() && 0 <= j < n && #[trigger] algebra_rule(
                algebra,
                types,
                axioms,
                k,
                j,
                r,
            ) == Some(x) {
            let (k, j) = choose|k: int, j: int|
                0 <= k < types.len() && 0 <= j < n && #[trigger] algebra_rule(
                    algebra,
                    types,
                    axioms,
                    k,
                    j,
                    r,
                ) == Some(x);
            if j < m {
                assert(0 <= j < m && algebra_rule(algebra, types, axioms, k, j, r) == Some(x));
            } else {
                assert(axiom_rule(algebra, types[k], axioms[n - 1], r) == Some(x));
            }
        }
    }
}

#[verifier::spinoff_prover]
#[verifier::rlimit(40)]
proof fn lemma_axiom_rules_first(groups: ReachedV, n: nat, r: Registry, x: RewriteV)
    requires
        n <= groups.len(),
    ensures
        axiom_rules(groups, n, r).contains(x) <==> exists|i: int, k: int, j: int|
            i < n && #[trigger] rule_at(groups, r, i, k, j) == Some(x),
    decreases n,
{
    if n > 0 {
        let m = (n - 1) as nat;
        lemma_axiom_rules_first(groups, m, r, x);
        let g = groups[n - 1];
        let axioms = axioms_of(r, g.0);
        let before = axiom_rules(groups, m, r);
        lemma_algebra_rules(g.0, g.1, axioms, axioms.len(), r, before, x);
        if before.contains(x) {
            let (i, k, j) = choose|i: int, k: int, j: int|
                i < m && #[trigger] rule_at(groups, r, i, k, j) == Some(x);
            assert(i < n && rule_at(groups, r, i, k, j) == Some(x));
        }
        if exists|k: int, j: int|
            0 <= k < g.1.len() && 0 <= j < axioms.len() && #[trigger] algebra_rule(
                g.0,
                g.1,
                axioms,
                k,
                j,
                r,
            ) == Some(x) {
            let (k, j) = choose|k: int, j: int|
                0 <= k < g.1.len() && 0 <= j < axioms.len() && #[trigger] algebra_rule(
                    g.0,
                    g.1,
                    axioms,
                    k,
                    j,
                    r,
                ) == Some(x);
            assert(rule_at(groups, r, n - 1, k, j) == Some(x));
        }
        if exists|i: int, k: int, j: int|
            i < n && #[trigger] rule_at(groups, r, i, k, j) == Some(x) {
            let (i, k, j) = choose|i: int, k: int, j: int|
                i < n && #[trigger] rule_at(groups, r, i, k, j) == Some(x);
            if i < m {
                assert(i < m && rule_at(groups, r, i, k, j) == Some(x));
            } else {
                assert(algebra_rule(g.0, g.1, axioms, k, j, r) == Some(x));
            }
        }
    }
}

/// The rules are those of the axioms of the algebras that were reached, for the types that
/// they were reached with, and no others.
pub proof fn lemma_rules_are_of_axioms(groups: ReachedV, r: Registry, x: RewriteV)
    ensures
        axiom_rules(groups, groups.len(), r).contains(x) <==> of_an_axiom(groups, r, x),
{
    lemma_axiom_rules_first(groups, groups.len(), r, x);
    if of_an_axiom(groups, r, x) {
        let (i, k, j) = choose|i: int, k: int, j: int| #[trigger]
            rule_at(groups, r, i, k, j) == Some(x);
        assert(i < groups.len() && rule_at(groups, r, i, k, j) == Some(x));
    }
}

} // verus!
