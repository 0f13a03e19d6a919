//! The rules for field reads and derivatives hold of fields and derivatives.

use vstd::prelude::*;

use crate::ast::{DerivativeRuleDecl, Param};
use crate::derivative_rules::{
    after_colon, array_construction_rules, construction_rule, construction_rules, derivative_of,
    derivative_rule, drawn_derivatives, drawn_vars, field_rules, item_count, item_names,
    op_on_derivatives, op_on_vars, param_names, projection_rule, projection_rules, rule_env,
    self_rule, struct_construction_rules,
};
use crate::forward::{field_symbol, FieldOpV, StructOpV};
use crate::listing::entry_of;
use crate::numerals::{digit_of, lemma_decimal, lemma_parsed};
use crate::pattern_laws::{
    begins, law_means, lemma_drawn_means, lemma_more_nodes, lemma_op_drawn, names_functions,
    names_params, pattern_means, rule_holds, term_at, Functions, Terms, Vars,
};
use crate::patterns::{
    binds_all, drawn_node, generics_as, no_nodes, shorter, unit_text, with_rule, DIFF_VAR, DraftV,
    LawV, PatNodeV, RewriteV,
};
use crate::registry::Registry;
use crate::text::decimal;
use crate::text_parts::last_place_of;
use crate::ty::TyV;
use crate::types::ty_text;

verus! {

// ---- operations on variables ----

/// What variables of the names stand for.
pub open spec fn values_of<T>(env: Vars<T>, names: Seq<Seq<char>>) -> Seq<T> {
    Seq::new(names.len(), |i: int| env("?"@ + names[i]))
}

/// The derivative of a value by another.
pub open spec fn derived<T>(m: Terms<T>, v: T, x: T) -> T {
    (m.op)("derivative"@, seq![v, x])
}

/// The derivatives of values by another.
pub open spec fn all_derived<T>(m: Terms<T>, vs: Seq<T>, x: T) -> Seq<T> {
    Seq::new(vs.len(), |i: int| derived(m, vs[i], x))
}

proof fn lemma_vars_drawn<T>(
    m: Terms<T>,
    env: Vars<T>,
    draft: DraftV,
    names: Seq<Seq<char>>,
    n: nat,
)
    requires
        n <= names.len(),
        draft.ast.len() + n <= usize::MAX,
    ensures
        ({
            let d = drawn_vars(draft, names, n);
            &&& begins(d.draft.ast, draft.ast)
            &&& d.draft.ast.len() == draft.ast.len() + n
            &&& d.places.len() == n
            &&& forall|k: int|
                0 <= k < n ==> (#[trigger] d.places[k]) < d.draft.ast.len() && term_at(
                    m,
                    env,
                    d.draft.ast,
                    d.places[k] as nat,
                ) == Some(env("?"@ + names[k]))
            &&& forall|k: int|
                0 <= k < n ==> d.draft.ast.contains(PatNodeV::Var("?"@ + #[trigger] names[k]))
        }),
    decreases n,
{
    if n > 0 {
        lemma_vars_drawn(m, env, draft, names, (n - 1) as nat);
        let before = drawn_vars(draft, names, (n - 1) as nat);
        let d = drawn_vars(draft, names, n);
        assert forall|k: int| 0 <= k < n implies (#[trigger] d.places[k]) < d.draft.ast.len()
            && term_at(m, env, d.draft.ast, d.places[k] as nat) == Some(env("?"@ + names[k])) by {
            if k < n - 1 {
                assert(d.places[k] == before.places[k]);
                lemma_more_nodes(
                    m,
                    env,
                    before.draft.ast,
                    d.draft.ast,
                    before.places[k] as nat,
                );
            }
        }
        assert forall|k: int| 0 <= k < n implies d.draft.ast.contains(
            PatNodeV::Var("?"@ + #[trigger] names[k]),
        ) by {
            let v = PatNodeV::Var("?"@ + names[k]);
            if k < n - 1 {
                let j = choose|j: int| 0 <= j < before.draft.ast.len() && before.draft.ast[j] == v;
                assert(d.draft.ast[j] == v);
            } else {
                assert(d.draft.ast[before.draft.ast.len() as int] == v);
            }
        }
    }
}

/// A pattern for an operation on variables means the operation of what they stand for.
pub proof fn lemma_op_on_vars<T>(
    m: Terms<T>,
    env: Vars<T>,
    symbol: Seq<char>,
    names: Seq<Seq<char>>,
)
    requires
        names.len() < usize::MAX,
    ensures
        ({
            let ast = op_on_vars(symbol, names).ast;
            &&& ast.len() == names.len() + 1
            &&& pattern_means(m, env, ast) == Some((m.op)(symbol, values_of(env, names)))
            &&& forall|k: int|
                0 <= k < names.len() ==> ast.contains(PatNodeV::Var("?"@ + #[trigger] names[k]))
        }),
{
    let none = no_nodes(Set::empty());
    lemma_vars_drawn(m, env, none, names, names.len());
    let vars = drawn_vars(none, names, names.len());
    lemma_op_drawn(m, env, vars.draft.ast, symbol, vars.places, values_of(env, names));
    let ast = op_on_vars(symbol, names).ast;
    assert forall|k: int| 0 <= k < names.len() implies ast.contains(
        PatNodeV::Var("?"@ + #[trigger] names[k]),
    ) by {
        let v = PatNodeV::Var("?"@ + names[k]);
        let j = choose|j: int| 0 <= j < vars.draft.ast.len() && vars.draft.ast[j] == v;
        assert(ast[j] == v);
    }
}

/// A pattern for a derivative means the derivative of what the pattern means, by the variable
/// that derivatives are taken by.
pub proof fn lemma_derivative_of<T>(m: Terms<T>, env: Vars<T>, draft: DraftV, v: T)
    requires
        draft.ast.len() > 0,
        draft.ast.len() + 2 <= usize::MAX,
        pattern_means(m, env, draft.ast) == Some(v),
    ensures
        ({
            let ast = derivative_of(draft).ast;
            &&& ast.len() == draft.ast.len() + 2
            &&& begins(ast, draft.ast)
            &&& pattern_means(m, env, ast) == Some(derived(m, v, env("?__diff_x"@)))
            &&& ast.contains(PatNodeV::Var("?__diff_x"@))
        }),
{
    let root = (draft.ast.len() - 1) as usize;
    let x = drawn_node(draft, PatNodeV::Var(DIFF_VAR@), None);
    lemma_more_nodes(m, env, draft.ast, x.draft.ast, root as nat);
    let places = seq![root, x.place];
    let vals = seq![v, env("?__diff_x"@)];
    assert forall|k: int| 0 <= k < places.len() implies (#[trigger] places[k]) < x.draft.ast.len()
        && term_at(m, env, x.draft.ast, places[k] as nat) == Some(vals[k]) by {
        if k == 0 {
            assert(places[k] == root);
        } else {
            assert(places[k] == x.place);
        }
    }
    lemma_op_drawn(m, env, x.draft.ast, "derivative"@, places, vals);
    let ast = derivative_of(draft).ast;
    assert(ast[draft.ast.len() as int] == PatNodeV::Var("?__diff_x"@));
}

proof fn lemma_derivatives_drawn<T>(
    m: Terms<T>,
    env: Vars<T>,
    draft: DraftV,
    names: Seq<Seq<char>>,
    n: nat,
    x: usize,
    by: T,
)
    requires
        n <= names.len(),
        draft.ast.len() + 2 * n <= usize::MAX,
        x < draft.ast.len(),
        term_at(m, env, draft.ast, x as nat) == Some(by),
    ensures
        ({
            let d = drawn_derivatives(draft, names, n, x);
            &&& begins(d.draft.ast, draft.ast)
            &&& d.draft.ast.len() == draft.ast.len() + 2 * n
            &&& d.places.len() == n
            &&& forall|k: int|
                0 <= k < n ==> (#[trigger] d.places[k]) < d.draft.ast.len() && term_at(
                    m,
                    env,
                    d.draft.ast,
                    d.places[k] as nat,
                ) == Some(derived(m, env("?"@ + names[k]), by))
            &&& forall|i: int|
                draft.ast.len() <= i < d.draft.ast.len() && (#[trigger] d.draft.ast[i]) is Var
                    ==> exists|k: int|
                    0 <= k < n && d.draft.ast[i] == PatNodeV::Var("?"@ + #[trigger] names[k])
        }),
    decreases n,
{
    if n > 0 {
        lemma_derivatives_drawn(m, env, draft, names, (n - 1) as nat, x, by);
        let before = drawn_derivatives(draft, names, (n - 1) as nat, x);
        let var = drawn_node(before.draft, PatNodeV::Var("?"@ + names[n - 1]), None);
        let d = drawn_derivatives(draft, names, n, x);
        lemma_more_nodes(m, env, draft.ast, var.draft.ast, x as nat);
        let places = seq![var.place, x];
        let vals = seq![env("?"@ + names[n - 1]), by];
        assert forall|k: int| 0 <= k < places.len() implies (#[trigger] places[k])
            < var.draft.ast.len() && term_at(m, env, var.draft.ast, places[k] as nat) == Some(
            vals[k],
        ) by {
            if k == 0 {
                assert(places[k] == var.place);
            } else {
                assert(places[k] == x);
            }
        }
        lemma_op_drawn(m, env, var.draft.ast, "derivative"@, places, vals);
        assert forall|k: int| 0 <= k < n implies (#[trigger] d.places[k]) < d.draft.ast.len()
            && term_at(m, env, d.draft.ast, d.places[k] as nat) == Some(
            derived(m, env("?"@ + names[k]), by),
        ) by {
            if k < n - 1 {
                assert(d.places[k] == before.places[k]);
                lemma_more_nodes(
                    m,
                    env,
                    before.draft.ast,
                    d.draft.ast,
                    before.places[k] as nat,
                );
            }
        }
        assert forall|i: int| draft.ast.len() <= i < d.draft.ast.len() && (
        #[trigger] d.draft.ast[i]) is Var implies exists|k: int|
            0 <= k < n && d.draft.ast[i] == PatNodeV::Var("?"@ + #[trigger] names[k]) by {
            if i < before.draft.ast.len() {
                assert(d.draft.ast[i] == before.draft.ast[i]);
                let k = choose|k: int|
                    0 <= k < n - 1 && before.draft.ast[i] == PatNodeV::Var(
                        "?"@ + #[trigger] names[k],
                    );
                assert(0 <= k < n && d.draft.ast[i] == PatNodeV::Var("?"@ + names[k]));
            } else {
                assert(i == before.draft.ast.len());
                assert(d.draft.ast[i] == PatNodeV::Var("?"@ + names[n - 1]));
            }
        }
    }
}

// ---- derivatives of what is built ----

/// Whether the derivative of what a symbol builds is built from the derivatives of its parts,
/// each by what the whole is differentiated by.
pub open spec fn differentiates_by_parts<T>(m: Terms<T>, symbol: Seq<char>, count: nat) -> bool {
    forall|vs: Seq<T>, x: T|
        vs.len() == count ==> #[trigger] derived(m, (m.op)(symbol, vs), x) == (m.op)(
            symbol,
            all_derived(m, vs, x),
        )
}

/// There is a rule for the derivative of what a symbol builds. Its left side means that
/// derivative by the variable that derivatives are taken by; its right side means what the
/// symbol builds from the derivatives of the parts by the same variable.
pub proof fn lemma_construction_sides<T>(
    m: Terms<T>,
    env: Vars<T>,
    name: Seq<char>,
    symbol: Seq<char>,
    parts: Seq<Seq<char>>,
)
    requires
        2 * parts.len() + 3 <= usize::MAX,
    ensures
        ({
            let x = env("?__diff_x"@);
            let vs = values_of(env, parts);
            construction_rule(name, symbol, parts) matches Some(r) && r.rhs is Pattern
                && pattern_means(m, env, r.lhs) == Some(derived(m, (m.op)(symbol, vs), x))
                && pattern_means(m, env, r.rhs->Pattern_0) == Some(
                (m.op)(symbol, all_derived(m, vs, x)),
            )
        }),
{
    let vs = values_of(env, parts);
    let by = env("?__diff_x"@);
    lemma_op_on_vars(m, env, symbol, parts);
    let built = op_on_vars(symbol, parts);
    lemma_derivative_of(m, env, built, (m.op)(symbol, vs));
    let lhs = derivative_of(built).ast;
    let x = drawn_node(no_nodes(Set::empty()), PatNodeV::Var(DIFF_VAR@), None);
    assert(x.draft.ast.len() == 1);
    assert(term_at(m, env, x.draft.ast, 0) == Some(by));
    lemma_derivatives_drawn(m, env, x.draft, parts, parts.len(), x.place, by);
    let all = drawn_derivatives(x.draft, parts, parts.len(), x.place);
    lemma_op_drawn(m, env, all.draft.ast, symbol, all.places, all_derived(m, vs, by));
    let rhs = op_on_derivatives(symbol, parts).ast;
    assert forall|i: int| 0 <= i < rhs.len() && (#[trigger] rhs[i]) is Var implies lhs.contains(
        rhs[i],
    ) by {
        if i == 0 {
            assert(all.draft.ast[0] == x.draft.ast[0]);
            assert(rhs[0] == PatNodeV::Var("?__diff_x"@));
        } else {
            assert(rhs[i] == all.draft.ast[i]);
            let k = choose|k: int|
                0 <= k < parts.len() && all.draft.ast[i] == PatNodeV::Var(
                    "?"@ + #[trigger] parts[k],
                );
            let v = PatNodeV::Var("?"@ + parts[k]);
            assert(built.ast.contains(v));
            let j = choose|j: int| 0 <= j < built.ast.len() && built.ast[j] == v;
            assert(lhs[j] == v);
        }
    }
    assert(binds_all(lhs, rhs));
}

/// The rule for the derivative of what a symbol builds holds wherever derivatives are taken
/// part by part.
pub proof fn lemma_construction_rule_holds<T>(
    m: Terms<T>,
    name: Seq<char>,
    symbol: Seq<char>,
    parts: Seq<Seq<char>>,
)
    requires
        2 * parts.len() + 3 <= usize::MAX,
        differentiates_by_parts(m, symbol, parts.len()),
    ensures
        construction_rule(name, symbol, parts) matches Some(r) && rule_holds(m, r),
{
    let any = |n: Seq<char>| (m.int)(0);
    lemma_construction_sides(m, any, name, symbol, parts);
    let r = construction_rule(name, symbol, parts)->0;
    assert forall|env: Vars<T>|
        pattern_means(m, env, r.lhs) is Some && #[trigger] pattern_means(m, env, r.lhs)
            == pattern_means(m, env, r.rhs->Pattern_0) by {
        lemma_construction_sides(m, env, name, symbol, parts);
        let vs = values_of(env, parts);
        assert(derived(m, (m.op)(symbol, vs), env("?__diff_x"@)) == (m.op)(
            symbol,
            all_derived(m, vs, env("?__diff_x"@)),
        ));
    }
}

// ---- fields ----

/// Whether reading a field of what a symbol builds gives the part of the field's name.
pub open spec fn reads_parts<T>(
    m: Terms<T>,
    symbol: Seq<char>,
    fields: Seq<Seq<char>>,
    ty: TyV,
) -> bool {
    forall|vs: Seq<T>, k: int|
        vs.len() == fields.len() && 0 <= k < fields.len() ==> (m.op)(
            field_symbol(ty, #[trigger] fields[k]),
            seq![#[trigger] (m.op)(symbol, vs)],
        ) == vs[k]
}

/// The rule for reading a field of a struct that was just built: its left side means the read
/// of that field, its right side the part that the field was built from.
pub proof fn lemma_projection_sides<T>(
    m: Terms<T>,
    env: Vars<T>,
    symbol: Seq<char>,
    op: StructOpV,
    k: int,
)
    requires
        0 <= k < op.fields.len(),
        op.fields.len() + 2 <= usize::MAX,
    ensures
        projection_rule(symbol, op, op.fields[k]) matches Some(r) && r.rhs is Pattern
            && pattern_means(m, env, r.lhs) == Some(
            (m.op)(
                field_symbol(op.ty, op.fields[k]),
                seq![(m.op)(symbol, values_of(env, op.fields))],
            ),
        ) && pattern_means(m, env, r.rhs->Pattern_0) == Some(env("?"@ + op.fields[k])),
{
    let field = op.fields[k];
    lemma_op_on_vars(m, env, symbol, op.fields);
    let built = op_on_vars(symbol, op.fields);
    let root = (built.ast.len() - 1) as usize;
    let places = seq![root];
    let vals = seq![(m.op)(symbol, values_of(env, op.fields))];
    assert forall|j: int| 0 <= j < places.len() implies (#[trigger] places[j]) < built.ast.len()
        && term_at(m, env, built.ast, places[j] as nat) == Some(vals[j]) by {
        assert(places[j] == root);
    }
    lemma_op_drawn(m, env, built.ast, field_symbol(op.ty, field), places, vals);
    let lhs = built.ast.push(PatNodeV::Op(field_symbol(op.ty, field), places));
    let rhs = seq![PatNodeV::Var("?"@ + field)];
    let v = PatNodeV::Var("?"@ + field);
    assert(built.ast.contains(v));
    let j = choose|j: int| 0 <= j < built.ast.len() && built.ast[j] == v;
    assert(lhs[j] == v);
    assert(binds_all(lhs, rhs));
}

/// The rule for reading a field of a struct that was just built holds wherever reading a field
/// gives the part of its name.
pub proof fn lemma_projection_rule_holds<T>(
    m: Terms<T>,
    symbol: Seq<char>,
    op: StructOpV,
    k: int,
)
    requires
        0 <= k < op.fields.len(),
        op.fields.len() + 2 <= usize::MAX,
        reads_parts(m, symbol, op.fields, op.ty),
    ensures
        projection_rule(symbol, op, op.fields[k]) matches Some(r) && rule_holds(m, r),
{
    let any = |n: Seq<char>| (m.int)(0);
    lemma_projection_sides(m, any, symbol, op, k);
    let r = projection_rule(symbol, op, op.fields[k])->0;
    assert forall|env: Vars<T>|
        pattern_means(m, env, r.lhs) is Some && #[trigger] pattern_means(m, env, r.lhs)
            == pattern_means(m, env, r.rhs->Pattern_0) by {
        lemma_projection_sides(m, env, symbol, op, k);
        let vs = values_of(env, op.fields);
        assert((m.op)(field_symbol(op.ty, op.fields[k]), seq![(m.op)(symbol, vs)]) == vs[k]);
    }
}

// ---- the derivative of a term by itself ----

/// The rule for the derivative of a term by itself holds wherever that is one: the number one,
/// or the floating-point number one for types of floating-point numbers.
pub proof fn lemma_self_rule_holds<T>(m: Terms<T>, ty: Seq<char>)
    requires
        forall|v: T|
            #[trigger] derived(m, v, v) == if ty == "f32"@ || ty == "f64"@ {
                (m.float)(0x3FF0_0000_0000_0000)
            } else {
                (m.int)(1)
            },
    ensures
        rule_holds(m, self_rule(ty)),
{
    let r = self_rule(ty);
    assert forall|env: Vars<T>|
        pattern_means(m, env, r.lhs) is Some && #[trigger] pattern_means(m, env, r.lhs)
            == pattern_means(m, env, r.rhs->Pattern_0) by {
        let v = env("?x"@);
        let two = seq![PatNodeV::Var("?x"@), PatNodeV::Var("?x"@)];
        let places = seq![0usize, 1usize];
        let vals = seq![v, v];
        assert forall|j: int| 0 <= j < places.len() implies (#[trigger] places[j]) < two.len()
            && term_at(m, env, two, places[j] as nat) == Some(vals[j]) by {}
        lemma_op_drawn(m, env, two, "derivative"@, places, vals);
        assert(r.lhs =~= two.push(PatNodeV::Op("derivative"@, places)));
        assert(derived(m, v, v) == (m.op)("derivative"@, vals));
    }
}

// ---- declared derivatives ----

/// Where a declared derivative is read for given types.
pub open spec fn derivative_law(
    algebra: Seq<char>,
    ty: Seq<char>,
    decl: DerivativeRuleDecl,
    declared: Seq<Param>,
    registry: Registry,
) -> LawV {
    LawV {
        algebra,
        ty,
        type_env: rule_env(
            decl.params@,
            declared,
            shorter(decl.params@.len(), declared.len()),
            ty,
            generics_as(algebra, ty, registry),
        ),
        differentiates: true,
    }
}

/// The rule of a declared derivative: its left side means the derivative of the method of the
/// parameters, by what derivatives are taken by; its right side means what is declared, where
/// `d(..)` is the derivative by the same.
pub proof fn lemma_declared_derivative_sides<T>(
    m: Terms<T>,
    g: Functions<T>,
    env: Vars<T>,
    params: Vars<T>,
    x: T,
    algebra: Seq<char>,
    ty: Seq<char>,
    decl: DerivativeRuleDecl,
    r: Registry,
)
    requires
        names_functions(m, g, algebra),
        names_params(env, params, x),
        decl.params@.len() + 3 <= usize::MAX,
        derivative_rule(algebra, ty, decl, r) matches Some(d) && d.rule.rhs->Pattern_0.len()
            <= usize::MAX,
        ({
            let declared = r.sig_of(algebra, decl.method@)->0.params@;
            law_means(
                m,
                g,
                params,
                x,
                decl.body,
                derivative_law(algebra, ty, decl, declared, r),
                r,
            ) is Some
        }),
    ensures
        ({
            let declared = r.sig_of(algebra, decl.method@)->0.params@;
            let law = derivative_law(algebra, ty, decl, declared, r);
            let rule = derivative_rule(algebra, ty, decl, r)->0.rule;
            let vs = Seq::new(decl.params@.len(), |i: int| params(decl.params@[i].name@));
            &&& rule.rhs is Pattern
            &&& pattern_means(m, env, rule.lhs) == Some(
                derived(m, (g.own)(decl.method@, ty, vs), x),
            )
            &&& pattern_means(m, env, rule.rhs->Pattern_0) == law_means(
                m,
                g,
                params,
                x,
                decl.body,
                law,
                r,
            )
        }),
{
    let declared = r.sig_of(algebra, decl.method@)->0.params@;
    let law = derivative_law(algebra, ty, decl, declared, r);
    let names = param_names(decl.params@);
    let unit = unit_text(algebra, decl.method@, ty);
    lemma_op_on_vars(m, env, unit, names);
    let vs = Seq::new(decl.params@.len(), |i: int| params(decl.params@[i].name@));
    assert(values_of(env, names) =~= vs) by {
        assert forall|i: int| 0 <= i < names.len() implies values_of(env, names)[i] == vs[i] by {
            assert(env("?"@ + names[i]) == params(names[i]));
        }
    }
    assert((m.op)(unit, vs) == (g.own)(decl.method@, ty, vs));
    lemma_derivative_of(m, env, op_on_vars(unit, names), (m.op)(unit, vs));
    lemma_drawn_means(m, g, env, params, x, decl.body, law, r, no_nodes(Set::empty()));
}

// ---- arrays ----

proof fn lemma_last_place(s: Seq<char>, c: char, n: nat, i: int)
    requires
        0 <= i < n <= s.len(),
        s[i] == c,
        forall|j: int| i < j < n ==> s[j] != c,
    ensures
        last_place_of(s, c, n) == Some(i as nat),
    decreases n,
{
    if n - 1 > i {
        assert(s[n - 1] != c);
        lemma_last_place(s, c, (n - 1) as nat, i);
    }
}

/// The number of items that a symbol ends with is read back.
pub proof fn lemma_item_count(before: Seq<char>, n: usize)
    ensures
        item_count(before + ":"@ + decimal(n as nat)) == Some(n),
{
    reveal_strlit(":");
    let digits = decimal(n as nat);
    let s = before + ":"@ + digits;
    lemma_decimal(n as nat);
    let i = before.len() as int;
    assert(s[i] == ':');
    assert forall|j: int| i < j < s.len() implies s[j] != ':' by {
        assert(s[j] == digits[j - i - 1]);
        assert(digit_of(digits[j - i - 1]) is Some);
    }
    lemma_last_place(s, ':', s.len(), i);
    assert(s.subrange(i + 1, s.len() as int) =~= digits);
    assert(after_colon(s) == digits);
    lemma_parsed(digits);
}

// ---- all rules ----

/// The rule for the derivative of the `i`th struct.
pub open spec fn struct_rule_at(struct_ops: Seq<(Seq<char>, StructOpV)>, i: int) -> Option<
    RewriteV,
> {
    construction_rule(
        "derivative-construction:"@ + ty_text(struct_ops[i].1.ty),
        struct_ops[i].0,
        struct_ops[i].1.fields,
    )
}

/// The rule for the derivative of the `i`th array, with one part for each of its items.
pub open spec fn array_rule_at(array_ops: Seq<(Seq<char>, TyV)>, i: int, count: usize) -> Option<
    RewriteV,
> {
    construction_rule(
        "derivative-construction:array:"@ + ty_text(array_ops[i].1) + ":"@ + decimal(
            count as nat,
        ),
        array_ops[i].0,
        item_names(count as nat),
    )
}

proof fn lemma_with_rule(rules: Seq<RewriteV>, rule: Option<RewriteV>, x: RewriteV)
    ensures
        with_rule(rules, rule).contains(x) <==> rules.contains(x) || rule == Some(x),
{
    let now = with_rule(rules, rule);
    if rules.contains(x) {
        let i = choose|i: int| 0 <= i < rules.len() && rules[i] == x;
        assert(now[i] == x);
    }
    if rule == Some(x) {
        assert(now[rules.len() as int] == x);
    }
}

proof fn lemma_struct_rules(struct_ops: Seq<(Seq<char>, StructOpV)>, n: nat, x: RewriteV)
    requires
        n <= struct_ops.len(),
    ensures
        struct_construction_rules(struct_ops, n).contains(x) <==> exists|i: int|
            0 <= i < n && #[trigger] struct_rule_at(struct_ops, i) == Some(x),
    decreases n,
{
    if n > 0 {
        lemma_struct_rules(struct_ops, (n - 1) as nat, x);
        lemma_with_rule(
            struct_construction_rules(struct_ops, (n - 1) as nat),
            struct_rule_at(struct_ops, n - 1),
            x,
        );
        if exists|i: int| 0 <= i < n && #[trigger] struct_rule_at(struct_ops, i) == Some(x) {
            let i = choose|i: int|
                0 <= i < n && #[trigger] struct_rule_at(struct_ops, i) == Some(x);
            if i < n - 1 {
                assert(0 <= i < n - 1 && struct_rule_at(struct_ops, i) == Some(x));
            }
        }
        if exists|i: int| 0 <= i < n - 1 && #[trigger] struct_rule_at(struct_ops, i) == Some(x) {
            let i = choose|i: int|
                0 <= i < n - 1 && #[trigger] struct_rule_at(struct_ops, i) == Some(x);
            assert(0 <= i < n && struct_rule_at(struct_ops, i) == Some(x));
        }
    }
}

spec fn array_rule(array_ops: Seq<(Seq<char>, TyV)>, i: int) -> Option<RewriteV> {
    match item_count(array_ops[i].0) {
        Some(count) => array_rule_at(array_ops, i, count),
        None => None,
    }
}

proof fn lemma_array_rules(
    array_ops: Seq<(Seq<char>, TyV)>,
    n: nat,
    rules: Seq<RewriteV>,
    x: RewriteV,
)
    requires
        n <= array_ops.len(),
    ensures
        array_construction_rules(array_ops, n, rules).contains(x) <==> rules.contains(x)
            || exists|i: int| 0 <= i < n && #[trigger] array_rule(array_ops, i) == Some(x),
    decreases n,
{
    if n > 0 {
        lemma_array_rules(array_ops, (n - 1) as nat, rules, x);
        let before = array_construction_rules(array_ops, (n - 1) as nat, rules);
        lemma_with_rule(before, array_rule(array_ops, n - 1), x);
        assert(array_construction_rules(array_ops, n, rules) == with_rule(
            before,
            array_rule(array_ops, n - 1),
        ));
        if exists|i: int| 0 <= i < n && #[trigger] array_rule(array_ops, i) == Some(x) {
            let i = choose|i: int| 0 <= i < n && #[trigger] array_rule(array_ops, i) == Some(x);
            if i < n - 1 {
                assert(0 <= i < n - 1 && array_rule(array_ops, i) == Some(x));
            }
        }
        if exists|i: int| 0 <= i < n - 1 && #[trigger] array_rule(array_ops, i) == Some(x) {
            let i = choose|i: int| 0 <= i < n - 1 && #[trigger] array_rule(array_ops, i) == Some(x);
            assert(0 <= i < n && array_rule(array_ops, i) == Some(x));
        }
    }
}

/// Every struct, and every array whose symbol ends with the number of its items, has its rule.
pub proof fn lemma_all_constructions_have_rules(
    struct_ops: Seq<(Seq<char>, StructOpV)>,
    array_ops: Seq<(Seq<char>, TyV)>,
    i: int,
    before: Seq<char>,
    count: usize,
    x: RewriteV,
)
    ensures
        0 <= i < struct_ops.len() && struct_rule_at(struct_ops, i) == Some(x)
            ==> construction_rules(struct_ops, array_ops).contains(x),
        0 <= i < array_ops.len() && array_ops[i].0 == before + ":"@ + decimal(count as nat)
            && array_rule_at(array_ops, i, count) == Some(x) ==> construction_rules(
            struct_ops,
            array_ops,
        ).contains(x),
{
    let structs = struct_construction_rules(struct_ops, struct_ops.len());
    lemma_struct_rules(struct_ops, struct_ops.len(), x);
    lemma_array_rules(array_ops, array_ops.len(), structs, x);
    lemma_item_count(before, count);
    if 0 <= i < array_ops.len() && array_ops[i].0 == before + ":"@ + decimal(count as nat)
        && array_rule_at(array_ops, i, count) == Some(x) {
        assert(array_rule(array_ops, i) == Some(x));
    }
}

/// Whether the symbol of a field read was noted.
pub open spec fn is_noted(field_ops: Seq<(Seq<char>, FieldOpV)>, symbol: Seq<char>) -> bool {
    exists|i: int| 0 <= i < field_ops.len() && (#[trigger] field_ops[i]).0 == symbol
}

proof fn lemma_noted(field_ops: Seq<(Seq<char>, FieldOpV)>, symbol: Seq<char>)
    ensures
        entry_of(field_ops, symbol) is Some <==> is_noted(field_ops, symbol),
    decreases field_ops.len(),
{
    if field_ops.len() > 0 {
        let rest = field_ops.subrange(1, field_ops.len() as int);
        lemma_noted(rest, symbol);
        if is_noted(rest, symbol) {
            let i = choose|i: int| 0 <= i < rest.len() && (#[trigger] rest[i]).0 == symbol;
            assert(field_ops[i + 1].0 == symbol);
        }
        if is_noted(field_ops, symbol) && field_ops[0].0 != symbol {
            let i = choose|i: int|
                0 <= i < field_ops.len() && (#[trigger] field_ops[i]).0 == symbol;
            assert(rest[i - 1].0 == symbol);
        }
    }
}

/// The rule for reading the `k`th field of the `i`th struct, where some code reads it.
pub open spec fn projection_at(
    struct_ops: Seq<(Seq<char>, StructOpV)>,
    field_ops: Seq<(Seq<char>, FieldOpV)>,
    i: int,
    k: int,
) -> Option<RewriteV> {
    let op = struct_ops[i].1;
    if 0 <= k < op.fields.len() && is_noted(field_ops, field_symbol(op.ty, op.fields[k])) {
        projection_rule(struct_ops[i].0, op, op.fields[k])
    } else {
        None
    }
}

proof fn lemma_field_rules(
    struct_ops: Seq<(Seq<char>, StructOpV)>,
    i: int,
    n: nat,
    field_ops: Seq<(Seq<char>, FieldOpV)>,
    rules: Seq<RewriteV>,
    x: RewriteV,
)
    requires
        n <= struct_ops[i].1.fields.len(),
    ensures
        field_rules(struct_ops[i].0, struct_ops[i].1, n, field_ops, rules).contains(x)
            <==> rules.contains(x) || exists|k: int|
            k < n && #[trigger] projection_at(struct_ops, field_ops, i, k) == Some(x),
    decreases n,
{
    if n > 0 {
        let op = struct_ops[i].1;
        let m = (n - 1) as nat;
        lemma_field_rules(struct_ops, i, m, field_ops, rules, x);
        lemma_noted(field_ops, field_symbol(op.ty, op.fields[n - 1]));
        let before = field_rules(struct_ops[i].0, op, m, field_ops, rules);
        lemma_with_rule(before, projection_at(struct_ops, field_ops, i, n - 1), x);
        assert(field_rules(struct_ops[i].0, op, n, field_ops, rules) == with_rule(
            before,
            projection_at(struct_ops, field_ops, i, n - 1),
        ));
        if exists|k: int| k < n && #[trigger] projection_at(struct_ops, field_ops, i, k) == Some(x)
        {
            let k = choose|k: int|
                k < n && #[trigger] projection_at(struct_ops, field_ops, i, k) == Some(x);
            if k < m {
                assert(k < m && projection_at(struct_ops, field_ops, i, k) == Some(x));
            }
        }
        if exists|k: int| k < m && #[trigger] projection_at(struct_ops, field_ops, i, k) == Some(x)
        {
            let k = choose|k: int|
                k < m && #[trigger] projection_at(struct_ops, field_ops, i, k) == Some(x);
            assert(k < n && projection_at(struct_ops, field_ops, i, k) == Some(x));
        }
    } else {
        assert forall|k: int| k < 0 implies #[trigger] projection_at(struct_ops, field_ops, i, k)
            != Some(x) by {}
    }
}

/// The rules for field reads are those for the fields of the structs that some code reads, and
/// no others.
pub proof fn lemma_projection_rules(
    struct_ops: Seq<(Seq<char>, StructOpV)>,
    n: nat,
    field_ops: Seq<(Seq<char>, FieldOpV)>,
    x: RewriteV,
)
    requires
        n <= struct_ops.len(),
    ensures
        projection_rules(struct_ops, n, field_ops).contains(x) <==> exists|i: int, k: int|
            0 <= i < n && #[trigger] projection_at(struct_ops, field_ops, i, k) == Some(x),
    decreases n,
{
    if n > 0 {
        let m = (n - 1) as nat;
        lemma_projection_rules(struct_ops, m, field_ops, x);
        let before = projection_rules(struct_ops, m, field_ops);
        let count = struct_ops[n - 1].1.fields.len();
        lemma_field_rules(struct_ops, n - 1, count, field_ops, before, x);
        if before.contains(x) {
            let (i, k) = choose|i: int, k: int|
                0 <= i < m && #[trigger] projection_at(struct_ops, field_ops, i, k) == Some(x);
            assert(0 <= i < n && projection_at(struct_ops, field_ops, i, k) == Some(x));
        }
        if exists|i: int, k: int|
            0 <= i < n && #[trigger] projection_at(struct_ops, field_ops, i, k) == Some(x) {
            let (i, k) = choose|i: int, k: int|
                0 <= i < n && #[trigger] projection_at(struct_ops, field_ops, i, k) == Some(x);
            if i < m {
                assert(0 <= i < m && projection_at(struct_ops, field_ops, i, k) == Some(x));
            } else {
                assert(k < count && projection_at(struct_ops, field_ops, n - 1, k) == Some(x));
            }
        }
        if exists|k: int|
            k < count && #[trigger] projection_at(struct_ops, field_ops, n - 1, k) == Some(x) {
            let k = choose|k: int|
                k < count && #[trigger] projection_at(struct_ops, field_ops, n - 1, k) == Some(x);
            assert(0 <= n - 1 < n && projection_at(struct_ops, field_ops, n - 1, k) == Some(x));
        }
    }
}

} // verus!
