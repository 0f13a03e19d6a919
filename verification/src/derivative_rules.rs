//! Rewrite rules for field reads and for derivatives.

use vstd::prelude::*;

use crate::ast::{DerivativeRuleDecl, Param};
use crate::forward::{field_symbol, field_symbol_text, FieldOp, FieldOpV, StructOp, StructOpV};

use crate::listing::{entry_of, Listing, NameSet};
use crate::patterns::{
    declared_as, drawn, drawn_node, generics_as, is_float_name, no_nodes, opt_rewrite,
    reached_types, rule_of, shorter, unit_text, with_rule, DraftV, DrawnAllV, LawV, PatNodeV,
    ReachedV, RewriteSideV, RewriteV, DIFF_VAR,
};
use crate::patterns::{
    generic_substitution, group_reached, names_float, new_rewrite, resolve_declared_type,
    unit_name_text, Draft, Drawn, Law, PatNode, ReachedTypes, Rewrite, RewriteSide,
};
use crate::registry::{struct_from, Registry, StructEntry};
use crate::table::{group_views, views, Table};
use crate::text;
use crate::text::{decimal, parsed_u64};
use crate::text_parts::last_place_of;
use crate::ty::{Ty, TyV};
use crate::types::ty_text;

verus! {

broadcast use group_views;

/// Puts the first `n` names into a pattern, as variables.
pub open spec fn drawn_vars(draft: DraftV, names: Seq<Seq<char>>, n: nat) -> DrawnAllV
    decreases n,
{
    if n == 0 || n > names.len() {
        DrawnAllV { draft, places: Seq::empty(), tys: Seq::empty() }
    } else {
        let before = drawn_vars(draft, names, (n - 1) as nat);
        let one = drawn_node(before.draft, PatNodeV::Var("?"@ + names[n - 1]), None);
        DrawnAllV { draft: one.draft, places: before.places.push(one.place), tys: Seq::empty() }
    }
}

/// A pattern for an operation on variables.
pub open spec fn op_on_vars(symbol: Seq<char>, names: Seq<Seq<char>>) -> DraftV {
    let vars = drawn_vars(no_nodes(Set::empty()), names, names.len());
    drawn_node(vars.draft, PatNodeV::Op(symbol, vars.places), None).draft
}

/// The place of the last node of a draft.
pub open spec fn last_place(draft: DraftV) -> usize {
    (draft.ast.len() - 1) as usize
}

/// A pattern for the derivative of what a pattern is for.
pub open spec fn derivative_of(draft: DraftV) -> DraftV {
    let x = drawn_node(draft, PatNodeV::Var(DIFF_VAR@), None);
    drawn_node(
        x.draft,
        PatNodeV::Op("derivative"@, seq![last_place(draft), x.place]),
        None,
    ).draft
}

fn draw_vars(draft: &mut Draft, names: &Vec<String>) -> (r: Vec<usize>)
    ensures
        ({
            let d = drawn_vars(old(draft)@, views(names@), names@.len());
            final(draft)@ == d.draft && r@ == d.places
        }),
{
    let mut out: Vec<usize> = Vec::new();
    let mut i: usize = 0;
    let ghost all = views(names@);
    while i < names.len()
        invariant
            i <= names.len(),
            all == views(names@),
            ({
                let d = drawn_vars(old(draft)@, all, i as nat);
                draft@ == d.draft && out@ == d.places
            }),
        decreases names.len() - i,
    {
        assert(all[i as int] == names@[i as int]@);
        let var: String = text::glued("?", names[i].as_str());
        let one: Drawn = draft.draw_node(PatNode::Var(var), None);
        out.push(one.place);
        i = i + 1;
    }
    out
}

fn draw_op_on_vars(symbol: &str, names: &Vec<String>) -> (r: Draft)
    ensures
        r@ == op_on_vars(symbol@, views(names@)),
        r.ast@.len() > 0,
{
    let mut draft: Draft = Draft::new();
    let places: Vec<usize> = draw_vars(&mut draft, names);
    let _top: Drawn = draft.draw_node(PatNode::Op(symbol.to_owned(), places), None);
    assert(views(draft.ast@).len() > 0);
    draft
}

fn draw_derivative(draft: &mut Draft)
    requires
        old(draft).ast@.len() > 0,
    ensures
        final(draft)@ == derivative_of(old(draft)@),
{
    let root: usize = draft.ast.len() - 1;
    let x: Drawn = draft.draw_node(PatNode::Var(DIFF_VAR.to_owned()), None);
    let mut children: Vec<usize> = Vec::new();
    children.push(root);
    children.push(x.place);
    assert(children@ =~= seq![root, x.place]);
    let _top: Drawn = draft.draw_node(PatNode::Op("derivative".to_owned(), children), None);
}

/// The rule that reading a field of a struct that was just built gives what it was
/// built from.
pub open spec fn projection_rule(
    symbol: Seq<char>,
    op: StructOpV,
    field: Seq<char>,
) -> Option<RewriteV> {
    let built = op_on_vars(symbol, op.fields);
    let read = drawn_node(
        built,
        PatNodeV::Op(field_symbol(op.ty, field), seq![last_place(built)]),
        None,
    );
    rule_of(
        "struct-projection:"@ + op.name + "."@ + field,
        read.draft.ast,
        seq![PatNodeV::Var("?"@ + field)],
    )
}

/// The rules for the first `n` fields of a struct that are read somewhere, after the
/// others.
pub open spec fn field_rules(
    symbol: Seq<char>,
    op: StructOpV,
    n: nat,
    field_ops: Seq<(Seq<char>, FieldOpV)>,
    rules: Seq<RewriteV>,
) -> Seq<RewriteV>
    decreases n,
{
    if n == 0 || n > op.fields.len() {
        rules
    } else {
        let before = field_rules(symbol, op, (n - 1) as nat, field_ops, rules);
        let field = op.fields[n - 1];
        if entry_of(field_ops, field_symbol(op.ty, field)) is Some {
            with_rule(before, projection_rule(symbol, op, field))
        } else {
            before
        }
    }
}

/// The rules for the fields of the first `n` structs.
pub open spec fn projection_rules(
    struct_ops: Seq<(Seq<char>, StructOpV)>,
    n: nat,
    field_ops: Seq<(Seq<char>, FieldOpV)>,
) -> Seq<RewriteV>
    decreases n,
{
    if n == 0 || n > struct_ops.len() {
        Seq::empty()
    } else {
        let op = struct_ops[n - 1].1;
        field_rules(
            struct_ops[n - 1].0,
            op,
            op.fields.len(),
            field_ops,
            projection_rules(struct_ops, (n - 1) as nat, field_ops),
        )
    }
}

fn projection_to_rewrite(symbol: &String, op: &StructOp, field: &String) -> (r: Option<Rewrite>)
    ensures
        opt_rewrite(r) == projection_rule(symbol@, op@, field@),
{
    let mut lhs: Draft = draw_op_on_vars(symbol.as_str(), &op.fields);
    let root: usize = lhs.ast.len() - 1;
    let mut children: Vec<usize> = Vec::new();
    children.push(root);
    assert(children@ =~= seq![root]);
    let read: String = field_symbol_text(&op.ty, field.as_str());
    let _top: Drawn = lhs.draw_node(PatNode::Op(read, children), None);
    let mut rhs: Vec<PatNode> = Vec::new();
    let var: String = text::glued("?", field.as_str());
    rhs.push(PatNode::Var(var));
    assert(views(rhs@) =~= seq![PatNodeV::Var("?"@ + field@)]);
    let mut name: String = text::glued("struct-projection:", op.name.as_str());
    name.append(".");
    name.append(field.as_str());
    new_rewrite(name, lhs.ast, rhs)
}

/// The rules that reading a field of a struct that was just built gives what it was
/// built from, for the fields that are read somewhere.
pub fn struct_projection_rewrites(
    struct_ops: &Listing<StructOp>,
    field_ops: &Listing<FieldOp>,
) -> (r: Vec<Rewrite>)
    ensures
        views(r@) == projection_rules(struct_ops@, struct_ops@.len(), field_ops@),
{
    let mut rules: Vec<Rewrite> = Vec::new();
    let mut i: usize = 0;
    let ghost all = struct_ops@;
    while i < struct_ops.entries.len()
        invariant
            i <= struct_ops.entries.len(),
            all == struct_ops@,
            views(rules@) == projection_rules(all, i as nat, field_ops@),
        decreases struct_ops.entries.len() - i,
    {
        let symbol = &struct_ops.entries[i].0;
        let op = &struct_ops.entries[i].1;
        assert(all[i as int] == struct_ops.entries@[i as int]@);
        let ghost before = views(rules@);
        let mut k: usize = 0;
        while k < op.fields.len()
            invariant
                k <= op.fields.len(),
                views(rules@) == field_rules(symbol@, op@, k as nat, field_ops@, before),
            decreases op.fields.len() - k,
        {
            assert(op@.fields[k as int] == op.fields@[k as int]@);
            let read: String = field_symbol_text(&op.ty, op.fields[k].as_str());
            if field_ops.has(read.as_str()) {
                if let Some(rw) = projection_to_rewrite(symbol, op, &op.fields[k]) {
                    rules.push(rw);
                }
            }
            k = k + 1;
        }
        i = i + 1;
    }
    rules
}

/// Puts the derivatives of the first `n` names into a pattern; what they are taken
/// by is at place `x`.
pub open spec fn drawn_derivatives(draft: DraftV, names: Seq<Seq<char>>, n: nat, x: usize) -> DrawnAllV
    decreases n,
{
    if n == 0 || n > names.len() {
        DrawnAllV { draft, places: Seq::empty(), tys: Seq::empty() }
    } else {
        let before = drawn_derivatives(draft, names, (n - 1) as nat, x);
        let var = drawn_node(before.draft, PatNodeV::Var("?"@ + names[n - 1]), None);
        let one = drawn_node(
            var.draft,
            PatNodeV::Op("derivative"@, seq![var.place, x]),
            None,
        );
        DrawnAllV { draft: one.draft, places: before.places.push(one.place), tys: Seq::empty() }
    }
}

/// A pattern for an operation on the derivatives of variables.
pub open spec fn op_on_derivatives(symbol: Seq<char>, names: Seq<Seq<char>>) -> DraftV {
    let x = drawn_node(no_nodes(Set::empty()), PatNodeV::Var(DIFF_VAR@), None);
    let all = drawn_derivatives(x.draft, names, names.len(), x.place);
    drawn_node(all.draft, PatNodeV::Op(symbol, all.places), None).draft
}

/// The rule that the derivative of what a construction builds is built from the
/// derivatives of its parts.
pub open spec fn construction_rule(
    name: Seq<char>,
    symbol: Seq<char>,
    parts: Seq<Seq<char>>,
) -> Option<RewriteV> {
    rule_of(
        name,
        derivative_of(op_on_vars(symbol, parts)).ast,
        op_on_derivatives(symbol, parts).ast,
    )
}

/// The names of the items of an array.
pub open spec fn item_names(count: nat) -> Seq<Seq<char>> {
    Seq::new(count, |i: int| "e"@ + decimal(i as nat))
}

/// The text after the last colon.
pub open spec fn after_colon(s: Seq<char>) -> Seq<char> {
    match last_place_of(s, ':', s.len()) {
        Some(i) => s.subrange(i as int + 1, s.len() as int),
        None => s,
    }
}

/// The number of items of the arrays that a symbol builds, which it ends with.
pub open spec fn item_count(symbol: Seq<char>) -> Option<usize> {
    match parsed_u64(after_colon(symbol)) {
        Some(n) => if n <= usize::MAX {
            Some(n as usize)
        } else {
            None
        },
        None => None,
    }
}

/// The rules for the first `n` structs.
pub open spec fn struct_construction_rules(struct_ops: Seq<(Seq<char>, StructOpV)>, n: nat) -> Seq<
    RewriteV,
>
    decreases n,
{
    if n == 0 || n > struct_ops.len() {
        Seq::empty()
    } else {
        let op = struct_ops[n - 1].1;
        with_rule(
            struct_construction_rules(struct_ops, (n - 1) as nat),
            construction_rule(
                "derivative-construction:"@ + ty_text(op.ty),
                struct_ops[n - 1].0,
                op.fields,
            ),
        )
    }
}

/// The rules for the first `n` arrays, after the others.
pub open spec fn array_construction_rules(
    array_ops: Seq<(Seq<char>, TyV)>,
    n: nat,
    rules: Seq<RewriteV>,
) -> Seq<RewriteV>
    decreases n,
{
    if n == 0 || n > array_ops.len() {
        rules
    } else {
        let before = array_construction_rules(array_ops, (n - 1) as nat, rules);
        match item_count(array_ops[n - 1].0) {
            None => before,
            Some(count) => with_rule(
                before,
                construction_rule(
                    "derivative-construction:array:"@ + ty_text(array_ops[n - 1].1) + ":"@
                        + decimal(count as nat),
                    array_ops[n - 1].0,
                    item_names(count as nat),
                ),
            ),
        }
    }
}

/// The rules that the derivative of a struct or an array is built from the
/// derivatives of its parts.
pub open spec fn construction_rules(
    struct_ops: Seq<(Seq<char>, StructOpV)>,
    array_ops: Seq<(Seq<char>, TyV)>,
) -> Seq<RewriteV> {
    array_construction_rules(
        array_ops,
        array_ops.len(),
        struct_construction_rules(struct_ops, struct_ops.len()),
    )
}

fn draw_op_on_derivatives(symbol: &str, names: &Vec<String>) -> (r: Draft)
    ensures
        r@ == op_on_derivatives(symbol@, views(names@)),
{
    let mut draft: Draft = Draft::new();
    let x: Drawn = draft.draw_node(PatNode::Var(DIFF_VAR.to_owned()), None);
    let ghost start = draft@;
    let mut places: Vec<usize> = Vec::new();
    let mut i: usize = 0;
    let ghost all = views(names@);
    while i < names.len()
        invariant
            i <= names.len(),
            all == views(names@),
            ({
                let d = drawn_derivatives(start, all, i as nat, x.place);
                draft@ == d.draft && places@ == d.places
            }),
        decreases names.len() - i,
    {
        assert(all[i as int] == names@[i as int]@);
        let name: String = text::glued("?", names[i].as_str());
        let var: Drawn = draft.draw_node(PatNode::Var(name), None);
        let mut children: Vec<usize> = Vec::new();
        children.push(var.place);
        children.push(x.place);
        assert(children@ =~= seq![var.place, x.place]);
        let one: Drawn = draft.draw_node(PatNode::Op("derivative".to_owned(), children), None);
        places.push(one.place);
        i = i + 1;
    }
    let _top: Drawn = draft.draw_node(PatNode::Op(symbol.to_owned(), places), None);
    draft
}

fn construction_to_rewrite(name: String, symbol: &str, parts: &Vec<String>) -> (r: Option<Rewrite>)
    ensures
        opt_rewrite(r) == construction_rule(name@, symbol@, views(parts@)),
{
    let mut lhs: Draft = draw_op_on_vars(symbol, parts);
    draw_derivative(&mut lhs);
    let rhs: Draft = draw_op_on_derivatives(symbol, parts);
    new_rewrite(name, lhs.ast, rhs.ast)
}

fn name_items(count: usize) -> (r: Vec<String>)
    ensures
        views(r@) == item_names(count as nat),
{
    let mut out: Vec<String> = Vec::new();
    let mut i: usize = 0;
    while i < count
        invariant
            i <= count,
            out@.len() == i,
            forall|k: int| 0 <= k < i ==> (#[trigger] out@[k])@ == "e"@ + decimal(k as nat),
        decreases count - i,
    {
        out.push(text::glued("e", text::decimal_text(i as u64).as_str()));
        i = i + 1;
    }
    assert(views(out@) =~= item_names(count as nat));
    out
}

fn count_items(symbol: &str) -> (r: Option<usize>)
    ensures
        r == item_count(symbol@),
{
    let chars: Vec<char> = text::chars_of(symbol);
    let mut end: usize = chars.len();
    while end > 0 && chars[end - 1] != ':'
        invariant
            end <= chars.len(),
            last_place_of(chars@, ':', chars@.len()) == last_place_of(chars@, ':', end as nat),
        decreases end,
    {
        end = end - 1;
    }
    assert(symbol@.subrange(0, symbol@.len() as int) =~= symbol@);
    let digits = symbol.substring_char(end, chars.len());
    assert(digits@ =~= after_colon(symbol@));
    match text::parse_u64(digits) {
        Some(n) => if n <= usize::MAX as u64 {
            Some(n as usize)
        } else {
            None
        },
        None => None,
    }
}

/// The rules that the derivative of a struct or an array is built from the
/// derivatives of its parts.
pub fn construction_derivative_rewrites(
    struct_ops: &Listing<StructOp>,
    array_ops: &Listing<Ty>,
) -> (r: Vec<Rewrite>)
    ensures
        views(r@) == construction_rules(struct_ops@, array_ops@),
{
    let mut rules: Vec<Rewrite> = Vec::new();
    let mut i: usize = 0;
    let ghost structs = struct_ops@;
    while i < struct_ops.entries.len()
        invariant
            i <= struct_ops.entries.len(),
            structs == struct_ops@,
            views(rules@) == struct_construction_rules(structs, i as nat),
        decreases struct_ops.entries.len() - i,
    {
        let symbol = &struct_ops.entries[i].0;
        let op = &struct_ops.entries[i].1;
        assert(structs[i as int] == struct_ops.entries@[i as int]@);
        let name: String = text::glued("derivative-construction:", op.ty.to_text().as_str());
        if let Some(rw) = construction_to_rewrite(name, symbol.as_str(), &op.fields) {
            rules.push(rw);
        }
        i = i + 1;
    }
    let ghost before = views(rules@);
    let ghost arrays = array_ops@;
    let mut k: usize = 0;
    while k < array_ops.entries.len()
        invariant
            k <= array_ops.entries.len(),
            arrays == array_ops@,
            views(rules@) == array_construction_rules(arrays, k as nat, before),
        decreases array_ops.entries.len() - k,
    {
        let symbol = &array_ops.entries[k].0;
        let ty = &array_ops.entries[k].1;
        assert(arrays[k as int] == array_ops.entries@[k as int]@);
        if let Some(count) = count_items(symbol.as_str()) {
            let mut name: String = text::glued(
                "derivative-construction:array:",
                ty.to_text().as_str(),
            );
            name.append(":");
            name.append(text::decimal_text(count as u64).as_str());
            let items: Vec<String> = name_items(count);
            if let Some(rw) = construction_to_rewrite(name, symbol.as_str(), &items) {
                rules.push(rw);
            }
        }
        k = k + 1;
    }
    rules
}

/// The bits of the floating-point number one.
pub const FLOAT_ONE: u64 = 0x3FF0_0000_0000_0000;

/// The derivative of two variables by each other.
pub open spec fn derivative_pattern(a: Seq<char>, x: Seq<char>) -> Seq<PatNodeV> {
    seq![
        PatNodeV::Var(a),
        PatNodeV::Var(x),
        PatNodeV::Op("derivative"@, seq![0usize, 1usize]),
    ]
}

/// The rule that the derivative of a term by itself is one.
pub open spec fn self_rule(ty: Seq<char>) -> RewriteV {
    RewriteV {
        name: "derivative-self"@,
        lhs: derivative_pattern("?x"@, "?x"@),
        rhs: RewriteSideV::Pattern(
            seq![
                if is_float_name(ty) {
                    PatNodeV::Float(FLOAT_ONE)
                } else {
                    PatNodeV::Int(1)
                },
            ],
        ),
    }
}

/// Whether a struct is shaped like an array: one field, and a last generic that
/// stands for any number of them.
pub open spec fn tensor_shaped(s: StructEntry) -> bool {
    s.fields@.len() == 1 && s.generics@.len() > 0 && s.generics@.last().spec_variadic()
}

/// The one field of each struct that is shaped like an array.
pub open spec fn tensor_fields(registry: Registry) -> Map<Seq<char>, Seq<char>> {
    Map::new(
        |name: Seq<char>|
            registry.struct_of(name) matches Some(s) && tensor_shaped(s),
        |name: Seq<char>| registry.struct_of(name)->Some_0.fields@[0].name@,
    )
}

/// The rule that the derivative of a term that does not depend on what it is taken
/// by is zero.
pub open spec fn zero_rule(registry: Registry) -> RewriteV {
    RewriteV {
        name: "derivative-independent-zero"@,
        lhs: derivative_pattern("?a"@, "?x"@),
        rhs: RewriteSideV::IndependentZero(tensor_fields(registry)),
    }
}

fn draw_derivative_pattern(a: &str, x: &str) -> (r: Vec<PatNode>)
    ensures
        views(r@) == derivative_pattern(a@, x@),
{
    let mut out: Vec<PatNode> = Vec::new();
    out.push(PatNode::Var(a.to_owned()));
    out.push(PatNode::Var(x.to_owned()));
    let mut children: Vec<usize> = Vec::new();
    children.push(0);
    children.push(1);
    assert(children@ =~= seq![0usize, 1usize]);
    out.push(PatNode::Op("derivative".to_owned(), children));
    assert(views(out@) =~= derivative_pattern(a@, x@));
    out
}

proof fn lemma_struct_found(registry: Registry, from: nat, k: nat)
    requires
        from <= k < registry.structs@.len(),
    ensures
        struct_from(registry, from, registry.structs@[k as int].name@) is Some,
    decreases registry.structs@.len() - from,
{
    if from < k && registry.structs@[from as int].name@ != registry.structs@[k as int].name@ {
        lemma_struct_found(registry, from + 1, k);
    }
}

proof fn lemma_struct_place(registry: Registry, from: nat, name: Seq<char>)
    ensures
        struct_from(registry, from, name) matches Some(i) ==> from <= i < registry.structs@.len()
            && registry.structs@[i].name@ == name,
    decreases registry.structs@.len() - from,
{
    if from < registry.structs@.len() && registry.structs@[from as int].name@ != name {
        lemma_struct_place(registry, from + 1, name);
    }
}

/// The one field of each struct that is shaped like an array.
fn find_tensor_fields(registry: &Registry) -> (r: Table<String, String>)
    ensures
        r@ == tensor_fields(*registry),
{
    let mut out: Table<String, String> = Table::new();
    let mut i: usize = 0;
    let ghost goal = tensor_fields(*registry);
    while i < registry.structs.len()
        invariant
            i <= registry.structs.len(),
            goal == tensor_fields(*registry),
            forall|name: Seq<char>| #[trigger]
                out@.contains_key(name) ==> goal.contains_key(name) && out@[name] == goal[name],
            forall|k: int|
                0 <= k < i && goal.contains_key((#[trigger] registry.structs@[k]).name@)
                    ==> out@.contains_key(registry.structs@[k].name@),
        decreases registry.structs.len() - i,
    {
        let name = &registry.structs[i].name;
        proof {
            lemma_struct_found(*registry, 0, i as nat);
        }
        if let Some(s) = registry.struct_entry(name.as_str()) {
            if s.fields.len() == 1 && s.generics.len() > 0 && s.generics[s.generics.len()
                - 1].is_variadic() {
                assert(s.generics@.last() == s.generics@[s.generics@.len() - 1]);
                out.insert(name.clone(), s.fields[0].name.clone());
            }
        }
        i = i + 1;
    }
    proof {
        assert forall|name: Seq<char>| goal.contains_key(name) implies out@.contains_key(name) by {
            lemma_struct_place(*registry, 0, name);
            let k = struct_from(*registry, 0, name)->Some_0;
            assert(registry.structs@[k].name@ == name);
        }
        assert(out@ =~= goal);
    }
    out
}

/// The names of parameters.
pub open spec fn param_names(params: Seq<Param>) -> Seq<Seq<char>> {
    Seq::new(params.len(), |i: int| params[i].name@)
}

/// The types of the first `n` parameters of a rule, from the declaration of the
/// method that it is for.
pub open spec fn rule_env(
    params: Seq<Param>,
    declared: Seq<Param>,
    n: nat,
    ty: Seq<char>,
    subst: Map<Seq<char>, Seq<char>>,
) -> Map<Seq<char>, Seq<char>>
    decreases n,
{
    if n == 0 || n > params.len() || n > declared.len() {
        Map::empty()
    } else {
        let resolved = match declared[n - 1].ty {
            Some(t) => match declared_as(t, subst) {
                Some(text) => text,
                None => ty,
            },
            None => ty,
        };
        rule_env(params, declared, (n - 1) as nat, ty, subst).insert(params[n - 1].name@, resolved)
    }
}

/// A rule and the functions that it mentions.
pub struct DerivativeRuleV {
    pub rule: RewriteV,
    pub referenced: Set<Seq<char>>,
}

/// The rule that a declared derivative is for given types.
pub open spec fn derivative_rule(
    algebra: Seq<char>,
    ty: Seq<char>,
    decl: DerivativeRuleDecl,
    registry: Registry,
) -> Option<DerivativeRuleV> {
    match registry.sig_of(algebra, decl.method@) {
        None => None,
        Some(sig) => {
            let unit = unit_text(algebra, decl.method@, ty);
            let law = LawV {
                algebra,
                ty,
                type_env: rule_env(
                    decl.params@,
                    sig.params@,
                    shorter(decl.params@.len(), sig.params@.len()),
                    ty,
                    generics_as(algebra, ty, registry),
                ),
                differentiates: true,
            };
            match drawn(decl.body, law, registry, no_nodes(Set::empty())) {
                None => None,
                Some(rhs) => match rule_of(
                    "derivative-"@ + unit,
                    derivative_of(op_on_vars(unit, param_names(decl.params@))).ast,
                    rhs.draft.ast,
                ) {
                    None => None,
                    Some(rule) => Some(
                        DerivativeRuleV { rule, referenced: rhs.draft.referenced },
                    ),
                },
            }
        },
    }
}

/// A rule and the functions that it mentions.
pub struct DerivativeRule {
    pub rule: Rewrite,
    pub referenced: NameSet,
}

/// What a declared derivative gave, by its view.
pub open spec fn opt_derivative_rule(r: Option<DerivativeRule>) -> Option<DerivativeRuleV> {
    match r {
        Some(d) => Some(DerivativeRuleV { rule: d.rule@, referenced: d.referenced@ }),
        None => None,
    }
}

fn name_params(params: &Vec<Param>) -> (r: Vec<String>)
    ensures
        views(r@) == param_names(params@),
{
    let mut out: Vec<String> = Vec::new();
    let mut i: usize = 0;
    while i < params.len()
        invariant
            i <= params.len(),
            out@.len() == i,
            forall|k: int| 0 <= k < i ==> (#[trigger] out@[k])@ == params@[k].name@,
        decreases params.len() - i,
    {
        out.push(params[i].name.clone());
        i = i + 1;
    }
    assert(views(out@) =~= param_names(params@));
    out
}

/// The rule that a declared derivative is for given types.
pub fn derivative_rule_to_rewrite(
    algebra: &str,
    ty: &str,
    decl: &DerivativeRuleDecl,
    registry: &Registry,
) -> (r: Option<DerivativeRule>)
    ensures
        opt_derivative_rule(r) == derivative_rule(algebra@, ty@, *decl, *registry),
{
    let sig = match registry.fn_sig(algebra, decl.method.as_str()) {
        Some(sig) => sig,
        None => {
            return None;
        },
    };
    let subst: Table<String, String> = generic_substitution(algebra, ty, registry);
    let mut type_env: Table<String, String> = Table::new();
    let mut i: usize = 0;
    while i < decl.params.len() && i < sig.params.len()
        invariant
            i <= decl.params.len(),
            i <= sig.params.len(),
            type_env@ == rule_env(decl.params@, sig.params@, i as nat, ty@, subst@),
        decreases decl.params.len() - i,
    {
        let resolved: String = match &sig.params[i].ty {
            Some(t) => match resolve_declared_type(t, &subst) {
                Some(text) => text,
                None => ty.to_owned(),
            },
            None => ty.to_owned(),
        };
        type_env.insert(decl.params[i].name.clone(), resolved);
        i = i + 1;
    }
    let law: Law = Law { algebra, ty, type_env: &type_env, differentiates: true };
    let unit: String = unit_name_text(algebra, decl.method.as_str(), ty);
    let names: Vec<String> = name_params(&decl.params);
    let mut lhs: Draft = draw_op_on_vars(unit.as_str(), &names);
    draw_derivative(&mut lhs);
    let mut rhs: Draft = Draft::new();
    if rhs.build_pattern(&decl.body, &law, registry).is_none() {
        return None;
    }
    let name: String = text::glued("derivative-", unit.as_str());
    match new_rewrite(name, lhs.ast, rhs.ast) {
        None => None,
        Some(rule) => Some(DerivativeRule { rule, referenced: rhs.referenced }),
    }
}

/// Rules and the functions that they mention.
#[verifier::ext_equal]
pub struct RulesV {
    pub rules: Seq<RewriteV>,
    pub referenced: Set<Seq<char>>,
}

/// The rules with one more, if there is one.
pub open spec fn with_derivative_rule(st: RulesV, d: Option<DerivativeRuleV>) -> RulesV {
    match d {
        Some(d) => RulesV {
            rules: st.rules.push(d.rule),
            referenced: st.referenced.union(d.referenced),
        },
        None => st,
    }
}

/// The rules that a declared derivative is for the first `n` types, after the others.
pub open spec fn derivative_rules_for(
    algebra: Seq<char>,
    types: Seq<Seq<char>>,
    n: nat,
    decl: DerivativeRuleDecl,
    registry: Registry,
    st: RulesV,
) -> RulesV
    decreases n,
{
    if n == 0 || n > types.len() {
        st
    } else {
        with_derivative_rule(
            derivative_rules_for(algebra, types, (n - 1) as nat, decl, registry, st),
            derivative_rule(algebra, types[n - 1], decl, registry),
        )
    }
}

/// The rules that the first `n` declared derivatives of an algebra are, after the
/// others.
pub open spec fn algebra_derivative_rules(
    algebra: Seq<char>,
    types: Seq<Seq<char>>,
    decls: Seq<DerivativeRuleDecl>,
    n: nat,
    registry: Registry,
    st: RulesV,
) -> RulesV
    decreases n,
{
    if n == 0 || n > decls.len() {
        st
    } else {
        derivative_rules_for(
            algebra,
            types,
            types.len(),
            decls[n - 1],
            registry,
            algebra_derivative_rules(algebra, types, decls, (n - 1) as nat, registry, st),
        )
    }
}

/// The declared derivatives of an algebra.
pub open spec fn derivatives_of(registry: Registry, algebra: Seq<char>) -> Seq<DerivativeRuleDecl> {
    match registry.algebra_of(algebra) {
        Some(a) => a.derivative_rules@,
        None => Seq::empty(),
    }
}

/// The rules that the declared derivatives of the first `n` algebras are, after the
/// others.
pub open spec fn declared_rules(groups: ReachedV, n: nat, registry: Registry, st: RulesV) -> RulesV
    decreases n,
{
    if n == 0 || n > groups.len() {
        st
    } else {
        let g = groups[n - 1];
        let decls = derivatives_of(registry, g.0);
        algebra_derivative_rules(
            g.0,
            g.1,
            decls,
            decls.len(),
            registry,
            declared_rules(groups, (n - 1) as nat, registry, st),
        )
    }
}

/// The rules for derivatives: the two that hold of every term, and those that the
/// algebras that were reached declare.
pub open spec fn derivative_rules(
    ty: Seq<char>,
    reached: Seq<(Seq<char>, (Seq<char>, Seq<char>))>,
    registry: Registry,
) -> RulesV {
    let groups = reached_types(reached, reached.len());
    declared_rules(
        groups,
        groups.len(),
        registry,
        RulesV { rules: seq![self_rule(ty), zero_rule(registry)], referenced: Set::empty() },
    )
}

fn add_derivative_rules(
    group: &ReachedTypes,
    decls: &Vec<DerivativeRuleDecl>,
    registry: &Registry,
    rules: &mut Vec<Rewrite>,
    referenced: &mut NameSet,
)
    ensures
        (RulesV { rules: views(final(rules)@), referenced: final(referenced)@ })
            == algebra_derivative_rules(
            group@.0,
            group@.1,
            decls@,
            decls@.len(),
            *registry,
            RulesV { rules: views(old(rules)@), referenced: old(referenced)@ },
        ),
{
    let mut i: usize = 0;
    let ghost start = RulesV { rules: views(rules@), referenced: referenced@ };
    while i < decls.len()
        invariant
            i <= decls.len(),
            start == (RulesV { rules: views(old(rules)@), referenced: old(referenced)@ }),
            (RulesV { rules: views(rules@), referenced: referenced@ }) == algebra_derivative_rules(
                group@.0,
                group@.1,
                decls@,
                i as nat,
                *registry,
                start,
            ),
        decreases decls.len() - i,
    {
        let ghost before = RulesV { rules: views(rules@), referenced: referenced@ };
        let mut k: usize = 0;
        while k < group.types.len()
            invariant
                i < decls.len(),
                k <= group.types.len(),
                (RulesV { rules: views(rules@), referenced: referenced@ })
                    == derivative_rules_for(
                    group@.0,
                    group@.1,
                    k as nat,
                    decls@[i as int],
                    *registry,
                    before,
                ),
            decreases group.types.len() - k,
        {
            assert(group@.1[k as int] == group.types@[k as int]@);
            if let Some(d) = derivative_rule_to_rewrite(
                group.algebra.as_str(),
                group.types[k].as_str(),
                &decls[i],
                registry,
            ) {
                rules.push(d.rule);
                referenced.add_names(&d.referenced);
            }
            k = k + 1;
        }
        i = i + 1;
    }
}

/// The rules for derivatives, and the functions that the declared ones mention.
pub fn derivative_rewrites(
    ty: &str,
    reached: &Listing<(String, String)>,
    registry: &Registry,
) -> (r: (Vec<Rewrite>, NameSet))
    ensures
        (RulesV { rules: views(r.0@), referenced: r.1@ }) == derivative_rules(
            ty@,
            reached@,
            *registry,
        ),
{
    let mut rules: Vec<Rewrite> = Vec::new();
    let one: PatNode = if names_float(ty) { PatNode::Float(FLOAT_ONE) } else { PatNode::Int(1) };
    let mut one_side: Vec<PatNode> = Vec::new();
    one_side.push(one);
    assert(views(one_side@) =~= seq![one@]);
    rules.push(
        Rewrite {
            name: "derivative-self".to_owned(),
            lhs: draw_derivative_pattern("?x", "?x"),
            rhs: RewriteSide::Pattern(one_side),
        },
    );
    rules.push(
        Rewrite {
            name: "derivative-independent-zero".to_owned(),
            lhs: draw_derivative_pattern("?a", "?x"),
            rhs: RewriteSide::IndependentZero(find_tensor_fields(registry)),
        },
    );
    assert(views(rules@) =~= seq![self_rule(ty@), zero_rule(*registry)]);
    let mut referenced: NameSet = NameSet::new();
    let groups: Vec<ReachedTypes> = group_reached(reached);
    let ghost all = views(groups@);
    let ghost start = RulesV { rules: views(rules@), referenced: referenced@ };
    let mut g: usize = 0;
    while g < groups.len()
        invariant
            g <= groups.len(),
            all == views(groups@),
            (RulesV { rules: views(rules@), referenced: referenced@ }) == declared_rules(
                all,
                g as nat,
                *registry,
                start,
            ),
        decreases groups.len() - g,
    {
        let group = &groups[g];
        assert(all[g as int] == group@);
        if let Some(a) = registry.algebra(group.algebra.as_str()) {
            add_derivative_rules(
                group,
                &a.derivative_rules,
                registry,
                &mut rules,
                &mut referenced,
            );
        }
        g = g + 1;
    }
    (rules, referenced)
}

} // verus!
