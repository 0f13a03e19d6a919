//! Every node of a program, and of the programs of several files, has a number of
//! its own.

use vstd::prelude::*;

use crate::ast::FileId;
use crate::ast_views::TypeV;
use crate::decl_views::{
    AlgebraDeclV, AlgebraItemKindV, AlgebraItemV, FieldV, FnDeclV, FnSigV, GenericParamV,
    ImplDeclV, InherentImplDeclV, ItemKindV, ItemV, NamedExprV, ProgramV, StructDeclV,
};
use crate::lower_items::{
    attrs_end, low_algebra_decl, low_algebra_impl, low_algebra_item, low_algebra_items,
    low_derive_decl, low_fields, low_fn_decl, low_fn_sig, low_fns, low_generic_param, low_generics,
    low_generics_at, low_inherent_impl, low_item, low_item_kind, low_items, low_named_expr,
    low_program, low_struct_decl, low_targets, past, types_end,
};
use crate::lower_laws::{
    lemma_block_numbers, lemma_expr_numbers, lemma_params_at, lemma_type_at, lemma_type_numbers,
};
use crate::lower_specs::{low_block, low_expr, low_params_at, low_type, low_type_at};
use crate::node_counts::{
    numbers_of_algebra_decl, numbers_of_algebra_impl, numbers_of_algebra_item, numbers_of_algebra_items, numbers_of_block, numbers_of_expr, numbers_of_fields, numbers_of_fn_decl, numbers_of_fn_sig, numbers_of_fns, numbers_of_generic_param, numbers_of_generics, numbers_of_generics_at, numbers_of_inherent_impl, numbers_of_item, numbers_of_item_kind, numbers_of_items, numbers_of_named_expr, numbers_of_params_at, numbers_of_program, numbers_of_struct_decl, numbers_of_targets, numbers_of_type, numbers_of_type_at,
};
use crate::node_ids::{
    ids_block, ids_expr, ids_opt_type, ids_params, ids_type, ids_types, lemma_join,
    lemma_no_numbers, lemma_node, lemma_push_types, numbered_from, spread,
};
use crate::tree::{is_at, Rule, Tree};

verus! {

/// The numbers of the nodes of a generic that is declared.
pub open spec fn ids_generic_param(g: GenericParamV) -> Seq<u32> {
    match g {
        GenericParamV::Type { .. } => Seq::empty(),
        GenericParamV::Const { ty, .. } => ids_type(ty),
    }
}

/// The numbers of the nodes of a field.
pub open spec fn ids_field(d: FieldV) -> Seq<u32> {
    ids_type(d.ty)
}

/// The numbers of the nodes of a function.
pub open spec fn ids_fn(d: FnDeclV) -> Seq<u32> {
    ids_generic_params(d.generics, d.generics.len()) + ids_params(d.params, d.params.len())
        + ids_opt_type(d.ret) + match d.body {
        None => Seq::empty(),
        Some(b) => ids_block(b),
    }
}

/// The numbers of the nodes of a struct.
pub open spec fn ids_struct(d: StructDeclV) -> Seq<u32> {
    ids_generic_params(d.generics, d.generics.len()) + ids_fields(d.fields, d.fields.len())
}

/// The numbers of the nodes of a function that an algebra declares.
pub open spec fn ids_sig(d: FnSigV) -> Seq<u32> {
    ids_params(d.params, d.params.len()) + ids_opt_type(d.ret)
}

/// The numbers of the nodes of a law, or of a rule for a derivative.
pub open spec fn ids_named(d: NamedExprV) -> Seq<u32> {
    ids_params(d.params, d.params.len()) + ids_expr(d.body)
}

/// The numbers of the nodes of what an algebra declares.
pub open spec fn ids_algebra_item(d: AlgebraItemV) -> Seq<u32> {
    seq![d.id.0] + match d.kind {
        AlgebraItemKindV::FnSig(s) => ids_sig(s),
        AlgebraItemKindV::Axiom(x) => ids_named(x),
        AlgebraItemKindV::DerivativeRule(x) => ids_named(x),
    }
}

/// The numbers of the nodes of an algebra.
pub open spec fn ids_algebra(d: AlgebraDeclV) -> Seq<u32> {
    ids_generic_params(d.generics, d.generics.len()) + ids_algebra_items(d.items, d.items.len())
}

/// The numbers of the nodes of an impl.
pub open spec fn ids_impl(d: ImplDeclV) -> Seq<u32> {
    ids_generic_params(d.generics, d.generics.len()) + ids_type(d.target) + ids_types(
        d.extra_targets,
        d.extra_targets.len(),
    ) + ids_fns(d.fns, d.fns.len())
}

/// The numbers of the nodes of the methods that a type has by itself.
pub open spec fn ids_inherent(d: InherentImplDeclV) -> Seq<u32> {
    ids_generic_params(d.generics, d.generics.len()) + ids_type(d.target) + ids_fns(
        d.fns,
        d.fns.len(),
    )
}

/// The numbers of the nodes below an item.
pub open spec fn ids_item_kind(k: ItemKindV) -> Seq<u32> {
    match k {
        ItemKindV::Use(_) => Seq::empty(),
        ItemKindV::Struct(d) => ids_struct(d),
        ItemKindV::Algebra(d) => ids_algebra(d),
        ItemKindV::Impl(d) => ids_impl(d),
        ItemKindV::InherentImpl(d) => ids_inherent(d),
        ItemKindV::Fn(d) => ids_fn(d),
    }
}

/// The numbers of the nodes of an item.
pub open spec fn ids_item(d: ItemV) -> Seq<u32> {
    seq![d.id.0] + ids_item_kind(d.kind)
}

/// The numbers of the nodes of a program.
pub open spec fn ids_program(p: ProgramV) -> Seq<u32> {
    ids_items(p.items, p.items.len())
}

/// The numbers of the nodes of the first `n` generics.
pub open spec fn ids_generic_params(s: Seq<GenericParamV>, n: nat) -> Seq<u32>
    decreases n,
{
    if n == 0 || n > s.len() {
        Seq::empty()
    } else {
        ids_generic_params(s, (n - 1) as nat) + ids_generic_param(s[n - 1])
    }
}

proof fn lemma_front_generic_params(a: Seq<GenericParamV>, b: Seq<GenericParamV>, n: nat)
    requires
        n <= a.len(),
        n <= b.len(),
        forall|i: int| 0 <= i < n ==> a[i] == b[i],
    ensures
        ids_generic_params(a, n) == ids_generic_params(b, n),
    decreases n,
{
    if n > 0 {
        lemma_front_generic_params(a, b, (n - 1) as nat);
    }
}

proof fn lemma_more_generic_params(
    before: Seq<GenericParamV>,
    id: u32,
    a: nat,
    mid: u32,
    x: GenericParamV,
    b: nat,
    next: u32,
)
    requires
        numbered_from(ids_generic_params(before, before.len()), id, a, mid),
        numbered_from(ids_generic_param(x), mid, b, next),
    ensures
        numbered_from(ids_generic_params(before.push(x), before.push(x).len()), id, a + b, next),
{
    lemma_front_generic_params(before, before.push(x), before.len());
    lemma_join(ids_generic_params(before, before.len()), id, a, mid, ids_generic_param(x), b, next);
}

/// The numbers of the nodes of the first `n` fields.
pub open spec fn ids_fields(s: Seq<FieldV>, n: nat) -> Seq<u32>
    decreases n,
{
    if n == 0 || n > s.len() {
        Seq::empty()
    } else {
        ids_fields(s, (n - 1) as nat) + ids_field(s[n - 1])
    }
}

proof fn lemma_front_fields(a: Seq<FieldV>, b: Seq<FieldV>, n: nat)
    requires
        n <= a.len(),
        n <= b.len(),
        forall|i: int| 0 <= i < n ==> a[i] == b[i],
    ensures
        ids_fields(a, n) == ids_fields(b, n),
    decreases n,
{
    if n > 0 {
        lemma_front_fields(a, b, (n - 1) as nat);
    }
}

proof fn lemma_more_fields(
    before: Seq<FieldV>,
    id: u32,
    a: nat,
    mid: u32,
    x: FieldV,
    b: nat,
    next: u32,
)
    requires
        numbered_from(ids_fields(before, before.len()), id, a, mid),
        numbered_from(ids_field(x), mid, b, next),
    ensures
        numbered_from(ids_fields(before.push(x), before.push(x).len()), id, a + b, next),
{
    lemma_front_fields(before, before.push(x), before.len());
    lemma_join(ids_fields(before, before.len()), id, a, mid, ids_field(x), b, next);
}

/// The numbers of the nodes of the first `n` functions.
pub open spec fn ids_fns(s: Seq<FnDeclV>, n: nat) -> Seq<u32>
    decreases n,
{
    if n == 0 || n > s.len() {
        Seq::empty()
    } else {
        ids_fns(s, (n - 1) as nat) + ids_fn(s[n - 1])
    }
}

proof fn lemma_front_fns(a: Seq<FnDeclV>, b: Seq<FnDeclV>, n: nat)
    requires
        n <= a.len(),
        n <= b.len(),
        forall|i: int| 0 <= i < n ==> a[i] == b[i],
    ensures
        ids_fns(a, n) == ids_fns(b, n),
    decreases n,
{
    if n > 0 {
        lemma_front_fns(a, b, (n - 1) as nat);
    }
}

proof fn lemma_more_fns(
    before: Seq<FnDeclV>,
    id: u32,
    a: nat,
    mid: u32,
    x: FnDeclV,
    b: nat,
    next: u32,
)
    requires
        numbered_from(ids_fns(before, before.len()), id, a, mid),
        numbered_from(ids_fn(x), mid, b, next),
    ensures
        numbered_from(ids_fns(before.push(x), before.push(x).len()), id, a + b, next),
{
    lemma_front_fns(before, before.push(x), before.len());
    lemma_join(ids_fns(before, before.len()), id, a, mid, ids_fn(x), b, next);
}

/// The numbers of the nodes of the first `n` declarations.
pub open spec fn ids_algebra_items(s: Seq<AlgebraItemV>, n: nat) -> Seq<u32>
    decreases n,
{
    if n == 0 || n > s.len() {
        Seq::empty()
    } else {
        ids_algebra_items(s, (n - 1) as nat) + ids_algebra_item(s[n - 1])
    }
}

proof fn lemma_front_algebra_items(a: Seq<AlgebraItemV>, b: Seq<AlgebraItemV>, n: nat)
    requires
        n <= a.len(),
        n <= b.len(),
        forall|i: int| 0 <= i < n ==> a[i] == b[i],
    ensures
        ids_algebra_items(a, n) == ids_algebra_items(b, n),
    decreases n,
{
    if n > 0 {
        lemma_front_algebra_items(a, b, (n - 1) as nat);
    }
}

proof fn lemma_more_algebra_items(
    before: Seq<AlgebraItemV>,
    id: u32,
    a: nat,
    mid: u32,
    x: AlgebraItemV,
    b: nat,
    next: u32,
)
    requires
        numbered_from(ids_algebra_items(before, before.len()), id, a, mid),
        numbered_from(ids_algebra_item(x), mid, b, next),
    ensures
        numbered_from(ids_algebra_items(before.push(x), before.push(x).len()), id, a + b, next),
{
    lemma_front_algebra_items(before, before.push(x), before.len());
    lemma_join(ids_algebra_items(before, before.len()), id, a, mid, ids_algebra_item(x), b, next);
}

/// The numbers of the nodes of the first `n` items.
pub open spec fn ids_items(s: Seq<ItemV>, n: nat) -> Seq<u32>
    decreases n,
{
    if n == 0 || n > s.len() {
        Seq::empty()
    } else {
        ids_items(s, (n - 1) as nat) + ids_item(s[n - 1])
    }
}

proof fn lemma_front_items(a: Seq<ItemV>, b: Seq<ItemV>, n: nat)
    requires
        n <= a.len(),
        n <= b.len(),
        forall|i: int| 0 <= i < n ==> a[i] == b[i],
    ensures
        ids_items(a, n) == ids_items(b, n),
    decreases n,
{
    if n > 0 {
        lemma_front_items(a, b, (n - 1) as nat);
    }
}

proof fn lemma_more_items(
    before: Seq<ItemV>,
    id: u32,
    a: nat,
    mid: u32,
    x: ItemV,
    b: nat,
    next: u32,
)
    requires
        numbered_from(ids_items(before, before.len()), id, a, mid),
        numbered_from(ids_item(x), mid, b, next),
    ensures
        numbered_from(ids_items(before.push(x), before.push(x).len()), id, a + b, next),
{
    lemma_front_items(before, before.push(x), before.len());
    lemma_join(ids_items(before, before.len()), id, a, mid, ids_item(x), b, next);
}

proof fn lemma_generic_param(t: Tree, f: FileId, id: u32)
    ensures
        low_generic_param(t, f, id) matches Some(r) ==> numbered_from(
            ids_generic_param(r.value),
            id,
            numbers_of_generic_param(t),
            r.next,
        ),
{
    let at: int = if is_at(t.children, 1, Rule::PackMarker) {
        2
    } else {
        1
    };
    lemma_no_numbers(id);
    if t.children@.len() == at + 1 && t.children@[at].rule == Rule::Type {
        lemma_type_numbers(t.children@[at], f, id)
    }
}

proof fn lemma_generics(children: Vec<Tree>, k: nat, f: FileId, id: u32)
    ensures
        low_generics(children, k, f, id) matches Some(r) ==> numbered_from(
            ids_generic_params(r.value, r.value.len()),
            id,
            numbers_of_generics(children, k),
            r.next,
        ),
    decreases k,
{
    if k == 0 || k > children@.len() {
        lemma_no_numbers(id);
    } else {
        lemma_generics(children, (k - 1) as nat, f, id);
        let a = numbers_of_generics(children, (k - 1) as nat);
        if let Some(before) = low_generics(children, (k - 1) as nat, f, id) {
            lemma_generic_param(children@[k - 1], f, before.next);
            let b = numbers_of_generic_param(children@[k - 1]);
            if let Some(x) = low_generic_param(children@[k - 1], f, before.next) {
                lemma_more_generic_params(before.value, id, a, before.next, x.value, b, x.next);
            }
        }
    }
}

proof fn lemma_generics_at(children: Vec<Tree>, i: nat, f: FileId, id: u32)
    ensures
        low_generics_at(children, i, f, id) matches Some(r) ==> numbered_from(
            ids_generic_params(r.value, r.value.len()),
            id,
            numbers_of_generics_at(children, i),
            r.next,
        ),
{
    if is_at(children, i as int, Rule::GenericParams) {
        lemma_generics(children@[i as int].children, children@[i as int].children@.len(), f, id)
    } else {
        lemma_no_numbers(id);
    }
}

proof fn lemma_fn_decl(t: Tree, f: FileId, id: u32)
    ensures
        low_fn_decl(t, f, id) matches Some(r) ==> numbered_from(
            ids_fn(r.value),
            id,
            numbers_of_fn_decl(t),
            r.next,
        ),
{
    let at = past(t.children, past(t.children, attrs_end(t.children, 0), Rule::ExternKw), Rule::ExportKw);
    let g = at + 1;
    let p = past(t.children, g, Rule::GenericParams);
    let r = past(t.children, p, Rule::ParamList);
    let b = past(t.children, r, Rule::Type);
    lemma_generics_at(t.children, g, f, id);
    let n1 = numbers_of_generics_at(t.children, g);
    if let Some(generics) = low_generics_at(t.children, g, f, id) {
        lemma_params_at(t.children, p, f, generics.next);
        let n2 = numbers_of_params_at(t.children, p);
        if let Some(params) = low_params_at(t.children, p, f, generics.next) {
            lemma_type_at(t.children, r, f, params.next);
            let n3 = numbers_of_type_at(t.children, r);
            if let Some(ret) = low_type_at(t.children, r, f, params.next) {
                let x = ids_generic_params(generics.value, generics.value.len());
                let y = ids_params(params.value, params.value.len());
                let z = ids_opt_type(ret.value);
                lemma_join(x, id, n1, generics.next, y, n2, params.next);
                lemma_join(x + y, id, n1 + n2, params.next, z, n3, ret.next);
                if b < t.children@.len() {
                    lemma_block_numbers(t.children@[b as int], f, ret.next);
                    let n4 = numbers_of_block(t.children@[b as int]);
                    if let Some(body) = low_block(t.children@[b as int], f, ret.next) {
                        lemma_join(
                            x + y + z,
                            id,
                            n1 + n2 + n3,
                            ret.next,
                            ids_block(body.value),
                            n4,
                            body.next,
                        );
                    }
                } else {
                    assert(x + y + z + Seq::<u32>::empty() =~= x + y + z);
                }
            }
        }
    }
}

proof fn lemma_fns(children: Vec<Tree>, from: nat, k: nat, f: FileId, id: u32)
    ensures
        low_fns(children, from, k, f, id) matches Some(r) ==> numbered_from(
            ids_fns(r.value, r.value.len()),
            id,
            numbers_of_fns(children, from, k),
            r.next,
        ),
    decreases k,
{
    if k <= from || k > children@.len() {
        lemma_no_numbers(id);
    } else {
        lemma_fns(children, from, (k - 1) as nat, f, id);
        let a = numbers_of_fns(children, from, (k - 1) as nat);
        if let Some(before) = low_fns(children, from, (k - 1) as nat, f, id) {
            lemma_fn_decl(children@[k - 1], f, before.next);
            let b = numbers_of_fn_decl(children@[k - 1]);
            if let Some(x) = low_fn_decl(children@[k - 1], f, before.next) {
                lemma_more_fns(before.value, id, a, before.next, x.value, b, x.next);
            }
        }
    }
}

proof fn lemma_targets(children: Vec<Tree>, from: nat, k: nat, f: FileId, id: u32)
    ensures
        low_targets(children, from, k, f, id) matches Some(r) ==> numbered_from(
            ids_types(r.value, r.value.len()),
            id,
            numbers_of_targets(children, from, k),
            r.next,
        ),
    decreases k,
{
    if k <= from || k > children@.len() {
        lemma_no_numbers(id);
    } else {
        lemma_targets(children, from, (k - 1) as nat, f, id);
        let a = numbers_of_targets(children, from, (k - 1) as nat);
        if let Some(before) = low_targets(children, from, (k - 1) as nat, f, id) {
            lemma_type_numbers(children@[k - 1], f, before.next);
            let b = numbers_of_type(children@[k - 1]);
            if let Some(x) = low_type(children@[k - 1], f, before.next) {
                lemma_more_types(before.value, id, a, before.next, x.value, b, x.next);
            }
        }
    }
}

proof fn lemma_more_types(
    before: Seq<TypeV>,
    id: u32,
    a: nat,
    mid: u32,
    x: TypeV,
    b: nat,
    next: u32,
)
    requires
        numbered_from(ids_types(before, before.len()), id, a, mid),
        numbered_from(ids_type(x), mid, b, next),
    ensures
        numbered_from(ids_types(before.push(x), before.push(x).len()), id, a + b, next),
{
    lemma_push_types(before, x);
    lemma_join(ids_types(before, before.len()), id, a, mid, ids_type(x), b, next);
}

proof fn lemma_fields(children: Vec<Tree>, k: nat, f: FileId, id: u32)
    ensures
        low_fields(children, k, f, id) matches Some(r) ==> numbered_from(
            ids_fields(r.value, r.value.len()),
            id,
            numbers_of_fields(children, k),
            r.next,
        ),
    decreases k,
{
    if k == 0 || k > children@.len() {
        lemma_no_numbers(id);
    } else {
        lemma_fields(children, (k - 1) as nat, f, id);
        let a = numbers_of_fields(children, (k - 1) as nat);
        if let Some(before) = low_fields(children, (k - 1) as nat, f, id) {
            let field = children@[k - 1];
            if field.children@.len() >= 2 {
                lemma_type_numbers(field.children@[1], f, before.next);
                let b = numbers_of_type(field.children@[1]);
                if let Some(ty) = low_type(field.children@[1], f, before.next) {
                    lemma_more_fields(
                        before.value,
                        id,
                        a,
                        before.next,
                        FieldV { name: field.children@[0].text@, ty: ty.value },
                        b,
                        ty.next,
                    );
                }
            }
        }
    }
}

proof fn lemma_struct_decl(t: Tree, f: FileId, id: u32)
    ensures
        low_struct_decl(t, f, id) matches Some(r) ==> numbered_from(
            ids_struct(r.value),
            id,
            numbers_of_struct_decl(t),
            r.next,
        ),
{
    let at = past(t.children, 1, Rule::GenericParams) as int;
    lemma_generics_at(t.children, 1, f, id);
    let a = numbers_of_generics_at(t.children, 1);
    if let Some(generics) = low_generics_at(t.children, 1, f, id) {
        let x = ids_generic_params(generics.value, generics.value.len());
        if at < t.children@.len() {
            let parts = t.children@[at].children;
            lemma_fields(parts, parts@.len(), f, generics.next);
            let b = numbers_of_fields(parts, parts@.len());
            if let Some(fields) = low_fields(parts, parts@.len(), f, generics.next) {
                lemma_join(
                    x,
                    id,
                    a,
                    generics.next,
                    ids_fields(fields.value, fields.value.len()),
                    b,
                    fields.next,
                );
            }
        } else {
            assert(x + ids_fields(Seq::empty(), 0) =~= x);
        }
    }
}

proof fn lemma_fn_sig(t: Tree, f: FileId, id: u32)
    ensures
        low_fn_sig(t, f, id) matches Some(r) ==> numbered_from(
            ids_sig(r.value),
            id,
            numbers_of_fn_sig(t),
            r.next,
        ),
{
    let at = past(t.children, 1, Rule::ParamList) as int;
    lemma_params_at(t.children, 1, f, id);
    let a = numbers_of_params_at(t.children, 1);
    if let Some(params) = low_params_at(t.children, 1, f, id) {
        let x = ids_params(params.value, params.value.len());
        if at < t.children@.len() {
            lemma_type_numbers(t.children@[at], f, params.next);
            let b = numbers_of_type(t.children@[at]);
            if let Some(ty) = low_type(t.children@[at], f, params.next) {
                lemma_join(x, id, a, params.next, ids_type(ty.value), b, ty.next);
            }
        } else {
            assert(x + ids_opt_type(None) =~= x);
        }
    }
}

proof fn lemma_named_expr(t: Tree, f: FileId, id: u32)
    ensures
        low_named_expr(t, f, id) matches Some(r) ==> numbered_from(
            ids_named(r.value),
            id,
            numbers_of_named_expr(t),
            r.next,
        ),
{
    let at = past(t.children, 1, Rule::ParamList) as int;
    lemma_params_at(t.children, 1, f, id);
    let a = numbers_of_params_at(t.children, 1);
    if let Some(params) = low_params_at(t.children, 1, f, id) {
        if at < t.children@.len() {
            lemma_expr_numbers(t.children@[at], f, params.next);
            let b = numbers_of_expr(t.children@[at]);
            if let Some(body) = low_expr(t.children@[at], f, params.next) {
                lemma_join(
                    ids_params(params.value, params.value.len()),
                    id,
                    a,
                    params.next,
                    ids_expr(body.value),
                    b,
                    body.next,
                );
            }
        }
    }
}

proof fn lemma_algebra_item(t: Tree, f: FileId, id: u32)
    ensures
        low_algebra_item(t, f, id) matches Some(r) ==> numbered_from(
            ids_algebra_item(r.value),
            id,
            numbers_of_algebra_item(t),
            r.next,
        ),
{
    if t.children@.len() > 0 {
        let inner = t.children@[0];
        if inner.rule == Rule::FnSig {
            lemma_fn_sig(inner, f, id);
            let a = numbers_of_fn_sig(inner);
            if let Some(s) = low_fn_sig(inner, f, id) {
                lemma_node(ids_sig(s.value), id, a, s.next);
            }
        } else {
            lemma_named_expr(inner, f, id);
            let a = numbers_of_named_expr(inner);
            if let Some(d) = low_named_expr(inner, f, id) {
                lemma_node(ids_named(d.value), id, a, d.next);
            }
        }
    }
}

proof fn lemma_algebra_items(children: Vec<Tree>, from: nat, k: nat, f: FileId, id: u32)
    ensures
        low_algebra_items(children, from, k, f, id) matches Some(r) ==> numbered_from(
            ids_algebra_items(r.value, r.value.len()),
            id,
            numbers_of_algebra_items(children, from, k),
            r.next,
        ),
    decreases k,
{
    if k <= from || k > children@.len() {
        lemma_no_numbers(id);
    } else {
        lemma_algebra_items(children, from, (k - 1) as nat, f, id);
        let a = numbers_of_algebra_items(children, from, (k - 1) as nat);
        if let Some(before) = low_algebra_items(children, from, (k - 1) as nat, f, id) {
            lemma_algebra_item(children@[k - 1], f, before.next);
            let b = numbers_of_algebra_item(children@[k - 1]);
            if let Some(x) = low_algebra_item(children@[k - 1], f, before.next) {
                lemma_more_algebra_items(before.value, id, a, before.next, x.value, b, x.next);
            }
        }
    }
}

proof fn lemma_algebra_decl(t: Tree, f: FileId, id: u32)
    ensures
        low_algebra_decl(t, f, id) matches Some(r) ==> numbered_from(
            ids_algebra(r.value),
            id,
            numbers_of_algebra_decl(t),
            r.next,
        ),
{
    let b = past(t.children, 1, Rule::GenericParams);
    let i = past(t.children, b, Rule::BoundList);
    lemma_generics_at(t.children, 1, f, id);
    let n1 = numbers_of_generics_at(t.children, 1);
    if let Some(generics) = low_generics_at(t.children, 1, f, id) {
        let k = t.children@.len();
        lemma_algebra_items(t.children, i, k, f, generics.next);
        let n2 = numbers_of_algebra_items(t.children, i, k);
        if let Some(items) = low_algebra_items(t.children, i, k, f, generics.next) {
            lemma_join(
                ids_generic_params(generics.value, generics.value.len()),
                id,
                n1,
                generics.next,
                ids_algebra_items(items.value, items.value.len()),
                n2,
                items.next,
            );
        }
    }
}

proof fn lemma_algebra_impl(t: Tree, f: FileId, id: u32)
    ensures
        low_algebra_impl(t, f, id) matches Some(r) ==> numbered_from(
            ids_impl(r.value),
            id,
            numbers_of_algebra_impl(t),
            r.next,
        ),
{
    let a = attrs_end(t.children, 0);
    let at = past(t.children, a, Rule::GenericParams);
    if at + 1 < t.children@.len() {
        let e = types_end(t.children, at + 2);
        let k = t.children@.len();
        lemma_generics_at(t.children, a, f, id);
        let n1 = numbers_of_generics_at(t.children, a);
        if let Some(generics) = low_generics_at(t.children, a, f, id) {
            lemma_type_numbers(t.children@[at as int + 1], f, generics.next);
            let n2 = numbers_of_type(t.children@[at as int + 1]);
            if let Some(target) = low_type(t.children@[at as int + 1], f, generics.next) {
                lemma_targets(t.children, at + 2, e, f, target.next);
                let n3 = numbers_of_targets(t.children, at + 2, e);
                if let Some(extra) = low_targets(t.children, at + 2, e, f, target.next) {
                    lemma_fns(t.children, e, k, f, extra.next);
                    let n4 = numbers_of_fns(t.children, e, k);
                    if let Some(fns) = low_fns(t.children, e, k, f, extra.next) {
                        let x = ids_generic_params(
                            generics.value,
                            generics.value.len(),
                        );
                        let y = ids_type(target.value);
                        let z = ids_types(extra.value, extra.value.len());
                        let u = ids_fns(fns.value, fns.value.len());
                        lemma_join(x, id, n1, generics.next, y, n2, target.next);
                        lemma_join(
                            x + y,
                            id,
                            n1 + n2,
                            target.next,
                            z,
                            n3,
                            extra.next,
                        );
                        lemma_join(
                            x + y + z,
                            id,
                            n1 + n2 + n3,
                            extra.next,
                            u,
                            n4,
                            fns.next,
                        );
                    }
                }
            }
        }
    }
}

proof fn lemma_inherent_impl(t: Tree, f: FileId, id: u32)
    ensures
        low_inherent_impl(t, f, id) matches Some(r) ==> numbered_from(
            ids_inherent(r.value),
            id,
            numbers_of_inherent_impl(t),
            r.next,
        ),
{
    let at = past(t.children, 0, Rule::GenericParams);
    if at < t.children@.len() {
        let k = t.children@.len();
        lemma_generics_at(t.children, 0, f, id);
        let n1 = numbers_of_generics_at(t.children, 0);
        if let Some(generics) = low_generics_at(t.children, 0, f, id) {
            lemma_type_numbers(t.children@[at as int], f, generics.next);
            let n2 = numbers_of_type(t.children@[at as int]);
            if let Some(target) = low_type(t.children@[at as int], f, generics.next) {
                lemma_fns(t.children, at + 1, k, f, target.next);
                let n3 = numbers_of_fns(t.children, at + 1, k);
                if let Some(fns) = low_fns(t.children, at + 1, k, f, target.next) {
                    let x = ids_generic_params(generics.value, generics.value.len());
                    let y = ids_type(target.value);
                    let z = ids_fns(fns.value, fns.value.len());
                    lemma_join(x, id, n1, generics.next, y, n2, target.next);
                    lemma_join(x + y, id, n1 + n2, target.next, z, n3, fns.next);
                }
            }
        }
    }
}

proof fn lemma_item_kind(inner: Tree, f: FileId, id: u32)
    ensures
        low_item_kind(inner, f, id) matches Some(r) ==> numbered_from(
            ids_item_kind(r.value),
            id,
            numbers_of_item_kind(inner),
            r.next,
        ),
{
    match inner.rule {
        Rule::StructDecl => lemma_struct_decl(inner, f, id),
        Rule::AlgebraDecl => lemma_algebra_decl(inner, f, id),
        Rule::ImplDecl => if is_at(inner.children, 0, Rule::AlgebraImpl) {
            lemma_algebra_impl(inner.children@[0], f, id)
        } else if is_at(inner.children, 0, Rule::InherentImpl) {
            lemma_inherent_impl(inner.children@[0], f, id)
        },
        Rule::FnDecl => lemma_fn_decl(inner, f, id),
        Rule::DeriveDecl => {
            lemma_no_numbers(id);
            if let Some(d) = low_derive_decl(inner) {
                assert(ids_fn(d) =~= Seq::<u32>::empty());
            }
        },
        _ => {
            lemma_no_numbers(id);
        },
    }
}

proof fn lemma_item(t: Tree, f: FileId, id: u32)
    ensures
        low_item(t, f, id) matches Some(r) ==> numbered_from(
            ids_item(r.value),
            id,
            numbers_of_item(t),
            r.next,
        ),
{
    if t.children@.len() > 0 {
        lemma_item_kind(t.children@[0], f, id);
        let a = numbers_of_item_kind(t.children@[0]);
        if let Some(k) = low_item_kind(t.children@[0], f, id) {
            lemma_node(ids_item_kind(k.value), id, a, k.next);
        }
    }
}

proof fn lemma_items(children: Vec<Tree>, k: nat, f: FileId, id: u32)
    ensures
        low_items(children, k, f, id) matches Some(r) ==> numbered_from(
            ids_items(r.value, r.value.len()),
            id,
            numbers_of_items(children, k),
            r.next,
        ),
    decreases k,
{
    if k == 0 || k > children@.len() {
        lemma_no_numbers(id);
    } else {
        lemma_items(children, (k - 1) as nat, f, id);
        let a = numbers_of_items(children, (k - 1) as nat);
        if let Some(before) = low_items(children, (k - 1) as nat, f, id) {
            if children@[k - 1].rule == Rule::Item {
                lemma_item(children@[k - 1], f, before.next);
                let b = numbers_of_item(children@[k - 1]);
                if let Some(x) = low_item(children@[k - 1], f, before.next) {
                    lemma_more_items(before.value, id, a, before.next, x.value, b, x.next);
                }
            }
        }
    }
}

/// The nodes of a program have numbers that differ from one another: they are among the
/// numbers from the first one on, as many as the program takes, as long as the numbers
/// last.
pub proof fn lemma_program_numbers(t: Tree, f: FileId, id: u32)
    ensures
        low_program(t, f, id) matches Some(r) ==> id + numbers_of_program(t) <= u32::MAX
            ==> r.next == id + numbers_of_program(t) && spread(
            ids_program(r.value),
            id as int,
            r.next as int,
        ),
{
    lemma_items(t.children, t.children@.len(), f, id)
}

/// Where the numbers of a second file continue those of a first one, no node of the
/// one has the number of a node of the other, or of another node of its own file, as long
/// as the numbers last.
pub proof fn lemma_files_share_no_number(
    first: Tree,
    f: FileId,
    second: Tree,
    g: FileId,
    id: u32,
)
    ensures
        low_program(first, f, id) matches Some(a) ==> (low_program(second, g, a.next) matches Some(
            b,
        ) ==> id + numbers_of_program(first) + numbers_of_program(second) <= u32::MAX ==> b.next
            == id + numbers_of_program(first) + numbers_of_program(second) && spread(
            ids_program(a.value) + ids_program(b.value),
            id as int,
            b.next as int,
        )),
{
    lemma_program_numbers(first, f, id);
    let x = numbers_of_program(first);
    if let Some(a) = low_program(first, f, id) {
        lemma_program_numbers(second, g, a.next);
        let y = numbers_of_program(second);
        if let Some(b) = low_program(second, g, a.next) {
            lemma_join(
                ids_program(a.value),
                id,
                x,
                a.next,
                ids_program(b.value),
                y,
                b.next,
            );
        }
    }
}

/// The places of the items among the first `k` parts of a file.
pub open spec fn item_places(children: Vec<Tree>, k: nat) -> Seq<nat>
    decreases k,
{
    if k == 0 || k > children@.len() {
        Seq::empty()
    } else if children@[k - 1].rule == Rule::Item {
        item_places(children, (k - 1) as nat).push((k - 1) as nat)
    } else {
        item_places(children, (k - 1) as nat)
    }
}

/// Whether an item is what a tree becomes, from some number on.
pub open spec fn comes_of(d: ItemV, t: Tree, f: FileId) -> bool {
    exists|id: u32|
        (#[trigger] low_item(t, f, id)) is Some && low_item(t, f, id)->0.value == d
}

proof fn lemma_items_in_order(children: Vec<Tree>, k: nat, f: FileId, id: u32)
    ensures
        low_items(children, k, f, id) matches Some(r) ==> r.value.len() == item_places(
            children,
            k,
        ).len() && forall|i: int|
            0 <= i < r.value.len() ==> comes_of(
                #[trigger] r.value[i],
                children@[item_places(children, k)[i] as int],
                f,
            ),
    decreases k,
{
    if !(k == 0 || k > children@.len()) {
        lemma_items_in_order(children, (k - 1) as nat, f, id);
        if let Some(before) = low_items(children, (k - 1) as nat, f, id) {
            if let Some(r) = low_items(children, k, f, id) {
                let places = item_places(children, k);
                assert forall|i: int| 0 <= i < r.value.len() implies comes_of(
                    #[trigger] r.value[i],
                    children@[places[i] as int],
                    f,
                ) by {
                    if i < before.value.len() {
                        assert(r.value[i] == before.value[i]);
                    } else {
                        assert(low_item(children@[k - 1], f, before.next) is Some);
                    }
                }
            }
        }
    }
}

/// A program has one item for each item of its file, in the same order.
pub proof fn lemma_program_items(t: Tree, f: FileId, id: u32)
    ensures
        low_program(t, f, id) matches Some(r) ==> r.value.items.len() == item_places(
            t.children,
            t.children@.len(),
        ).len() && forall|i: int|
            0 <= i < r.value.items.len() ==> comes_of(
                #[trigger] r.value.items[i],
                t.children@[item_places(t.children, t.children@.len())[i] as int],
                f,
            ),
{
    lemma_items_in_order(t.children, t.children@.len(), f, id);
}

} // verus!
