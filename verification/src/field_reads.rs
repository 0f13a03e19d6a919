//! What is known of the types of fields that are read.

use vstd::prelude::*;

use crate::ast::{Field, Span, Type, TypeKind};
use crate::infer_calls::{field_type, not_inferred};
use crate::infer_keeps::{joined, lemma_joined_later, on};
use crate::infer_state::{InferV, MappingV, PendingFieldV};
use crate::infer_types::{misnamed, path_name, type_args_from, type_of};
use crate::registry::{field_from, struct_from, Registry};
use crate::subst::{applied, grows, triangular, SubstV};
use crate::table::{group_views, views};
use crate::ty::TyV;
use crate::types::placeholder;
use crate::unify_laws::lemma_grows_more;

verus! {

broadcast use group_views;

// ---- what structs declare ----

/// Whether a type is written as a name.
pub open spec fn names_type(t: Type, n: Seq<char>) -> bool {
    t.kind matches TypeKind::Path(p, args) && args@.len() == 0 && p.segments@.len() == 1
        && p.segments@[0]@ == n
}

/// Whether the first field of the name is written with the type.
pub open spec fn has_field(fields: Seq<Field>, name: Seq<char>, ty: Type) -> bool {
    exists|k: int|
        0 <= k < fields.len() && (#[trigger] fields[k]).name@ == name && fields[k].ty == ty
            && forall|j: int| 0 <= j < k ==> (#[trigger] fields[j]).name@ != name
}

/// Whether the first struct of the name declares the field with the type.
pub open spec fn declares_field(
    r: Registry,
    struct_name: Seq<char>,
    name: Seq<char>,
    ty: Type,
) -> bool {
    exists|i: int|
        0 <= i < r.structs@.len() && (#[trigger] r.structs@[i]).name@ == struct_name && has_field(
            r.structs@[i].fields@,
            name,
            ty,
        ) && forall|j: int| 0 <= j < i ==> (#[trigger] r.structs@[j]).name@ != struct_name
}

/// Whether a struct declares a field with a type that is written as a name.
pub open spec fn field_named(
    r: Registry,
    struct_name: Seq<char>,
    name: Seq<char>,
    n: Seq<char>,
) -> bool {
    exists|ty: Type| #[trigger] declares_field(r, struct_name, name, ty) && names_type(ty, n)
}

proof fn lemma_field_from(fields: Seq<Field>, i: nat, name: Seq<char>)
    requires
        forall|j: int| 0 <= j < i && j < fields.len() ==> (#[trigger] fields[j]).name@ != name,
    ensures
        match field_from(fields, i, name) {
            Some(k) => 0 <= k < fields.len() && fields[k].name@ == name && forall|j: int|
                0 <= j < k ==> (#[trigger] fields[j]).name@ != name,
            None => forall|j: int| 0 <= j < fields.len() ==> (#[trigger] fields[j]).name@ != name,
        },
    decreases fields.len() - i,
{
    if i < fields.len() && fields[i as int].name@ != name {
        lemma_field_from(fields, i + 1, name);
    }
}

proof fn lemma_struct_from(r: Registry, i: nat, name: Seq<char>)
    requires
        forall|j: int| 0 <= j < i && j < r.structs@.len() ==> (#[trigger] r.structs@[j]).name@
            != name,
    ensures
        match struct_from(r, i, name) {
            Some(k) => 0 <= k < r.structs@.len() && r.structs@[k].name@ == name && forall|j: int|
                0 <= j < k ==> (#[trigger] r.structs@[j]).name@ != name,
            None => forall|j: int|
                0 <= j < r.structs@.len() ==> (#[trigger] r.structs@[j]).name@ != name,
        },
    decreases r.structs@.len() - i,
{
    if i < r.structs@.len() && r.structs@[i as int].name@ != name {
        lemma_struct_from(r, i + 1, name);
    }
}

/// The field that is found for a name is the first of that name.
pub proof fn lemma_has_field(fields: Seq<Field>, name: Seq<char>, ty: Type)
    ensures
        has_field(fields, name, ty) <==> (field_from(fields, 0, name) matches Some(k)
            && fields[k].ty == ty),
{
    lemma_field_from(fields, 0, name);
    if let Some(k) = field_from(fields, 0, name) {
        assert(fields[k].name@ == name);
        if has_field(fields, name, ty) {
            let j = choose|j: int|
                0 <= j < fields.len() && (#[trigger] fields[j]).name@ == name && fields[j].ty == ty
                    && forall|l: int| 0 <= l < j ==> (#[trigger] fields[l]).name@ != name;
            assert(j == k) by {
                if j < k {
                    assert(fields[j].name@ != name);
                }
                if k < j {
                    assert(fields[k].name@ != name);
                }
            }
        }
    }
}

/// The field that is found in the struct of a name is what the struct declares.
pub proof fn lemma_declares_field(
    r: Registry,
    struct_name: Seq<char>,
    name: Seq<char>,
    ty: Type,
)
    ensures
        declares_field(r, struct_name, name, ty) <==> (r.struct_of(struct_name) matches Some(s) && (
        field_from(s.fields@, 0, name) matches Some(k) && s.fields@[k].ty == ty)),
{
    lemma_struct_from(r, 0, struct_name);
    if let Some(i) = struct_from(r, 0, struct_name) {
        assert(r.structs@[i].name@ == struct_name);
        lemma_has_field(r.structs@[i].fields@, name, ty);
        if declares_field(r, struct_name, name, ty) {
            let j = choose|j: int|
                0 <= j < r.structs@.len() && (#[trigger] r.structs@[j]).name@ == struct_name
                    && has_field(r.structs@[j].fields@, name, ty) && forall|l: int|
                    0 <= l < j ==> (#[trigger] r.structs@[l]).name@ != struct_name;
            assert(j == i) by {
                if j < i {
                    assert(r.structs@[j].name@ != struct_name);
                }
                if i < j {
                    assert(r.structs@[i].name@ != struct_name);
                }
            }
        }
    }
}

/// A name stands for the type of that name, unless it is that of a generic.
pub proof fn lemma_name_type(st: InferV, t: Type, m: MappingV, n: Seq<char>)
    requires
        names_type(t, n),
    ensures
        type_of(st, t, m).1 == if m.contains_key(n) {
            m[n]
        } else {
            TyV::Con(n)
        },
{
    if let TypeKind::Path(p, args) = t.kind {
        let parts = views(p.segments@);
        assert(parts.len() == 1);
        assert(parts[0] == n);
        assert(path_name(p) == n);
        let st1 = if misnamed(st, n) {
            InferV { type_names: st.type_names.push((n, t.span)), ..st }
        } else {
            st
        };
        assert(type_args_from(st1, args, 0, m, Seq::empty()) == (st1, Seq::<TyV>::empty()));
    }
}

// ---- what reading a field gives ----

/// Whether a type is what reading a field of a value of a known type gives: where the value is
/// of a struct, the type that the struct writes at the field of that name; where the type of
/// the value is not known, a type that is not known.
pub open spec fn told_as(r: Registry, base: TyV, name: Seq<char>, u: TyV) -> bool {
    match base {
        TyV::Var(_) => u == not_inferred(),
        TyV::Con(s) => if placeholder(base) {
            u == not_inferred()
        } else {
            forall|n: Seq<char>| #[trigger] field_named(r, s, name, n) ==> u == TyV::Con(n)
        },
        TyV::App(..) => true,
        _ => false,
    }
}

/// Whether a type is what reading a field gives, or was unified with it.
pub open spec fn told_field(r: Registry, base: TyV, name: Seq<char>, s: SubstV, t: TyV) -> bool {
    exists|u: TyV| #[trigger] told_as(r, base, name, u) && (u == t || joined(s, t, u))
}

pub open spec fn told_at(
    at: SubstV,
    r: Registry,
    s: SubstV,
    root: TyV,
    name: Seq<char>,
    t: TyV,
) -> bool {
    triangular(at.bindings) && grows(s, at) && told_field(r, applied(at, root), name, s, t)
}

/// Whether a type was told by what was known of the value at some point.
pub open spec fn told_root(r: Registry, s: SubstV, root: TyV, name: Seq<char>, t: TyV) -> bool {
    exists|at: SubstV| #[trigger] told_at(at, r, s, root, name, t)
}

/// Whether a read that was put off has been taken up.
pub open spec fn taken(st: InferV, p: PendingFieldV) -> bool {
    told_root(st.registry, st.subst, p.base, p.field, TyV::Var(p.result))
}

/// Whether every read that was put off still is, or has been taken up.
pub open spec fn kept_fields(a: InferV, b: InferV) -> bool {
    forall|p: PendingFieldV| #[trigger]
        a.fields.contains(p) ==> b.fields.contains(p) || taken(b, p)
}

pub open spec fn leads_at(at: SubstV, s: SubstV, b: TyV, root: TyV) -> bool {
    triangular(at.bindings) && grows(s, at) && root == applied(at, b) && root is Var
}

/// Whether a type is a variable that another was at some point, or the same.
pub open spec fn leads(s: SubstV, b: TyV, root: TyV) -> bool {
    root == b || exists|at: SubstV| #[trigger] leads_at(at, s, b, root)
}

/// Whether the read of a field was put off.
pub open spec fn waits(st: InferV, root: TyV, name: Seq<char>, t: TyV) -> bool {
    exists|p: PendingFieldV| #[trigger]
        st.fields.contains(p) && p.base == root && p.field == name && t == TyV::Var(p.result)
}

/// Whether a type is that of a field of a value of another, as far as is known.
pub open spec fn reads(st: InferV, b: TyV, name: Seq<char>, t: TyV) -> bool {
    exists|root: TyV| #[trigger]
        leads(st.subst, b, root) && (waits(st, root, name, t) || told_root(
            st.registry,
            st.subst,
            root,
            name,
            t,
        ))
}

/// Whether what is put into a field was unified with the type that is written there.
pub open spec fn filled(st: InferV, s: Seq<char>, name: Seq<char>, t: TyV) -> bool {
    forall|n: Seq<char>| #[trigger]
        field_named(st.registry, s, name, n) ==> joined(st.subst, TyV::Con(n), t)
}

/// What was put into a field goes on agreeing with it.
pub proof fn lemma_filled_later(a: InferV, b: InferV, s: Seq<char>, name: Seq<char>, t: TyV)
    requires
        on(a, b),
        filled(a, s, name, t),
    ensures
        filled(b, s, name, t),
{
    assert forall|n: Seq<char>| #[trigger] field_named(b.registry, s, name, n) implies joined(
        b.subst,
        TyV::Con(n),
        t,
    ) by {
        assert(field_named(a.registry, s, name, n));
        lemma_joined_later(a.subst, b.subst, TyV::Con(n), t);
    }
}

/// What is unified with the declared type of a field fills it.
pub proof fn lemma_fills(
    st: InferV,
    st1: InferV,
    s: Seq<char>,
    name: Seq<char>,
    k: int,
    t: TyV,
)
    requires
        st.registry == st1.registry,
        st.registry.struct_of(s) is Some,
        field_from(st.registry.struct_of(s)->0.fields@, 0, name) == Some(k),
        joined(
            st1.subst,
            type_of(st, st.registry.struct_of(s)->0.fields@[k].ty, Map::empty()).1,
            t,
        ),
    ensures
        filled(st1, s, name, t),
{
    assert forall|n: Seq<char>| #[trigger] field_named(st1.registry, s, name, n) implies joined(
        st1.subst,
        TyV::Con(n),
        t,
    ) by {
        let ty = choose|ty: Type| #[trigger]
            declares_field(st.registry, s, name, ty) && names_type(ty, n);
        lemma_declares_field(st.registry, s, name, ty);
        lemma_name_type(st, ty, Map::empty(), n);
    }
}

pub proof fn lemma_told_later(
    r: Registry,
    s: SubstV,
    s2: SubstV,
    root: TyV,
    name: Seq<char>,
    t: TyV,
)
    requires
        told_root(r, s, root, name, t),
        grows(s2, s),
    ensures
        told_root(r, s2, root, name, t),
{
    let at = choose|at: SubstV| #[trigger] told_at(at, r, s, root, name, t);
    let base = applied(at, root);
    let u = choose|u: TyV| #[trigger] told_as(r, base, name, u) && (u == t || joined(s, t, u));
    lemma_grows_more(at, s, s2);
    if u != t {
        lemma_joined_later(s, s2, t, u);
    }
    assert(told_as(r, base, name, u));
    assert(told_field(r, base, name, s2, t));
    assert(told_at(at, r, s2, root, name, t));
}

/// What is known of a read goes on being known.
pub proof fn lemma_reads_later(a: InferV, b: InferV, x: TyV, name: Seq<char>, t: TyV)
    requires
        on(a, b),
        reads(a, x, name, t),
    ensures
        reads(b, x, name, t),
{
    let root = choose|root: TyV| #[trigger]
        leads(a.subst, x, root) && (waits(a, root, name, t) || told_root(
            a.registry,
            a.subst,
            root,
            name,
            t,
        ));
    assert(leads(b.subst, x, root)) by {
        if root != x {
            let at = choose|at: SubstV| #[trigger] leads_at(at, a.subst, x, root);
            lemma_grows_more(at, a.subst, b.subst);
            assert(leads_at(at, b.subst, x, root));
        }
    }
    if waits(a, root, name, t) {
        let p = choose|p: PendingFieldV| #[trigger]
            a.fields.contains(p) && p.base == root && p.field == name && t == TyV::Var(p.result);
        if b.fields.contains(p) {
            assert(waits(b, root, name, t));
        }
    } else {
        lemma_told_later(a.registry, a.subst, b.subst, root, name, t);
    }
}

/// What is found for a field of a value of a known type is what its struct declares.
pub proof fn lemma_field_told(st: InferV, base: TyV, name: Seq<char>, span: Span)
    requires
        !(base is Var),
        !placeholder(base),
        field_type(st, base, name, span).1 is Ok,
    ensures
        told_as(st.registry, base, name, field_type(st, base, name, span).1->Ok_0),
{
    if let TyV::Con(s) = base {
        let t = field_type(st, base, name, span).1->Ok_0;
        assert forall|n: Seq<char>| #[trigger] field_named(st.registry, s, name, n) implies t
            == TyV::Con(n) by {
            let ty = choose|ty: Type| #[trigger]
                declares_field(st.registry, s, name, ty) && names_type(ty, n);
            lemma_declares_field(st.registry, s, name, ty);
            lemma_name_type(st, ty, Map::empty(), n);
        }
    }
}

} // verus!
