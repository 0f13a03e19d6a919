//! What type expressions stand for, and the types of fields of values of known types.

use vstd::prelude::*;

use crate::ast::{Expr, ExprKind, GenericArg, GenericParam, Span, Type, TypeKind};
use crate::const_eval::ConstValue;
use crate::errors::TypeErrorV;
use crate::field_reads::{declares_field, lemma_declares_field};
use crate::infer_calls::{
    element_from, field_type, generic_field_type, index_type, lesser, no_field, zipped,
};
use crate::infer_expr::field_access_type;
use crate::infer_state::{InferV, MappingV};
use crate::infer_types::{const_of, misnamed, path_name, type_args_from, type_of, types_from};
use crate::numerals::{digit_of, lemma_parsed, numeral};
use crate::registry::{field_from, Registry};
use crate::subst::applied;
use crate::table::{group_views, views};
use crate::ty::TyV;
use crate::types::placeholder;

verus! {

broadcast use group_views;

/// The number that a constant in a type is written as, where it is written as one.
pub open spec fn written_number(e: Expr) -> Option<nat> {
    match e.kind {
        ExprKind::NumberLit { text, .. } => match numeral(text@) {
            Some(n) => if n <= u64::MAX {
                Some(n)
            } else {
                None
            },
            None => None,
        },
        _ => None,
    }
}

/// Whether a constant that is written as a number is that number.
pub open spec fn number_stands(e: Expr, u: TyV) -> bool {
    written_number(e) matches Some(n) ==> u == TyV::Const(ConstValue::Int(n as u64))
}

/// Whether a type expression stands for a type, where the names of generics stand for those of
/// `m`: a name for the type of that name, a name with arguments for its application to what
/// they stand for, and arrays and functions for those of what their parts stand for.
pub open spec fn stands_for(t: Type, m: MappingV, u: TyV) -> bool
    decreases t, 0nat,
{
    match t.kind {
        TypeKind::Path(p, args) => p.segments@.len() == 1 ==> {
            let n = p.segments@[0]@;
            if m.contains_key(n) {
                u == m[n]
            } else if args@.len() == 0 {
                u == TyV::Con(n)
            } else {
                u matches TyV::App(name, us) && name == n && us.len() == args@.len()
                    && args_stand_for(args, args@.len(), m, us)
            }
        },
        TypeKind::Array(elem, size) => {
            &&& written_number(*size) is Some ==> u is Array
            &&& u matches TyV::Array(e, s) ==> stands_for(*elem, m, *e) && number_stands(*size, *s)
        },
        TypeKind::Fn(params, ret) => u matches TyV::Fn(us, r) && us.len() == params@.len()
            && types_stand_for(params, params@.len(), m, us) && stands_for(*ret, m, *r),
        TypeKind::PackRef(name) => m.contains_key(name@) ==> u == m[name@],
    }
}

pub open spec fn args_stand_for(args: Vec<GenericArg>, n: nat, m: MappingV, us: Seq<TyV>) -> bool
    decreases args, n,
{
    n == 0 || n > args@.len() || (args_stand_for(args, (n - 1) as nat, m, us)
        && match args@[n - 1] {
        GenericArg::Type(t) => stands_for(t, m, us[n - 1]),
        GenericArg::Const(e) => number_stands(e, us[n - 1]),
    })
}

pub open spec fn types_stand_for(tys: Vec<Type>, n: nat, m: MappingV, us: Seq<TyV>) -> bool
    decreases tys, n,
{
    n == 0 || n > tys@.len() || (types_stand_for(tys, (n - 1) as nat, m, us) && stands_for(
        tys@[n - 1],
        m,
        us[n - 1],
    ))
}

proof fn lemma_args_front(args: Vec<GenericArg>, n: nat, m: MappingV, a: Seq<TyV>, b: Seq<TyV>)
    requires
        args_stand_for(args, n, m, a),
        n <= args@.len(),
        n <= a.len(),
        n <= b.len(),
        forall|i: int| 0 <= i < n ==> a[i] == b[i],
    ensures
        args_stand_for(args, n, m, b),
    decreases n,
{
    if n > 0 {
        lemma_args_front(args, (n - 1) as nat, m, a, b);
    }
}

proof fn lemma_types_front(tys: Vec<Type>, n: nat, m: MappingV, a: Seq<TyV>, b: Seq<TyV>)
    requires
        types_stand_for(tys, n, m, a),
        n <= tys@.len(),
        n <= a.len(),
        n <= b.len(),
        forall|i: int| 0 <= i < n ==> a[i] == b[i],
    ensures
        types_stand_for(tys, n, m, b),
    decreases n,
{
    if n > 0 {
        lemma_types_front(tys, (n - 1) as nat, m, a, b);
    }
}

proof fn lemma_number(st: InferV, e: Expr, m: MappingV)
    ensures
        written_number(e) matches Some(n) ==> const_of(st, e, m).1 == Some(
            TyV::Const(ConstValue::Int(n as u64)),
        ),
{
    if let ExprKind::NumberLit { text, .. } = e.kind {
        if let Some(n) = numeral(text@) {
            lemma_parsed(text@);
            assert(digit_of(text@[0]) is Some);
        }
    }
}

/// The type that is found for a type expression is one that it stands for.
pub proof fn lemma_type_stands(st: InferV, t: Type, m: MappingV)
    ensures
        stands_for(t, m, type_of(st, t, m).1),
    decreases t, 0nat,
{
    match t.kind {
        TypeKind::Path(p, args) => {
            if p.segments@.len() == 1 {
                let n = p.segments@[0]@;
                let parts = views(p.segments@);
                assert(parts.len() == 1);
                assert(parts[0] == n);
                assert(path_name(p) == n);
                if !m.contains_key(n) {
                    let st1 = if misnamed(st, n) {
                        InferV { type_names: st.type_names.push((n, t.span)), ..st }
                    } else {
                        st
                    };
                    lemma_args_stand(st1, args, 0, m, Seq::empty());
                }
            }
        },
        TypeKind::Array(elem, size) => {
            lemma_type_stands(st, *elem, m);
            lemma_number(type_of(st, *elem, m).0, *size, m);
        },
        TypeKind::Fn(params, ret) => {
            lemma_types_stand(st, params, 0, m, Seq::empty());
            lemma_type_stands(types_from(st, params, 0, m, Seq::empty()).0, *ret, m);
        },
        TypeKind::PackRef(_) => {},
    }
}

proof fn lemma_args_stand(
    st: InferV,
    args: Vec<GenericArg>,
    i: nat,
    m: MappingV,
    acc: Seq<TyV>,
)
    requires
        i <= args@.len(),
        acc.len() == i,
        args_stand_for(args, i, m, acc),
    ensures
        ({
            let us = type_args_from(st, args, i, m, acc).1;
            us.len() == args@.len() && args_stand_for(args, args@.len(), m, us)
        }),
    decreases args, args@.len() - i,
{
    if i < args@.len() {
        let (st1, u) = match args@[i as int] {
            GenericArg::Type(t) => type_of(st, t, m),
            GenericArg::Const(e) => crate::infer_types::const_or_fresh(st, e, m),
        };
        match args@[i as int] {
            GenericArg::Type(t) => lemma_type_stands(st, t, m),
            GenericArg::Const(e) => lemma_number(st, e, m),
        }
        let more = acc.push(u);
        lemma_args_front(args, i, m, acc, more);
        assert(more[i as int] == u);
        lemma_args_stand(st1, args, i + 1, m, more);
    }
}

proof fn lemma_types_stand(st: InferV, tys: Vec<Type>, i: nat, m: MappingV, acc: Seq<TyV>)
    requires
        i <= tys@.len(),
        acc.len() == i,
        types_stand_for(tys, i, m, acc),
    ensures
        ({
            let us = types_from(st, tys, i, m, acc).1;
            us.len() == tys@.len() && types_stand_for(tys, tys@.len(), m, us)
        }),
    decreases tys, tys@.len() - i,
{
    if i < tys@.len() {
        let (st1, u) = type_of(st, tys@[i as int], m);
        lemma_type_stands(st, tys@[i as int], m);
        let more = acc.push(u);
        lemma_types_front(tys, i, m, acc, more);
        assert(more[i as int] == u);
        lemma_types_stand(st1, tys, i + 1, m, more);
    }
}

// ---- fields of known types ----

/// Whether a name stands for the argument at the place of the last generic of that name, if
/// there is one.
pub open spec fn pairs_at(
    generics: Seq<GenericParam>,
    args: Seq<TyV>,
    n: nat,
    m: MappingV,
    name: Seq<char>,
) -> bool {
    if exists|k: int| 0 <= k < n && (#[trigger] generics[k]).spec_name() == name {
        m.contains_key(name) && exists|k: int|
            0 <= k < n && (#[trigger] generics[k]).spec_name() == name && m[name] == args[k]
                && forall|j: int| k < j < n ==> (#[trigger] generics[j]).spec_name() != name
    } else {
        !m.contains_key(name)
    }
}

/// Whether names of generics stand for the arguments at the same places.
pub open spec fn pairs(generics: Seq<GenericParam>, args: Seq<TyV>, n: nat, m: MappingV) -> bool {
    forall|name: Seq<char>| #[trigger] pairs_at(generics, args, n, m, name)
}

/// Whether a type expression stands for a type, with arguments in place of generics.
pub open spec fn stands_paired(
    generics: Seq<GenericParam>,
    args: Seq<TyV>,
    n: nat,
    ty: Type,
    t: TyV,
) -> bool {
    exists|m: MappingV| #[trigger] pairs(generics, args, n, m) && stands_for(ty, m, t)
}

proof fn lemma_zipped(generics: Seq<GenericParam>, args: Seq<TyV>, n: nat, name: Seq<char>)
    requires
        n <= generics.len(),
        n <= args.len(),
    ensures
        pairs_at(generics, args, n, zipped(generics, args, n), name),
    decreases n,
{
    if n > 0 {
        let before = zipped(generics, args, (n - 1) as nat);
        let m = zipped(generics, args, n);
        lemma_zipped(generics, args, (n - 1) as nat, name);
        if generics[n - 1].spec_name() == name {
            assert(0 <= n - 1 < n && generics[n - 1].spec_name() == name && m[name] == args[n - 1]);
        } else if exists|k: int| 0 <= k < n && (#[trigger] generics[k]).spec_name() == name {
            let k = choose|k: int| 0 <= k < n && (#[trigger] generics[k]).spec_name() == name;
            assert(0 <= k < n - 1 && generics[k].spec_name() == name);
            let l = choose|l: int|
                0 <= l < n - 1 && (#[trigger] generics[l]).spec_name() == name && before[name]
                    == args[l] && forall|j: int|
                    l < j < n - 1 ==> (#[trigger] generics[j]).spec_name() != name;
            assert(0 <= l < n && generics[l].spec_name() == name && m[name] == args[l]);
        }
    }
}

/// The type of a field of a value whose type is known: the type that the struct of that name
/// writes at the field of that name, where its generics stand for the arguments of the type. A
/// struct that has no such field, and a type that is none of a struct, are refused.
pub proof fn lemma_field_of_known(
    st: InferV,
    base: TyV,
    name: Seq<char>,
    span: Span,
    s: Seq<char>,
    ty: Type,
)
    ensures
        base == TyV::Con(s) && declares_field(st.registry, s, name, ty) ==> (field_type(
            st,
            base,
            name,
            span,
        ).1 matches Ok(t) && stands_for(ty, Map::empty(), t)),
        (forall|x: Type| !#[trigger] declares_field(st.registry, s, name, x)) && (base == TyV::Con(
            s,
        ) || (base matches TyV::App(n, _) && n == s)) ==> field_type(st, base, name, span).1
            == Err::<TyV, TypeErrorV>(no_field(s, name, span)),
        !(base is Con) && !(base is App) ==> field_type(st, base, name, span).1 is Err,
{
    lemma_declares_field(st.registry, s, name, ty);
    lemma_type_stands(st, ty, Map::empty());
    if forall|x: Type| !#[trigger] declares_field(st.registry, s, name, x) {
        if let Some(x) = st.registry.struct_of(s) {
            if let Some(k) = field_from(x.fields@, 0, name) {
                lemma_declares_field(st.registry, s, name, x.fields@[k].ty);
                assert(declares_field(st.registry, s, name, x.fields@[k].ty));
            }
        }
    }
}

/// The type of a field of a value of a generic struct without packs: the type that the struct
/// writes at the field of that name, with the arguments in place of the generics.
pub proof fn lemma_field_of_generic(
    st: InferV,
    args: Seq<TyV>,
    name: Seq<char>,
    span: Span,
    s: Seq<char>,
    ty: Type,
    i: int,
)
    requires
        declares_field(st.registry, s, name, ty),
        0 <= i < st.registry.structs@.len(),
        st.registry.structs@[i].name@ == s,
        forall|j: int| 0 <= j < i ==> (#[trigger] st.registry.structs@[j]).name@ != s,
        st.registry.structs@[i].generics@.len() > 0,
        !st.registry.structs@[i].generics@.last().spec_variadic(),
    ensures
        ({
            let generics = st.registry.structs@[i].generics@;
            let n = lesser(generics.len(), args.len());
            let t = field_type(st, TyV::App(s, args), name, span).1;
            t is Ok && stands_paired(generics, args, n, ty, t->Ok_0)
        }),
{
    lemma_declares_field(st.registry, s, name, ty);
    lemma_struct_place(st.registry, 0, s, i);
    let generics = st.registry.structs@[i].generics@;
    let n = lesser(generics.len(), args.len());
    let m = zipped(generics, args, n);
    lemma_type_stands(st, ty, m);
    assert forall|x: Seq<char>| #[trigger] pairs_at(generics, args, n, m, x) by {
        lemma_zipped(generics, args, n, x);
    }
    assert(pairs(generics, args, n, m));
    let x = st.registry.structs@[i];
    let k = field_from(x.fields@, 0, name)->0;
    assert(x.fields@[k].ty == ty);
    assert(field_type(st, TyV::App(s, args), name, span) == generic_field_type(st, x, ty, args));
    assert(generic_field_type(st, x, ty, args).1 == Ok::<TyV, TypeErrorV>(type_of(st, ty, m).1));
    assert(stands_paired(generics, args, n, ty, type_of(st, ty, m).1));
}

proof fn lemma_struct_place(r: Registry, from: nat, s: Seq<char>, i: int)
    requires
        from <= i < r.structs@.len(),
        r.structs@[i].name@ == s,
        forall|j: int| 0 <= j < i ==> (#[trigger] r.structs@[j]).name@ != s,
    ensures
        crate::registry::struct_from(r, from, s) == Some(i),
    decreases i - from,
{
    if from < i {
        assert(r.structs@[from as int].name@ != s);
        lemma_struct_place(r, from + 1, s, i);
    }
}

/// Reading a field of a value whose type is known gives the type of that field.
pub proof fn lemma_field_access_of_known(
    st: InferV,
    base: TyV,
    name: Seq<char>,
    span: Span,
    s: Seq<char>,
    ty: Type,
)
    requires
        applied(st.subst, base) == TyV::Con(s),
        !placeholder(TyV::Con(s)),
        declares_field(st.registry, s, name, ty),
    ensures
        field_access_type(st, base, name, span).1 matches Ok(t) && stands_for(
            ty,
            Map::empty(),
            t,
        ),
{
    lemma_field_of_known(st, TyV::Con(s), name, span, s, ty);
}

// ---- indices ----

/// One index into an array gives its element, and each further index is one into what those
/// before it give.
pub proof fn lemma_index_of_array(
    st: InferV,
    base: TyV,
    tys: Seq<TyV>,
    spans: Seq<Span>,
    base_span: Span,
    span: Span,
    elem: TyV,
    size: TyV,
)
    requires
        base is Array,
        applied(st.subst, base) == TyV::Array(Box::new(elem), Box::new(size)),
        spans.len() > 0,
    ensures
        spans.len() == 1 ==> index_type(st, base, tys, spans, base_span, span) == (
            st,
            Ok::<TyV, TypeErrorV>(applied(st.subst, elem)),
        ),
        spans.len() > 1 && elem is Array ==> index_type(st, base, tys, spans, base_span, span)
            == index_type(
            st,
            elem,
            tys,
            spans.subrange(1, spans.len() as int),
            base_span,
            span,
        ),
{
    reveal_with_fuel(element_from, 2);
    if spans.len() > 1 {
        lemma_element_later(st, elem, spans, 1);
    }
}

proof fn lemma_element_later(st: InferV, t: TyV, spans: Seq<Span>, k: nat)
    requires
        0 < k <= spans.len(),
    ensures
        element_from(st, t, spans, k) == element_from(
            st,
            t,
            spans.subrange(1, spans.len() as int),
            (k - 1) as nat,
        ),
    decreases spans.len() - k,
{
    if k < spans.len() {
        if let TyV::Array(elem, _) = applied(st.subst, t) {
            lemma_element_later(st, *elem, spans, k + 1);
        }
        assert(spans.subrange(1, spans.len() as int)[k - 1] == spans[k as int]);
    }
}

} // verus!
