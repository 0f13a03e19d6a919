//! Field accesses, method calls, calls of algebra functions and indexing, once
//! the types of the parts are there.

use vstd::prelude::*;

use crate::ast::{FnSig, GenericArg, GenericParam, Param, Span, Type};
use crate::const_eval::ConstValue;
use crate::errors::{error_at, TypeError, TypeErrorKind, TypeErrorKindV, TypeErrorV};
use crate::infer_impls::{dispatched, unified_at};
use crate::infer_state::{
    demanding, minted, next_var, ty_result, unit_result, Constraint, ConstraintV, Infer, InferV,
    Mapping, MappingV,
};
use crate::infer_types::{
    fresh_for, generic_arg_type, generics_opened, lemma_fresh_for_names, type_of, type_with_pack,
};
use crate::registry::{declaring_from, field_from, find_field, StructEntry};
use crate::subst::applied;
use crate::table::{dup_tail, group_views, holds_number, views, Dup, Table};
use crate::text::glued;
use crate::ty::{group_ty, lemma_ty_view, Ty, TyV};
use crate::types::{
    all_concrete, are_fully_concrete, concrete, free_of, free_vars_all, is_fully_concrete,
    is_placeholder, list_text, placeholder, substitute, substituted, ty_text, tys_text,
};
use crate::unify::{UnifyError, UnifyErrorV};

verus! {

broadcast use {group_views, group_ty};

/// The type of what could not be inferred.
pub open spec fn not_inferred() -> TyV {
    TyV::Con("<not-yet-inferred>"@)
}

pub(crate) fn not_inferred_ty() -> (r: Ty)
    ensures
        r@ == not_inferred(),
{
    Ty::Con("<not-yet-inferred>".to_owned())
}

/// The type of what has no value.
pub open spec fn unit_ty() -> TyV {
    TyV::Con("()"@)
}

pub(crate) fn unit_type() -> (r: Ty)
    ensures
        r@ == unit_ty(),
{
    Ty::Con("()".to_owned())
}

/// The number after `n`, as far as a length can go.
pub open spec fn one_more(n: nat) -> usize {
    if n < usize::MAX {
        (n + 1) as usize
    } else {
        usize::MAX
    }
}

// ---- fields ----

/// What the first `n` generics stand for in a list of type arguments.
pub open spec fn zipped(generics: Seq<GenericParam>, tys: Seq<TyV>, n: nat) -> MappingV
    decreases n,
{
    if n == 0 || n > generics.len() || n > tys.len() {
        Map::empty()
    } else {
        zipped(generics, tys, (n - 1) as nat).insert(generics[n - 1].spec_name(), tys[n - 1])
    }
}

pub open spec fn lesser(a: nat, b: nat) -> nat {
    if a < b {
        a
    } else {
        b
    }
}

pub open spec fn no_field(struct_name: Seq<char>, field: Seq<char>, span: Span) -> TypeErrorV {
    error_at(span, TypeErrorKindV::NoSuchField { struct_name, field })
}

/// The type of a field of a value of a known type.
pub open spec fn field_type(st: InferV, base: TyV, name: Seq<char>, span: Span) -> (
    InferV,
    Result<TyV, TypeErrorV>,
) {
    match base {
        TyV::Con(struct_name) => match st.registry.struct_of(struct_name) {
            Some(s) => match field_from(s.fields@, 0, name) {
                Some(k) => {
                    let (st1, t) = type_of(st, s.fields@[k].ty, Map::empty());
                    (st1, Ok(t))
                },
                None => (st, Err(no_field(struct_name, name, span))),
            },
            None => (st, Err(no_field(struct_name, name, span))),
        },
        TyV::App(struct_name, args) => match st.registry.struct_of(struct_name) {
            Some(s) => match field_from(s.fields@, 0, name) {
                Some(k) => generic_field_type(st, s, s.fields@[k].ty, args),
                None => (st, Err(no_field(struct_name, name, span))),
            },
            None => (st, Err(no_field(struct_name, name, span))),
        },
        _ => (st, Err(no_field(ty_text(base), name, span))),
    }
}

/// The type of a field of a generic struct with those type arguments.
pub open spec fn generic_field_type(st: InferV, s: StructEntry, ty: Type, args: Seq<TyV>) -> (
    InferV,
    Result<TyV, TypeErrorV>,
) {
    let g = s.generics@;
    if g.len() > 0 && g.last().spec_variadic() {
        let n = lesser((g.len() - 1) as nat, args.len());
        let (st1, t) = type_with_pack(
            st,
            ty,
            zipped(g, args, n),
            g.last().spec_name(),
            args.subrange(n as int, args.len() as int),
        );
        (st1, Ok(t))
    } else {
        let (st1, t) = type_of(st, ty, zipped(g, args, lesser(g.len(), args.len())));
        (st1, Ok(t))
    }
}

// ---- methods ----

/// The types of the parameters from the `i`th on, after those of `acc`. The
/// first one, where it has no type, is of the type that the method is on.
pub open spec fn method_params_from(
    st: InferV,
    params: Seq<Param>,
    i: nat,
    m: MappingV,
    target: TyV,
    acc: Seq<TyV>,
) -> (InferV, Seq<TyV>)
    decreases params.len() - i,
{
    if i >= params.len() {
        (st, acc)
    } else {
        let (st1, t) = match params[i as int].ty {
            Some(t) => type_of(st, t, m),
            None => if i == 0 {
                (st, target)
            } else {
                (minted(st), next_var(st))
            },
        };
        method_params_from(st1, params, i + 1, m, target, acc.push(t))
    }
}

/// Unifies the argument types from the `k`th on with the parameter types, the
/// first of which stands at `off`.
pub open spec fn args_unified(
    st: InferV,
    params: Seq<TyV>,
    off: nat,
    args: Seq<TyV>,
    spans: Seq<Span>,
    k: nat,
) -> (InferV, Result<(), TypeErrorV>)
    decreases args.len() - k,
{
    if k >= args.len() || k >= spans.len() || off + k >= params.len() {
        (st, Ok(()))
    } else {
        let (st1, r) = unified_at(st, spans[k as int], params[(off + k) as int], args[k as int]);
        match r {
            Err(e) => (st1, Err(e)),
            Ok(_) => args_unified(st1, params, off, args, spans, k + 1),
        }
    }
}

/// What the variables of a pattern stand for, by the first `n` of its generics.
pub open spec fn pattern_vars(
    generics: Seq<(Seq<char>, TyV)>,
    n: nat,
    m: MappingV,
) -> Map<u32, TyV>
    decreases n,
{
    if n == 0 || n > generics.len() {
        Map::empty()
    } else {
        let before = pattern_vars(generics, (n - 1) as nat, m);
        let (name, t) = generics[n - 1];
        match t {
            TyV::Var(v) => if m.contains_key(name) {
                before.insert(v, m[name])
            } else {
                before
            },
            _ => before,
        }
    }
}

/// The result type of a method without a declared one.
pub open spec fn undeclared_result(
    st: InferV,
    struct_name: Seq<char>,
    method: Seq<char>,
    m: MappingV,
) -> TyV {
    match st.patterns {
        Some(p) => if p.contains_key((struct_name, method)) {
            let pattern = p[(struct_name, method)];
            substituted(
                pattern.ret,
                pattern_vars(pattern.generics, pattern.generics.len(), m),
            )
        } else {
            not_inferred()
        },
        None => not_inferred(),
    }
}

/// The name of the struct that a type is of.
pub open spec fn struct_name_of(t: TyV) -> Option<Seq<char>> {
    match t {
        TyV::Con(n) => Some(n),
        TyV::App(n, _) => Some(n),
        _ => None,
    }
}

/// The type of a method call on a value of a known type.
pub open spec fn method_call_type(
    st: InferV,
    base: TyV,
    name: Seq<char>,
    arg_tys: Seq<TyV>,
    arg_spans: Seq<Span>,
    base_span: Span,
    call_span: Span,
) -> (InferV, Result<TyV, TypeErrorV>) {
    match struct_name_of(base) {
        None => (
            st,
            Err(
                error_at(
                    call_span,
                    TypeErrorKindV::NoSuchMethod { struct_name: ty_text(base), method: name },
                ),
            ),
        ),
        Some(struct_name) => match st.registry.method_of(struct_name, name) {
            None => (
                st,
                Err(
                    error_at(call_span, TypeErrorKindV::NoSuchMethod { struct_name, method: name }),
                ),
            ),
            Some(entry) => {
                let params = entry.method.params@;
                if params.len() == 0 || params.len() - 1 != arg_tys.len() {
                    (
                        st,
                        Err(
                            error_at(
                                call_span,
                                TypeErrorKindV::ArityMismatch {
                                    name,
                                    expected: params.len() as usize,
                                    found: one_more(arg_tys.len()),
                                },
                            ),
                        ),
                    )
                } else {
                    let (st1, m) = generics_opened(st, entry.generics@, call_span);
                    let (st2, target) = type_of(st1, entry.target, m);
                    let (st3, param_tys) = method_params_from(
                        st2,
                        params,
                        0,
                        m,
                        target,
                        Seq::empty(),
                    );
                    let (st4, r) = unified_at(st3, base_span, param_tys[0], base);
                    match r {
                        Err(e) => (st4, Err(e)),
                        Ok(_) => {
                            let (st5, r5) = args_unified(
                                st4,
                                param_tys,
                                1,
                                arg_tys,
                                arg_spans,
                                0,
                            );
                            match r5 {
                                Err(e) => (st5, Err(e)),
                                Ok(_) => match entry.method.ret {
                                    Some(t) => {
                                        let (st6, ret) = type_of(st5, t, m);
                                        (st6, Ok(ret))
                                    },
                                    None => (
                                        st5,
                                        Ok(undeclared_result(st5, struct_name, name, m)),
                                    ),
                                },
                            }
                        },
                    }
                }
            },
        },
    }
}

// ---- algebra functions ----

/// Unifies what the generics from the `i`th on stand for with the generic
/// arguments in the same places.
pub open spec fn generics_pinned(
    st: InferV,
    generics: Seq<GenericParam>,
    args: Seq<GenericArg>,
    i: nat,
    m: MappingV,
    span: Span,
) -> (InferV, Result<(), TypeErrorV>)
    decreases generics.len() - i,
{
    if i >= generics.len() || i >= args.len() {
        (st, Ok(()))
    } else {
        let (st1, t) = generic_arg_type(st, args[i as int]);
        let (st2, r) = unified_at(st1, span, m[generics[i as int].spec_name()], t);
        match r {
            Err(e) => (st2, Err(e)),
            Ok(_) => generics_pinned(st2, generics, args, i + 1, m, span),
        }
    }
}

/// The types of the parameters from the `i`th on, after those of `acc`; fresh
/// ones where none are given.
pub open spec fn param_types_from(
    st: InferV,
    params: Seq<Param>,
    i: nat,
    m: MappingV,
    acc: Seq<TyV>,
) -> (InferV, Seq<TyV>)
    decreases params.len() - i,
{
    if i >= params.len() {
        (st, acc)
    } else {
        let (st1, t) = match params[i as int].ty {
            Some(t) => type_of(st, t, m),
            None => (minted(st), next_var(st)),
        };
        param_types_from(st1, params, i + 1, m, acc.push(t))
    }
}

/// The result type that a signature declares.
pub open spec fn declared_result(st: InferV, ret: Option<Type>, m: MappingV) -> (InferV, TyV) {
    match ret {
        Some(t) => type_of(st, t, m),
        None => (st, unit_ty()),
    }
}

/// What the type generics among the first `n` stand for, as it is known; and
/// the places of those that a parameter mentions.
pub open spec fn generics_known(
    st: InferV,
    generics: Seq<GenericParam>,
    n: nat,
    m: MappingV,
    mentioned: Seq<u32>,
) -> (Seq<TyV>, Seq<usize>)
    decreases n,
{
    if n == 0 || n > generics.len() {
        (Seq::empty(), Seq::empty())
    } else {
        let (tys, gating) = generics_known(st, generics, (n - 1) as nat, m, mentioned);
        match generics[n - 1] {
            GenericParam::Const { .. } => (tys, gating),
            GenericParam::Type { name, .. } => {
                let t = applied(st.subst, m[name@]);
                let gates = m[name@] matches TyV::Var(v) && mentioned.contains(v);
                (
                    tys.push(t),
                    if gates {
                        gating.push(tys.len() as usize)
                    } else {
                        gating
                    },
                )
            },
        }
    }
}

/// Whether a type at one of the first `n` places is a placeholder.
pub open spec fn gate_placeholder(tys: Seq<TyV>, gating: Seq<usize>, n: nat) -> bool
    decreases n,
{
    0 < n && n <= gating.len() && ((gating[n - 1] < tys.len() && placeholder(
        tys[gating[n - 1] as int],
    )) || gate_placeholder(tys, gating, (n - 1) as nat))
}

/// Whether the types at the first `n` places hold no variable.
pub open spec fn gates_concrete(tys: Seq<TyV>, gating: Seq<usize>, n: nat) -> bool
    decreases n,
{
    n == 0 || n > gating.len() || ((gating[n - 1] >= tys.len() || concrete(
        tys[gating[n - 1] as int],
    )) && gates_concrete(tys, gating, (n - 1) as nat))
}

/// The error that no impl exists for the types.
pub open spec fn missing_impl(algebra: Seq<char>, tys: Seq<TyV>, span: Span) -> TypeErrorV {
    error_at(span, TypeErrorKindV::MissingImpl { algebra, ty: tys_text(tys) })
}

/// What comes of a call of an algebra function once its generics are as known
/// as its arguments make them: it is dispatched now, or later.
pub open spec fn call_settled(
    st: InferV,
    algebra: Seq<char>,
    tys: Seq<TyV>,
    gating: Seq<usize>,
    span: Span,
) -> (InferV, Result<(), TypeErrorV>) {
    let later = demanding(st, ConstraintV { algebra, tys, gating, span });
    if gate_placeholder(tys, gating, gating.len()) || (st.active != Map::<
        Seq<char>,
        TyV,
    >::empty() && !all_concrete(tys)) {
        (later, Ok(()))
    } else if gates_concrete(tys, gating, gating.len()) {
        let (st1, r) = dispatched(st, algebra, tys, span);
        match r {
            Ok(found) => if found {
                (st1, Ok(()))
            } else {
                (st1, Err(missing_impl(algebra, tys, span)))
            },
            Err(e) => if e.kind is AmbiguousDispatch {
                (
                    demanding(st1, ConstraintV { algebra, tys, gating, span }),
                    Ok(()),
                )
            } else {
                (st1, Err(e))
            },
        }
    } else {
        (later, Ok(()))
    }
}

/// The type of a call of an algebra function.
pub open spec fn algebra_call_type(
    st: InferV,
    call_span: Span,
    algebra: Seq<char>,
    name: Seq<char>,
    arg_tys: Seq<TyV>,
    arg_spans: Seq<Span>,
    explicit: Seq<GenericArg>,
) -> (InferV, Result<TyV, TypeErrorV>) {
    match st.registry.sig_of(algebra, name) {
        None => (
            st,
            Err(
                error_at(
                    call_span,
                    TypeErrorKindV::UnknownAlgebraMethod { algebra, method: name },
                ),
            ),
        ),
        Some(sig) => if sig.params@.len() != arg_spans.len() {
            (
                st,
                Err(
                    error_at(
                        call_span,
                        TypeErrorKindV::ArityMismatch {
                            name,
                            expected: sig.params@.len() as usize,
                            found: arg_spans.len() as usize,
                        },
                    ),
                ),
            )
        } else {
            let generics = st.registry.generics_of(algebra);
            let (st1, m) = fresh_for(st, generics, generics.len());
            if explicit.len() != 0 && explicit.len() != generics.len() {
                (
                    st1,
                    Err(
                        error_at(
                            call_span,
                            TypeErrorKindV::ArityMismatch {
                                name: name + "::<...>"@,
                                expected: generics.len() as usize,
                                found: explicit.len() as usize,
                            },
                        ),
                    ),
                )
            } else {
                let (st2, pinned) = generics_pinned(st1, generics, explicit, 0, m, call_span);
                match pinned {
                    Err(e) => (st2, Err(e)),
                    Ok(_) => algebra_call_checked(
                        st2,
                        call_span,
                        algebra,
                        sig,
                        generics,
                        m,
                        arg_tys,
                        arg_spans,
                    ),
                }
            }
        },
    }
}

/// The type of a call of an algebra function whose generics stand for what `m`
/// says.
pub open spec fn algebra_call_checked(
    st: InferV,
    call_span: Span,
    algebra: Seq<char>,
    sig: FnSig,
    generics: Seq<GenericParam>,
    m: MappingV,
    arg_tys: Seq<TyV>,
    arg_spans: Seq<Span>,
) -> (InferV, Result<TyV, TypeErrorV>) {
    let (st1, param_tys) = param_types_from(st, sig.params@, 0, m, Seq::empty());
    let (st2, ret) = declared_result(st1, sig.ret, m);
    let (st3, r) = args_unified(st2, param_tys, 0, arg_tys, arg_spans, 0);
    match r {
        Err(e) => (st3, Err(e)),
        Ok(_) => {
            let (tys, gating) = generics_known(
                st3,
                generics,
                generics.len(),
                m,
                free_of(param_tys),
            );
            let (st4, settled) = call_settled(st3, algebra, tys, gating, call_span);
            match settled {
                Err(e) => (st4, Err(e)),
                Ok(_) => (st4, Ok(applied(st4.subst, ret))),
            }
        },
    }
}

// ---- indexing ----

/// The error that a value that is no array was indexed.
pub open spec fn not_an_array(st: InferV, found: TyV, span: Span) -> (InferV, TypeErrorV) {
    (
        minted(minted(st)),
        error_at(
            span,
            TypeErrorKindV::Unify(
                UnifyErrorV::Mismatch(
                    TyV::Array(
                        Box::new(next_var(st)),
                        Box::new(next_var(minted(st))),
                    ),
                    found,
                ),
            ),
        ),
    )
}

/// The type of an array after the indices from the `k`th on.
pub open spec fn element_from(st: InferV, current: TyV, spans: Seq<Span>, k: nat) -> (
    InferV,
    Result<TyV, TypeErrorV>,
)
    decreases spans.len() - k,
{
    if k >= spans.len() {
        (st, Ok(applied(st.subst, current)))
    } else {
        match applied(st.subst, current) {
            TyV::Array(elem, _) => element_from(st, *elem, spans, k + 1),
            TyV::Var(_) => (st, Ok(not_inferred())),
            other => if placeholder(other) {
                (st, Ok(not_inferred()))
            } else {
                let (st1, e) = not_an_array(st, other, spans[k as int]);
                (st1, Err(e))
            },
        }
    }
}

/// Unifies a type with each of the index types from the `k`th on.
pub open spec fn indices_unified(
    st: InferV,
    elem: TyV,
    tys: Seq<TyV>,
    spans: Seq<Span>,
    k: nat,
) -> (InferV, Result<(), TypeErrorV>)
    decreases tys.len() - k,
{
    if k >= tys.len() || k >= spans.len() {
        (st, Ok(()))
    } else {
        let (st1, r) = unified_at(st, spans[k as int], elem, tys[k as int]);
        match r {
            Err(e) => (st1, Err(e)),
            Ok(_) => indices_unified(st1, elem, tys, spans, k + 1),
        }
    }
}

/// The type of an index into a value of a known type: an element of an array, or
/// what the algebra that declares `index` says.
pub open spec fn index_type(
    st: InferV,
    base: TyV,
    index_tys: Seq<TyV>,
    index_spans: Seq<Span>,
    base_span: Span,
    expr_span: Span,
) -> (InferV, Result<TyV, TypeErrorV>) {
    match base {
        TyV::Array(_, _) => element_from(st, base, index_spans, 0),
        _ => {
            let elem = next_var(st);
            let (st1, r) = indices_unified(minted(st), elem, index_tys, index_spans, 0);
            match r {
                Err(e) => (st1, Err(e)),
                Ok(_) => {
                    let index_array = TyV::Array(
                        Box::new(elem),
                        Box::new(TyV::Const(ConstValue::Int(index_tys.len() as u64))),
                    );
                    let candidates = declaring_from(st.registry, 0, "index"@, 2);
                    if candidates.len() > 1 {
                        (
                            st1,
                            Err(
                                error_at(
                                    expr_span,
                                    TypeErrorKindV::AmbiguousOperator {
                                        name: "index"@,
                                        candidates,
                                    },
                                ),
                            ),
                        )
                    } else if candidates.len() == 1 {
                        algebra_call_type(
                            st1,
                            expr_span,
                            candidates[0],
                            "index"@,
                            seq![base, index_array],
                            seq![base_span, expr_span],
                            Seq::empty(),
                        )
                    } else {
                        let (st2, e) = not_an_array(st1, base, expr_span);
                        (st2, Err(e))
                    }
                },
            }
        },
    }
}

/// What the first `n` generics stand for in a list of type arguments.
fn zip_generics(generics: &Vec<GenericParam>, tys: &Vec<Ty>, n: usize) -> (r: Mapping)
    requires
        n <= generics.len(),
        n <= tys.len(),
    ensures
        r@ == zipped(generics@, views(tys@), n as nat),
{
    let mut out: Mapping = Table::new();
    let mut i: usize = 0;
    while i < n
        invariant
            i <= n,
            n <= generics.len(),
            n <= tys.len(),
            out@ == zipped(generics@, views(tys@), i as nat),
        decreases n - i,
    {
        out.insert(generics[i].name().clone(), tys[i].dup());
        i = i + 1;
    }
    out
}

impl<'r> Infer<'r> {
    fn no_such_field(struct_name: &String, field: &String, span: Span) -> (r: TypeError)
        ensures
            r@ == no_field(struct_name@, field@, span),
    {
        TypeError {
            span,
            kind: TypeErrorKind::NoSuchField {
                struct_name: struct_name.clone(),
                field: field.clone(),
            },
        }
    }

    /// What the generics of a struct stand for in a list of type arguments.
    fn zip_struct_generics(&self, entry: &StructEntry, type_args: &Vec<Ty>) -> (r: Mapping)
        ensures
            r@ == zipped(
                entry.generics@,
                views(type_args@),
                lesser(entry.generics@.len(), type_args@.len()),
            ),
    {
        let n: usize = if entry.generics.len() < type_args.len() {
            entry.generics.len()
        } else {
            type_args.len()
        };
        zip_generics(&entry.generics, type_args, n)
    }

    fn generic_field(&mut self, entry: &StructEntry, ty: &Type, type_args: &Vec<Ty>) -> (r: Ty)
        ensures
            generic_field_type(old(self)@, *entry, *ty, views(type_args@)) == (
                final(self)@,
                Ok::<TyV, TypeErrorV>(r@),
            ),
    {
        let g = &entry.generics;
        if g.len() > 0 && g[g.len() - 1].is_variadic() {
            let n: usize = if g.len() - 1 < type_args.len() {
                g.len() - 1
            } else {
                type_args.len()
            };
            let mapping: Mapping = zip_generics(g, type_args, n);
            let pack_tys: Vec<Ty> = dup_tail(type_args, n);
            self.ty_from_ast_mapped_with_pack(ty, &mapping, g[g.len() - 1].name(), &pack_tys)
        } else {
            let mapping: Mapping = self.zip_struct_generics(entry, type_args);
            self.ty_from_ast_mapped(ty, &mapping)
        }
    }

    /// The type of a field of a value of a known type.
    pub(crate) fn resolve_field_access(&mut self, resolved: &Ty, name: &String, span: Span) -> (r:
        Result<Ty, TypeError>)
        ensures
            field_type(old(self)@, resolved@, name@, span) == (final(self)@, ty_result(r)),
    {
        proof {
            lemma_ty_view(*resolved);
        }
        let registry = self.registry;
        match resolved {
            Ty::Con(struct_name) => match registry.struct_entry(struct_name.as_str()) {
                Some(entry) => match find_field(&entry.fields, name.as_str()) {
                    Some(field) => Ok(self.ty_from_ast(&field.ty)),
                    None => Err(Self::no_such_field(struct_name, name, span)),
                },
                None => Err(Self::no_such_field(struct_name, name, span)),
            },
            Ty::App(struct_name, args) => match registry.struct_entry(struct_name.as_str()) {
                Some(entry) => match find_field(&entry.fields, name.as_str()) {
                    Some(field) => Ok(self.generic_field(entry, &field.ty, args)),
                    None => Err(Self::no_such_field(struct_name, name, span)),
                },
                None => Err(Self::no_such_field(struct_name, name, span)),
            },
            _ => Err(Self::no_such_field(&resolved.to_text(), name, span)),
        }
    }

    /// The types of the parameters of a method.
    pub(crate) fn inherent_method_param_tys(
        &mut self,
        params: &Vec<Param>,
        mapping: &Mapping,
        target: &Ty,
    ) -> (r: Vec<Ty>)
        ensures
            method_params_from(old(self)@, params@, 0, mapping@, target@, Seq::empty()) == (
                final(self)@,
                views(r@),
            ),
            r.len() == params.len(),
    {
        let mut out: Vec<Ty> = Vec::new();
        let mut i: usize = 0;
        while i < params.len()
            invariant
                i <= params.len(),
                out.len() == i,
                method_params_from(old(self)@, params@, 0, mapping@, target@, Seq::empty())
                    == method_params_from(
                    self@,
                    params@,
                    i as nat,
                    mapping@,
                    target@,
                    views(out@),
                ),
            decreases params.len() - i,
        {
            let t: Ty = match &params[i].ty {
                Some(t) => self.ty_from_ast_mapped(t, mapping),
                None => if i == 0 {
                    target.dup()
                } else {
                    self.fresh()
                },
            };
            out.push(t);
            i = i + 1;
        }
        out
    }

    pub(crate) fn unify_args(
        &mut self,
        params: &Vec<Ty>,
        off: usize,
        args: &Vec<Ty>,
        spans: &Vec<Span>,
    ) -> (r: Result<(), TypeError>)
        requires
            off <= params.len(),
        ensures
            args_unified(old(self)@, views(params@), off as nat, views(args@), spans@, 0) == (
                final(self)@,
                unit_result(r),
            ),
    {
        let mut k: usize = 0;
        while k < args.len() && k < spans.len() && k < params.len() - off
            invariant
                k <= args.len(),
                off <= params.len(),
                args_unified(old(self)@, views(params@), off as nat, views(args@), spans@, 0)
                    == args_unified(
                    self@,
                    views(params@),
                    off as nat,
                    views(args@),
                    spans@,
                    k as nat,
                ),
            decreases args.len() - k,
        {
            self.unify_at(spans[k], &params[off + k], &args[k])?;
            k = k + 1;
        }
        Ok(())
    }

    fn undeclared_method_result(
        &self,
        struct_name: &String,
        method: &String,
        mapping: &Mapping,
    ) -> (r: Ty)
        ensures
            r@ == undeclared_result(self@, struct_name@, method@, mapping@),
    {
        match self.inherent_patterns {
            None => not_inferred_ty(),
            Some(patterns) => match patterns.get(&(struct_name.clone(), method.clone())) {
                None => not_inferred_ty(),
                Some(pattern) => {
                    let mut remap: Table<u32, Ty> = Table::new();
                    let mut i: usize = 0;
                    while i < pattern.generics_mapping.len()
                        invariant
                            i <= pattern.generics_mapping.len(),
                            remap@ == pattern_vars(pattern@.generics, i as nat, mapping@),
                        decreases pattern.generics_mapping.len() - i,
                    {
                        let g = &pattern.generics_mapping[i];
                        proof {
                            assert(pattern@.generics[i as int] == g@);
                            lemma_ty_view(g.1);
                        }
                        if let Ty::Var(v) = &g.1 {
                            if let Some(t) = mapping.get(&g.0) {
                                remap.insert(v.0, t.dup());
                            }
                        }
                        i = i + 1;
                    }
                    substitute(&pattern.ret_pattern, &remap)
                },
            },
        }
    }

    /// The type of a method call on a value of a known type.
    pub(crate) fn resolve_method_call(
        &mut self,
        resolved_base: &Ty,
        name: &String,
        arg_tys: &Vec<Ty>,
        arg_spans: &Vec<Span>,
        base_span: Span,
        call_span: Span,
    ) -> (r: Result<Ty, TypeError>)
        ensures
            method_call_type(
                old(self)@,
                resolved_base@,
                name@,
                views(arg_tys@),
                arg_spans@,
                base_span,
                call_span,
            ) == (final(self)@, ty_result(r)),
    {
        proof {
            lemma_ty_view(*resolved_base);
        }
        let registry = self.registry;
        let struct_name: &String = match resolved_base {
            Ty::Con(n) => n,
            Ty::App(n, _) => n,
            _ => {
                return Err(
                    TypeError {
                        span: call_span,
                        kind: TypeErrorKind::NoSuchMethod {
                            struct_name: resolved_base.to_text(),
                            method: name.clone(),
                        },
                    },
                );
            },
        };
        let entry = match registry.inherent_method(struct_name.as_str(), name.as_str()) {
            Some(e) => e,
            None => {
                return Err(
                    TypeError {
                        span: call_span,
                        kind: TypeErrorKind::NoSuchMethod {
                            struct_name: struct_name.clone(),
                            method: name.clone(),
                        },
                    },
                );
            },
        };
        let params = &entry.method.params;
        if params.len() == 0 || params.len() - 1 != arg_tys.len() {
            let found: usize = if arg_tys.len() < usize::MAX {
                arg_tys.len() + 1
            } else {
                usize::MAX
            };
            return Err(
                TypeError {
                    span: call_span,
                    kind: TypeErrorKind::ArityMismatch {
                        name: name.clone(),
                        expected: params.len(),
                        found,
                    },
                },
            );
        }
        let mapping: Mapping = self.fresh_generics_mapping(entry.generics.as_slice(), call_span);
        let target: Ty = self.ty_from_ast_mapped(&entry.target, &mapping);
        let param_tys: Vec<Ty> = self.inherent_method_param_tys(params, &mapping, &target);
        self.unify_at(base_span, &param_tys[0], resolved_base)?;
        self.unify_args(&param_tys, 1, arg_tys, arg_spans)?;
        match &entry.method.ret {
            Some(t) => Ok(self.ty_from_ast_mapped(t, &mapping)),
            None => Ok(self.undeclared_method_result(struct_name, name, &mapping)),
        }
    }

    pub(crate) fn pin_generics(
        &mut self,
        generics: &[GenericParam],
        explicit: &[GenericArg],
        mapping: &Mapping,
        span: Span,
        Ghost(opened): Ghost<InferV>,
    ) -> (r: Result<(), TypeError>)
        requires
            mapping@ == fresh_for(opened, generics@, generics@.len()).1,
        ensures
            generics_pinned(old(self)@, generics@, explicit@, 0, mapping@, span) == (
                final(self)@,
                unit_result(r),
            ),
    {
        let mut i: usize = 0;
        while i < generics.len() && i < explicit.len()
            invariant
                i <= generics.len(),
                mapping@ == fresh_for(opened, generics@, generics@.len()).1,
                generics_pinned(old(self)@, generics@, explicit@, 0, mapping@, span)
                    == generics_pinned(self@, generics@, explicit@, i as nat, mapping@, span),
            decreases generics.len() - i,
        {
            proof {
                lemma_fresh_for_names(opened, generics@, generics@.len(), i as int);
            }
            let t: Ty = self.generic_arg_to_ty(&explicit[i]);
            if let Some(own) = mapping.get(generics[i].name()) {
                self.unify_at(span, own, &t)?;
            }
            i = i + 1;
        }
        Ok(())
    }

    pub(crate) fn param_types_from_ast(&mut self, params: &Vec<Param>, mapping: &Mapping) -> (r:
        Vec<Ty>)
        ensures
            param_types_from(old(self)@, params@, 0, mapping@, Seq::empty()) == (
                final(self)@,
                views(r@),
            ),
            r.len() == params.len(),
    {
        let mut out: Vec<Ty> = Vec::new();
        let mut i: usize = 0;
        while i < params.len()
            invariant
                i <= params.len(),
                out.len() == i,
                param_types_from(old(self)@, params@, 0, mapping@, Seq::empty())
                    == param_types_from(self@, params@, i as nat, mapping@, views(out@)),
            decreases params.len() - i,
        {
            let t: Ty = match &params[i].ty {
                Some(t) => self.ty_from_ast_mapped(t, mapping),
                None => self.fresh(),
            };
            out.push(t);
            i = i + 1;
        }
        out
    }

    pub(crate) fn result_from_ast(&mut self, ret: &Option<Type>, mapping: &Mapping) -> (r: Ty)
        ensures
            declared_result(old(self)@, *ret, mapping@) == (final(self)@, r@),
    {
        match ret {
            Some(t) => self.ty_from_ast_mapped(t, mapping),
            None => unit_type(),
        }
    }

    fn known_generics(
        &self,
        generics: &Vec<GenericParam>,
        mapping: &Mapping,
        mentioned: &Vec<u32>,
        Ghost(opened): Ghost<InferV>,
    ) -> (r: (Vec<Ty>, Vec<usize>))
        requires
            mapping@ == fresh_for(opened, generics@, generics@.len()).1,
        ensures
            generics_known(self@, generics@, generics@.len(), mapping@, mentioned@) == (
                views(r.0@),
                r.1@,
            ),
    {
        let mut tys: Vec<Ty> = Vec::new();
        let mut gating: Vec<usize> = Vec::new();
        let mut i: usize = 0;
        while i < generics.len()
            invariant
                i <= generics.len(),
                mapping@ == fresh_for(opened, generics@, generics@.len()).1,
                generics_known(self@, generics@, i as nat, mapping@, mentioned@) == (
                    views(tys@),
                    gating@,
                ),
            decreases generics.len() - i,
        {
            proof {
                lemma_fresh_for_names(opened, generics@, generics@.len(), i as int);
            }
            if let GenericParam::Type { name, .. } = &generics[i] {
                if let Some(own) = mapping.get(name) {
                    proof {
                        lemma_ty_view(*own);
                    }
                    let resolved: Ty = self.subst.apply(own);
                    if let Ty::Var(v) = own {
                        if holds_number(mentioned, v.0) {
                            gating.push(tys.len());
                        }
                    }
                    tys.push(resolved);
                }
            }
            i = i + 1;
        }
        (tys, gating)
    }

    fn settle_call(
        &mut self,
        algebra: &String,
        tys: Vec<Ty>,
        gating: Vec<usize>,
        span: Span,
    ) -> (r: Result<(), TypeError>)
        ensures
            call_settled(old(self)@, algebra@, views(tys@), gating@, span) == (
                final(self)@,
                unit_result(r),
            ),
    {
        if any_gate_placeholder(&tys, &gating) || (!self.active_generics.is_empty()
            && !are_fully_concrete(&tys)) {
            self.demand(
                Constraint { algebra: algebra.clone(), tys, gating_indices: gating, span },
            );
            return Ok(());
        }
        if !all_gates_concrete(&tys, &gating) {
            self.demand(
                Constraint { algebra: algebra.clone(), tys, gating_indices: gating, span },
            );
            return Ok(());
        }
        match self.dispatch_algebra_call(algebra, &tys, span) {
            Ok(found) => if found {
                Ok(())
            } else {
                Err(
                    TypeError {
                        span,
                        kind: TypeErrorKind::MissingImpl {
                            algebra: algebra.clone(),
                            ty: list_text(&tys),
                        },
                    },
                )
            },
            Err(e) => {
                let ambiguous: bool = match &e.kind {
                    TypeErrorKind::AmbiguousDispatch { .. } => true,
                    _ => false,
                };
                if ambiguous {
                    self.demand(
                        Constraint { algebra: algebra.clone(), tys, gating_indices: gating, span },
                    );
                    Ok(())
                } else {
                    Err(e)
                }
            },
        }
    }

    fn checked_algebra_call(
        &mut self,
        call_span: Span,
        algebra: &String,
        sig: &FnSig,
        generics: &Vec<GenericParam>,
        mapping: &Mapping,
        arg_tys: &Vec<Ty>,
        arg_spans: &Vec<Span>,
        Ghost(opened): Ghost<InferV>,
    ) -> (r: Result<Ty, TypeError>)
        requires
            mapping@ == fresh_for(opened, generics@, generics@.len()).1,
        ensures
            algebra_call_checked(
                old(self)@,
                call_span,
                algebra@,
                *sig,
                generics@,
                mapping@,
                views(arg_tys@),
                arg_spans@,
            ) == (final(self)@, ty_result(r)),
    {
        let param_tys: Vec<Ty> = self.param_types_from_ast(&sig.params, mapping);
        let ret: Ty = self.result_from_ast(&sig.ret, mapping);
        self.unify_args(&param_tys, 0, arg_tys, arg_spans)?;
        let mut mentioned: Vec<u32> = Vec::new();
        free_vars_all(&param_tys, &mut mentioned);
        let (tys, gating) = self.known_generics(generics, mapping, &mentioned, Ghost(opened));
        self.settle_call(algebra, tys, gating, call_span)?;
        Ok(self.subst.apply(&ret))
    }

    /// The type of a call of an algebra function.
    pub(crate) fn infer_algebra_call(
        &mut self,
        call_span: Span,
        algebra: &String,
        name: &String,
        arg_tys: &Vec<Ty>,
        arg_spans: &Vec<Span>,
        explicit_generics: &[GenericArg],
    ) -> (r: Result<Ty, TypeError>)
        ensures
            algebra_call_type(
                old(self)@,
                call_span,
                algebra@,
                name@,
                views(arg_tys@),
                arg_spans@,
                explicit_generics@,
            ) == (final(self)@, ty_result(r)),
    {
        let registry = self.registry;
        match registry.algebra(algebra.as_str()) {
            None => Err(
                TypeError {
                    span: call_span,
                    kind: TypeErrorKind::UnknownAlgebraMethod {
                        algebra: algebra.clone(),
                        method: name.clone(),
                    },
                },
            ),
            Some(entry) => match crate::registry::find_fn(&entry.fns, name.as_str()) {
                None => Err(
                    TypeError {
                        span: call_span,
                        kind: TypeErrorKind::UnknownAlgebraMethod {
                            algebra: algebra.clone(),
                            method: name.clone(),
                        },
                    },
                ),
                Some(sig) => {
                    if sig.params.len() != arg_spans.len() {
                        return Err(
                            TypeError {
                                span: call_span,
                                kind: TypeErrorKind::ArityMismatch {
                                    name: name.clone(),
                                    expected: sig.params.len(),
                                    found: arg_spans.len(),
                                },
                            },
                        );
                    }
                    let generics = &entry.generics;
                    let mapping: Mapping = self.fresh_vars_for_generics(generics.as_slice());
                    if explicit_generics.len() != 0 && explicit_generics.len() != generics.len() {
                        return Err(
                            TypeError {
                                span: call_span,
                                kind: TypeErrorKind::ArityMismatch {
                                    name: glued(name.as_str(), "::<...>"),
                                    expected: generics.len(),
                                    found: explicit_generics.len(),
                                },
                            },
                        );
                    }
                    self.pin_generics(
                        generics.as_slice(),
                        explicit_generics,
                        &mapping,
                        call_span,
                        Ghost(old(self)@),
                    )?;
                    self.checked_algebra_call(
                        call_span,
                        algebra,
                        sig,
                        generics,
                        &mapping,
                        arg_tys,
                        arg_spans,
                        Ghost(old(self)@),
                    )
                },
            },
        }
    }

    pub(crate) fn array_mismatch(&mut self, found: Ty, span: Span) -> (r: TypeError)
        ensures
            not_an_array(old(self)@, found@, span) == (final(self)@, r@),
    {
        let elem: Ty = self.fresh();
        let size: Ty = self.fresh();
        TypeError {
            span,
            kind: TypeErrorKind::Unify(
                UnifyError::Mismatch(Ty::Array(Box::new(elem), Box::new(size)), found),
            ),
        }
    }

    fn resolve_elements(&mut self, base: &Ty, spans: &Vec<Span>) -> (r: Result<Ty, TypeError>)
        ensures
            element_from(old(self)@, base@, spans@, 0) == (final(self)@, ty_result(r)),
    {
        let mut current: Ty = base.dup();
        let mut k: usize = 0;
        while k < spans.len()
            invariant
                k <= spans.len(),
                element_from(old(self)@, base@, spans@, 0) == element_from(
                    self@,
                    current@,
                    spans@,
                    k as nat,
                ),
            decreases spans.len() - k,
        {
            let known: Ty = self.subst.apply(&current);
            proof {
                lemma_ty_view(known);
            }
            match known {
                Ty::Array(elem, _) => {
                    current = *elem;
                },
                Ty::Var(_) => {
                    return Ok(not_inferred_ty());
                },
                other => {
                    if is_placeholder(&other) {
                        return Ok(not_inferred_ty());
                    }
                    return Err(self.array_mismatch(other, spans[k]));
                },
            }
            k = k + 1;
        }
        Ok(self.subst.apply(&current))
    }

    fn unify_indices(&mut self, elem: &Ty, tys: &Vec<Ty>, spans: &Vec<Span>) -> (r: Result<
        (),
        TypeError,
    >)
        ensures
            indices_unified(old(self)@, elem@, views(tys@), spans@, 0) == (
                final(self)@,
                unit_result(r),
            ),
    {
        let mut k: usize = 0;
        while k < tys.len() && k < spans.len()
            invariant
                k <= tys.len(),
                indices_unified(old(self)@, elem@, views(tys@), spans@, 0) == indices_unified(
                    self@,
                    elem@,
                    views(tys@),
                    spans@,
                    k as nat,
                ),
            decreases tys.len() - k,
        {
            self.unify_at(spans[k], elem, &tys[k])?;
            k = k + 1;
        }
        Ok(())
    }

    /// The type of an index into a value of a known type.
    pub(crate) fn resolve_index(
        &mut self,
        base: Ty,
        index_tys: &Vec<Ty>,
        index_spans: &Vec<Span>,
        base_span: Span,
        expr_span: Span,
    ) -> (r: Result<Ty, TypeError>)
        ensures
            index_type(
                old(self)@,
                base@,
                views(index_tys@),
                index_spans@,
                base_span,
                expr_span,
            ) == (final(self)@, ty_result(r)),
    {
        proof {
            lemma_ty_view(base);
        }
        let registry = self.registry;
        if let Ty::Array(_, _) = &base {
            return self.resolve_elements(&base, index_spans);
        }
        let elem: Ty = self.fresh();
        self.unify_indices(&elem, index_tys, index_spans)?;
        let index_array = Ty::Array(
            Box::new(elem),
            Box::new(Ty::Const(ConstValue::Int(index_tys.len() as u64))),
        );
        let candidates: Vec<String> = registry.algebras_with_fn("index", 2);
        if candidates.len() > 1 {
            return Err(
                TypeError {
                    span: expr_span,
                    kind: TypeErrorKind::AmbiguousOperator { name: "index".to_owned(), candidates },
                },
            );
        }
        if candidates.len() == 1 {
            let mut tys: Vec<Ty> = Vec::new();
            tys.push(base);
            tys.push(index_array);
            let mut spans: Vec<Span> = Vec::new();
            spans.push(base_span);
            spans.push(expr_span);
            assert(views(tys@) =~= seq![base@, index_array@]);
            assert(spans@ =~= seq![base_span, expr_span]);
            assert(views(candidates@)[0] == candidates@[0]@);
            let none: Vec<GenericArg> = Vec::new();
            assert(none@ =~= Seq::empty());
            return self.infer_algebra_call(
                expr_span,
                &candidates[0],
                &"index".to_owned(),
                &tys,
                &spans,
                none.as_slice(),
            );
        }
        Err(self.array_mismatch(base, expr_span))
    }
}

fn any_gate_placeholder(tys: &Vec<Ty>, gating: &Vec<usize>) -> (r: bool)
    ensures
        r == gate_placeholder(views(tys@), gating@, gating@.len()),
{
    let mut i: usize = gating.len();
    while i > 0
        invariant
            i <= gating.len(),
            gate_placeholder(views(tys@), gating@, gating@.len()) == gate_placeholder(
                views(tys@),
                gating@,
                i as nat,
            ),
        decreases i,
    {
        let g: usize = gating[i - 1];
        if g < tys.len() && is_placeholder(&tys[g]) {
            return true;
        }
        i = i - 1;
    }
    false
}

/// Whether the types at the places hold no variable.
pub(crate) fn all_gates_concrete(tys: &Vec<Ty>, gating: &Vec<usize>) -> (r: bool)
    ensures
        r == gates_concrete(views(tys@), gating@, gating@.len()),
{
    let mut i: usize = gating.len();
    while i > 0
        invariant
            i <= gating.len(),
            gates_concrete(views(tys@), gating@, gating@.len()) == gates_concrete(
                views(tys@),
                gating@,
                i as nat,
            ),
        decreases i,
    {
        let g: usize = gating[i - 1];
        if g < tys.len() && !is_fully_concrete(&tys[g]) {
            return false;
        }
        i = i - 1;
    }
    true
}

} // verus!
