//! The types of functions and methods.

use vstd::prelude::*;

use crate::ast::{Block, FnDecl, FnSig, GenericParam, Param, Span, Type, TypeKind};
use crate::errors::{error_at, TypeError, TypeErrorKind, TypeErrorKindV, TypeErrorV};
use crate::infer_calls::{declared_result, method_params_from, param_types_from};
use crate::infer_expr::block_type;
use crate::infer_impls::unified_at;
use crate::infer_pending::{
    calls_checked, defaults_applied, demands_checked, divs_checked, fields_checked,
    type_names_checked,
};
use crate::infer_schemes::{
    consts_seeded, generics_quantified, lambdas_resolved, nodes_resolved,
};
use crate::infer_state::{
    minted, mono, next_var, ty_result, unit_result, Env, EnvV, Infer, InferV, Mapping, MappingV,
    MethodShape, MethodShapeV, Scheme,
};
use crate::infer_types::{generics_opened, path_name, path_text, type_of};
use crate::subst::{applied, applied_all};
use crate::table::{group_views, views, Dup, Table};
use crate::ty::{group_ty, Ty, TyV};
use crate::types::{
    dup_tys, find_placeholder_in_list, find_placeholder_name, placeholder_from, placeholder_in,
};

verus! {

broadcast use {group_views, group_ty};

/// The place of the value of a block: its tail, or else its last statement.
pub open spec fn body_span(b: Block) -> Option<Span> {
    match b.tail {
        Some(t) => Some(t.span),
        None => if b.stmts@.len() > 0 {
            Some(b.stmts@.last().span)
        } else {
            None
        },
    }
}

/// The place of the tail of a block, or the place given.
pub open spec fn tail_span(b: Block, fallback: Span) -> Span {
    match b.tail {
        Some(t) => t.span,
        None => fallback,
    }
}

fn span_of_body(b: &Block) -> (r: Option<Span>)
    ensures
        r == body_span(*b),
{
    match &b.tail {
        Some(t) => Some(t.span),
        None => if b.stmts.len() > 0 {
            Some(b.stmts[b.stmts.len() - 1].span)
        } else {
            None
        },
    }
}

fn span_of_tail(b: &Block, fallback: Span) -> (r: Span)
    ensures
        r == tail_span(*b, fallback),
{
    match &b.tail {
        Some(t) => t.span,
        None => fallback,
    }
}

/// The error that a type of a function could not be determined.
pub open spec fn undetermined(f: FnDecl, result: TyV, params: Seq<TyV>) -> Option<TypeErrorV> {
    let found = match placeholder_in(result) {
        Some(name) => Some(name),
        None => placeholder_from(params, 0),
    };
    match (found, f.body) {
        (Some(name), Some(body)) => match body_span(body) {
            Some(span) => Some(error_at(span, TypeErrorKindV::Unresolved(name))),
            None => None,
        },
        _ => None,
    }
}

/// Fails if a type of a function could not be determined.
pub(crate) fn check_no_placeholder(f: &FnDecl, final_result: &Ty, param_types: &Vec<Ty>) -> (r:
    Result<(), TypeError>)
    ensures
        match r {
            Ok(_) => undetermined(*f, final_result@, views(param_types@)) is None,
            Err(e) => undetermined(*f, final_result@, views(param_types@)) == Some(e@),
        },
{
    let found: Option<String> = match find_placeholder_name(final_result) {
        Some(name) => Some(name),
        None => find_placeholder_in_list(param_types),
    };
    if let Some(name) = found {
        if let Some(body) = &f.body {
            if let Some(span) = span_of_body(body) {
                return Err(TypeError { span, kind: TypeErrorKind::Unresolved(name) });
            }
        }
    }
    Ok(())
}

/// The names in scope with the first `n` parameters added.
pub open spec fn params_bound(env: EnvV, params: Seq<Param>, tys: Seq<TyV>, n: nat) -> EnvV
    decreases n,
{
    if n == 0 || n > params.len() || n > tys.len() {
        env
    } else {
        params_bound(env, params, tys, (n - 1) as nat).insert(
            params[n - 1].name@,
            mono(tys[n - 1]),
        )
    }
}

/// The names in scope with the parameters added.
pub open spec fn all_params_bound(env: EnvV, params: Seq<Param>, tys: Seq<TyV>) -> EnvV {
    params_bound(
        env,
        params,
        tys,
        if params.len() < tys.len() {
            params.len()
        } else {
            tys.len()
        },
    )
}

fn bind_params(env: &mut Env, params: &Vec<Param>, tys: &Vec<Ty>)
    ensures
        final(env)@ == all_params_bound(old(env)@, params@, views(tys@)),
{
    let n: usize = if params.len() < tys.len() {
        params.len()
    } else {
        tys.len()
    };
    let mut i: usize = 0;
    while i < n
        invariant
            i <= n,
            n <= params.len(),
            n <= tys.len(),
            env@ == params_bound(old(env)@, params@, views(tys@), i as nat),
        decreases n - i,
    {
        env.insert(params[i].name.clone(), Scheme::mono(tys[i].dup()));
        i = i + 1;
    }
}

// ---- functions ----

/// The parameter types, the result type and the generics that the inference of
/// a function starts from.
pub open spec fn fn_shape(st: InferV, f: FnDecl) -> (InferV, Seq<TyV>, TyV, MappingV) {
    let span = match f.body {
        Some(b) => body_span(b),
        None => None,
    };
    let (st1, m) = match span {
        Some(span) => generics_opened(st, f.generics@, span),
        None => (st, Map::empty()),
    };
    let (st2, params) = param_types_from(st1, f.params@, 0, m, Seq::empty());
    (minted(st2), params, next_var(st2), m)
}

/// The type of the body of a function, unified with its declared result and
/// with `ret`.
pub open spec fn fn_body(
    st: InferV,
    f: FnDecl,
    body: Block,
    outer: EnvV,
    params: Seq<TyV>,
    ret: TyV,
    m: MappingV,
) -> (InferV, Result<TyV, TypeErrorV>) {
    let st0 = InferV { active: m, ..st };
    let env = consts_seeded(
        all_params_bound(outer, f.params@, params),
        f.generics@,
        f.generics@.len(),
        m,
    );
    let (st1, r1) = block_type(st0, env, body);
    match r1 {
        Err(e) => (st1, Err(e)),
        Ok(t) => {
            let (st2, r2) = match f.ret {
                Some(declared) => {
                    let (sta, own) = type_of(st1, declared, m);
                    unified_at(sta, declared.span, own, t)
                },
                None => (st1, Ok(())),
            };
            match r2 {
                Err(e) => (st2, Err(e)),
                Ok(_) => match body_span(body) {
                    Some(span) => {
                        let (st3, r3) = unified_at(st2, span, ret, t);
                        match r3 {
                            Err(e) => (st3, Err(e)),
                            Ok(_) => (st3, Ok(t)),
                        }
                    },
                    None => (st2, Ok(t)),
                },
            }
        },
    }
}

/// What comes of everything that was put off: the first failure, if any.
pub open spec fn all_checked(st: InferV) -> (InferV, Result<(), TypeErrorV>) {
    let (st1, r1) = demands_checked(defaults_applied(st));
    match r1 {
        Err(e) => (st1, Err(e)),
        Ok(_) => {
            let (st2, r2) = type_names_checked(st1);
            match r2 {
                Err(e) => (st2, Err(e)),
                Ok(_) => {
                    let (st3, r3) = divs_checked(st2);
                    match r3 {
                        Err(e) => (st3, Err(e)),
                        Ok(_) => {
                            let (st4, r4) = fields_checked(st3);
                            match r4 {
                                Err(e) => (st4, Err(e)),
                                Ok(_) => calls_checked(st4),
                            }
                        },
                    }
                },
            }
        },
    }
}

/// The final type of the result of a function, once everything that was put off
/// was taken up.
pub open spec fn fn_finished(st: InferV, f: FnDecl, params: Seq<TyV>, result: TyV) -> (
    InferV,
    Result<TyV, TypeErrorV>,
) {
    let (st1, r1) = all_checked(st);
    match r1 {
        Err(e) => (st1, Err(e)),
        Ok(_) => {
            let st2 = InferV { param_types: applied_all(st1.subst, params), ..st1 };
            let st3 = lambdas_resolved(nodes_resolved(st2));
            let t = applied(st3.subst, result);
            match undetermined(f, t, st3.param_types) {
                Some(e) => (st3, Err(e)),
                None => (st3, Ok(t)),
            }
        },
    }
}

/// The names in scope in a function that is inferred by itself: its own.
pub open spec fn own_name(f: FnDecl, params: Seq<TyV>, ret: TyV) -> EnvV {
    Map::<Seq<char>, crate::infer_state::SchemeV>::empty().insert(
        f.name@,
        mono(TyV::Fn(params, Box::new(ret))),
    )
}

/// The type of the result of a function.
pub open spec fn fn_type(st: InferV, f: FnDecl) -> (InferV, Result<TyV, TypeErrorV>) {
    let (st1, params, ret, m) = fn_shape(st, f);
    fn_type_with(st1, f, params, ret, m)
}

/// The type of the result of a function with those parameter types.
pub open spec fn fn_type_with(
    st: InferV,
    f: FnDecl,
    params: Seq<TyV>,
    ret: TyV,
    m: MappingV,
) -> (InferV, Result<TyV, TypeErrorV>) {
    let (st2, r2) = fn_body(st, f, f.body->0, own_name(f, params, ret), params, ret, m);
    match r2 {
        Err(e) => (st2, Err(e)),
        Ok(t) => fn_finished(st2, f, params, t),
    }
}

// ---- methods of algebras ----

/// The types that the targets from the `i`th on stand for, after those of `acc`.
pub open spec fn targets_from(
    st: InferV,
    targets: Seq<Type>,
    i: nat,
    m: MappingV,
    acc: Seq<TyV>,
) -> (InferV, Seq<TyV>)
    decreases targets.len() - i,
{
    if i >= targets.len() {
        (st, acc)
    } else {
        let (st1, t) = type_of(st, targets[i as int], m);
        targets_from(st1, targets, i + 1, m, acc.push(t))
    }
}

/// What the generics of an algebra from the `i`th on stand for in an impl: the
/// targets from the `k`th on in order, and fresh variables for constants.
pub open spec fn algebra_generics_from(
    st: InferV,
    generics: Seq<GenericParam>,
    i: nat,
    tys: Seq<TyV>,
    k: nat,
    m: MappingV,
) -> (InferV, MappingV)
    decreases generics.len() - i,
{
    if i >= generics.len() {
        (st, m)
    } else {
        match generics[i as int] {
            GenericParam::Type { name, .. } => if k < tys.len() {
                algebra_generics_from(
                    st,
                    generics,
                    i + 1,
                    tys,
                    k + 1,
                    m.insert(name@, tys[k as int]),
                )
            } else {
                algebra_generics_from(st, generics, i + 1, tys, k, m)
            },
            GenericParam::Const { name, .. } => algebra_generics_from(
                minted(st),
                generics,
                i + 1,
                tys,
                k,
                m.insert(name@, next_var(st)),
            ),
        }
    }
}

/// The types of the parameters of a method of an impl from the `i`th on, each
/// unified with what the algebra declares; and the names in scope with them.
pub open spec fn impl_params_from(
    st: InferV,
    params: Seq<Param>,
    sig: Seq<Param>,
    i: nat,
    m: MappingV,
    im: MappingV,
    env: EnvV,
    acc: Seq<TyV>,
) -> (InferV, EnvV, Result<Seq<TyV>, TypeErrorV>)
    decreases params.len() - i,
{
    if i >= params.len() || i >= sig.len() {
        (st, env, Ok(acc))
    } else {
        let (st1, expected) = match sig[i as int].ty {
            Some(t) => type_of(st, t, m),
            None => (minted(st), next_var(st)),
        };
        match params[i as int].ty {
            None => impl_params_from(
                st1,
                params,
                sig,
                i + 1,
                m,
                im,
                env.insert(params[i as int].name@, mono(expected)),
                acc.push(expected),
            ),
            Some(t) => {
                let (st2, annotated) = type_of(st1, t, im);
                let (st3, r3) = unified_at(st2, t.span, expected, annotated);
                match r3 {
                    Err(e) => (st3, env, Err(e)),
                    Ok(_) => impl_params_from(
                        st3,
                        params,
                        sig,
                        i + 1,
                        m,
                        im,
                        env.insert(params[i as int].name@, mono(annotated)),
                        acc.push(annotated),
                    ),
                }
            },
        }
    }
}

/// The type of the body of a method of an impl, unified with the result that
/// the algebra declares.
pub open spec fn impl_body(
    st: InferV,
    f: FnDecl,
    env: EnvV,
    expected: TyV,
    fallback: Span,
) -> (InferV, Result<TyV, TypeErrorV>) {
    match f.body {
        Some(body) => {
            let (st1, r1) = block_type(st, env, body);
            match r1 {
                Err(e) => (st1, Err(e)),
                Ok(t) => {
                    let (st2, r2) = unified_at(st1, tail_span(body, fallback), expected, t);
                    match r2 {
                        Err(e) => (st2, Err(e)),
                        Ok(_) => (st2, Ok(t)),
                    }
                },
            }
        },
        None => if f.is_extern {
            (st, Ok(expected))
        } else {
            (
                st,
                Err(
                    error_at(
                        fallback,
                        TypeErrorKindV::MissingIntrinsicAttribute { name: f.name@ },
                    ),
                ),
            )
        },
    }
}

/// The type of the result of a method of an impl.
pub open spec fn impl_fn_type(
    st: InferV,
    outer: EnvV,
    algebra: Seq<char>,
    impl_generics: Seq<GenericParam>,
    targets: Seq<Type>,
    f: FnDecl,
    fallback: Span,
) -> (InferV, Result<TyV, TypeErrorV>) {
    match st.registry.sig_of(algebra, f.name@) {
        None => (
            st,
            Err(
                error_at(
                    fallback,
                    TypeErrorKindV::NotDeclaredByAlgebra { algebra, name: f.name@ },
                ),
            ),
        ),
        Some(sig) => if sig.params@.len() != f.params@.len() {
            (
                st,
                Err(
                    error_at(
                        fallback,
                        TypeErrorKindV::ArityMismatch {
                            name: f.name@,
                            expected: sig.params@.len() as usize,
                            found: f.params@.len() as usize,
                        },
                    ),
                ),
            )
        } else {
            impl_fn_checked(
                st,
                outer,
                st.registry.generics_of(algebra),
                sig,
                impl_generics,
                targets,
                f,
                fallback,
            )
        },
    }
}

/// The type of the result of a method of an impl that the algebra declares.
pub open spec fn impl_fn_checked(
    st: InferV,
    outer: EnvV,
    generics: Seq<GenericParam>,
    sig: FnSig,
    impl_generics: Seq<GenericParam>,
    targets: Seq<Type>,
    f: FnDecl,
    fallback: Span,
) -> (InferV, Result<TyV, TypeErrorV>) {
    let (sta, im) = generics_opened(st, impl_generics, fallback);
    let (stb, tys) = targets_from(InferV { active: im, ..sta }, targets, 0, im, Seq::empty());
    let (st1, m) = algebra_generics_from(
        InferV { target_types: tys, ..stb },
        generics,
        0,
        tys,
        0,
        Map::empty(),
    );
    let (st2, env, r2) = impl_params_from(
        st1,
        f.params@,
        sig.params@,
        0,
        m,
        im,
        outer,
        Seq::empty(),
    );
    match r2 {
        Err(e) => (st2, Err(e)),
        Ok(params) => {
            let (st3, expected) = declared_result(st2, sig.ret, m);
            let (st4, r4) = match f.ret {
                Some(ret) => {
                    let (stc, own) = type_of(st3, ret, im);
                    unified_at(stc, ret.span, expected, own)
                },
                None => (st3, Ok(())),
            };
            match r4 {
                Err(e) => (st4, Err(e)),
                Ok(_) => {
                    let (st5, r5) = impl_body(
                        st4,
                        f,
                        consts_seeded(env, impl_generics, impl_generics.len(), im),
                        expected,
                        fallback,
                    );
                    match r5 {
                        Err(e) => (st5, Err(e)),
                        Ok(t) => {
                            let (st6, r6) = fn_finished(
                                generics_quantified(st5, im),
                                f,
                                params,
                                t,
                            );
                            match r6 {
                                Err(e) => (st6, Err(e)),
                                Ok(u) => (
                                    InferV {
                                        target_types: applied_all(st6.subst, st6.target_types),
                                        ..st6
                                    },
                                    Ok(u),
                                ),
                            }
                        },
                    }
                },
            }
        },
    }
}

// ---- methods of structs ----

/// The type of the body of a method of a struct.
pub open spec fn inherent_body(
    st: InferV,
    outer: EnvV,
    impl_generics: Seq<GenericParam>,
    im: MappingV,
    target: TyV,
    params: Seq<TyV>,
    ret: TyV,
    f: FnDecl,
    fallback: Span,
) -> (InferV, Result<TyV, TypeErrorV>) {
    match f.body {
        None => (
            st,
            Err(error_at(fallback, TypeErrorKindV::MissingFnBody { name: f.name@ })),
        ),
        Some(body) => {
            let (st1, r1) = if f.params@.len() > 0 && params.len() > 0 {
                match f.params@[0].ty {
                    Some(t) => unified_at(st, t.span, target, params[0]),
                    None => (st, Ok(())),
                }
            } else {
                (st, Ok(()))
            };
            match r1 {
                Err(e) => (st1, Err(e)),
                Ok(_) => {
                    let env = consts_seeded(
                        all_params_bound(outer, f.params@, params),
                        impl_generics,
                        impl_generics.len(),
                        im,
                    );
                    let (st2, r2) = block_type(st1, env, body);
                    match r2 {
                        Err(e) => (st2, Err(e)),
                        Ok(t) => {
                            let (st3, r3) = match f.ret {
                                Some(declared) => {
                                    let (sta, own) = type_of(st2, declared, im);
                                    unified_at(sta, declared.span, own, t)
                                },
                                None => (st2, Ok(())),
                            };
                            match r3 {
                                Err(e) => (st3, Err(e)),
                                Ok(_) => {
                                    let (st4, r4) = unified_at(
                                        st3,
                                        tail_span(body, fallback),
                                        ret,
                                        t,
                                    );
                                    match r4 {
                                        Err(e) => (st4, Err(e)),
                                        Ok(_) => (st4, Ok(t)),
                                    }
                                },
                            }
                        },
                    }
                },
            }
        },
    }
}

/// The name of the struct that an impl is on.
pub open spec fn target_name(target: Type) -> Option<Seq<char>> {
    match target.kind {
        TypeKind::Path(p, _) => Some(path_name(p)),
        _ => None,
    }
}

/// The state while the method of that shape is being inferred.
pub open spec fn method_entered(
    st: InferV,
    target: Type,
    name: Seq<char>,
    shape: MethodShapeV,
) -> InferV {
    match target_name(target) {
        Some(n) => InferV { in_progress: st.in_progress.insert((n, name), shape), ..st },
        None => st,
    }
}

/// The state after the method was inferred.
pub open spec fn method_left(st: InferV, target: Type, name: Seq<char>) -> InferV {
    match target_name(target) {
        Some(n) => InferV { in_progress: st.in_progress.remove((n, name)), ..st },
        None => st,
    }
}

/// The type of the result of a method of a struct.
pub open spec fn inherent_fn_type(
    st: InferV,
    outer: EnvV,
    impl_generics: Seq<GenericParam>,
    target: Type,
    f: FnDecl,
    fallback: Span,
) -> (InferV, Result<TyV, TypeErrorV>) {
    let (sta, im) = generics_opened(st, impl_generics, fallback);
    let (stb, target_ty) = type_of(InferV { active: im, ..sta }, target, im);
    let (stc, params) = method_params_from(stb, f.params@, 0, im, target_ty, Seq::empty());
    let ret = next_var(stc);
    let (st1, r1) = inherent_body(
        method_entered(minted(stc), target, f.name@, MethodShapeV { params, ret }),
        outer,
        impl_generics,
        im,
        target_ty,
        params,
        ret,
        f,
        fallback,
    );
    let st2 = method_left(st1, target, f.name@);
    match r1 {
        Err(e) => (st2, Err(e)),
        Ok(t) => fn_finished(generics_quantified(st2, im), f, params, t),
    }
}

/// The shapes of the methods from the `i`th on, after those of `acc`.
pub open spec fn shapes_from(
    st: InferV,
    fns: Seq<FnDecl>,
    i: nat,
    im: MappingV,
    target: Type,
    target_ty: TyV,
    acc: Seq<MethodShapeV>,
) -> (InferV, Seq<MethodShapeV>)
    decreases fns.len() - i,
{
    if i >= fns.len() {
        (st, acc)
    } else {
        let f = fns[i as int];
        let (st1, params) = method_params_from(st, f.params@, 0, im, target_ty, Seq::empty());
        let shape = MethodShapeV { params, ret: next_var(st1) };
        shapes_from(
            method_entered(minted(st1), target, f.name@, shape),
            fns,
            i + 1,
            im,
            target,
            target_ty,
            acc.push(shape),
        )
    }
}

/// The outcome of the body of one method, with the names and divisions in its
/// types checked.
pub open spec fn body_outcome(st: InferV, r: Result<TyV, TypeErrorV>) -> (InferV, Result<
    TyV,
    TypeErrorV,
>) {
    match r {
        Err(e) => (st, Err(e)),
        Ok(t) => {
            let (st1, r1) = type_names_checked(st);
            match r1 {
                Err(e) => (st1, Err(e)),
                Ok(_) => {
                    let (st2, r2) = divs_checked(st1);
                    match r2 {
                        Err(e) => (st2, Err(e)),
                        Ok(_) => (st2, Ok(t)),
                    }
                },
            }
        },
    }
}

/// The outcomes of the bodies of the methods from the `i`th on, after those of
/// `acc`.
pub open spec fn bodies_from(
    st: InferV,
    outer: EnvV,
    impl_generics: Seq<GenericParam>,
    im: MappingV,
    target_ty: TyV,
    fns: Seq<FnDecl>,
    i: nat,
    shapes: Seq<MethodShapeV>,
    fallback: Span,
    acc: Seq<Result<TyV, TypeErrorV>>,
) -> (InferV, Seq<Result<TyV, TypeErrorV>>)
    decreases fns.len() - i,
{
    if i >= fns.len() {
        (st, acc)
    } else {
        let shape = shapes[i as int];
        let (st1, r1) = inherent_body(
            st,
            outer,
            impl_generics,
            im,
            target_ty,
            shape.params,
            shape.ret,
            fns[i as int],
            fallback,
        );
        let (st2, outcome) = body_outcome(st1, r1);
        bodies_from(
            st2,
            outer,
            impl_generics,
            im,
            target_ty,
            fns,
            i + 1,
            shapes,
            fallback,
            acc.push(outcome),
        )
    }
}

/// The state after the methods from the `i`th on were inferred.
pub open spec fn methods_left(st: InferV, target: Type, fns: Seq<FnDecl>, i: nat) -> InferV
    decreases fns.len() - i,
{
    if i >= fns.len() {
        st
    } else {
        methods_left(method_left(st, target, fns[i as int].name@), target, fns, i + 1)
    }
}

/// The outcomes with a failure that all methods share.
pub open spec fn failed_together(
    outcomes: Seq<Result<TyV, TypeErrorV>>,
    r: Result<(), TypeErrorV>,
) -> Seq<Result<TyV, TypeErrorV>> {
    match r {
        Ok(_) => outcomes,
        Err(e) => Seq::new(
            outcomes.len(),
            |i: int|
                match outcomes[i] {
                    Ok(_) => Err(e),
                    Err(x) => Err(x),
                },
        ),
    }
}

/// The final types of a method, or its failure.
pub open spec fn method_outcome(
    st: InferV,
    f: FnDecl,
    shape: MethodShapeV,
    outcome: Result<TyV, TypeErrorV>,
) -> Result<MethodShapeV, TypeErrorV> {
    match outcome {
        Err(e) => Err(e),
        Ok(t) => {
            let params = applied_all(st.subst, shape.params);
            let ret = applied(st.subst, t);
            match undetermined(f, ret, params) {
                Some(e) => Err(e),
                None => Ok(MethodShapeV { params, ret }),
            }
        },
    }
}

/// The outcomes of the first `n` methods by name.
pub open spec fn outcomes_named(
    st: InferV,
    fns: Seq<FnDecl>,
    n: nat,
    shapes: Seq<MethodShapeV>,
    outcomes: Seq<Result<TyV, TypeErrorV>>,
) -> Map<Seq<char>, Result<MethodShapeV, TypeErrorV>>
    decreases n,
{
    if n == 0 || n > fns.len() {
        Map::empty()
    } else {
        outcomes_named(st, fns, (n - 1) as nat, shapes, outcomes).insert(
            fns[n - 1].name@,
            method_outcome(st, fns[n - 1], shapes[n - 1], outcomes[n - 1]),
        )
    }
}

/// What the field accesses and method calls that were put off come to.
pub open spec fn accesses_checked(st: InferV) -> (InferV, Result<(), TypeErrorV>) {
    let (st1, r1) = fields_checked(st);
    match r1 {
        Err(e) => (st1, Err(e)),
        Ok(_) => calls_checked(st1),
    }
}

/// What the generics of an impl stand for, and the outcome of each method of
/// it. The methods may call one another.
pub open spec fn inherent_block_types(
    st: InferV,
    outer: EnvV,
    impl_generics: Seq<GenericParam>,
    target: Type,
    fns: Seq<FnDecl>,
    fallback: Span,
) -> (InferV, MappingV, Map<Seq<char>, Result<MethodShapeV, TypeErrorV>>) {
    let (sta, im) = generics_opened(st, impl_generics, fallback);
    let (stb, target_ty) = type_of(InferV { active: im, ..sta }, target, im);
    let (stc, shapes) = shapes_from(stb, fns, 0, im, target, target_ty, Seq::empty());
    let (std, raw) = bodies_from(
        stc,
        outer,
        impl_generics,
        im,
        target_ty,
        fns,
        0,
        shapes,
        fallback,
        Seq::empty(),
    );
    let ste = generics_quantified(methods_left(std, target, fns, 0), im);
    let (stf, rf) = demands_checked(defaults_applied(ste));
    let (stg, rg) = accesses_checked(stf);
    let outcomes = failed_together(failed_together(raw, rf), rg);
    let sth = lambdas_resolved(nodes_resolved(stg));
    (sth, im, outcomes_named(sth, fns, fns.len(), shapes, outcomes))
}

/// The outcome of a method: its types, or its failure.
pub struct MethodOutcome {
    pub outcome: Result<MethodShape, TypeError>,
}

impl View for MethodOutcome {
    type V = Result<MethodShapeV, TypeErrorV>;

    open spec fn view(&self) -> Result<MethodShapeV, TypeErrorV> {
        match self.outcome {
            Ok(s) => Ok(s@),
            Err(e) => Err(e@),
        }
    }
}

/// The outcomes of bodies.
pub open spec fn outcome_views(rs: Seq<Result<Ty, TypeError>>) -> Seq<Result<TyV, TypeErrorV>> {
    Seq::new(rs.len(), |i: int| ty_result(rs[i]))
}

fn fail_together(outcomes: Vec<Result<Ty, TypeError>>, r: Result<(), TypeError>) -> (out: Vec<
    Result<Ty, TypeError>,
>)
    ensures
        outcome_views(out@) == failed_together(outcome_views(outcomes@), unit_result(r)),
        out.len() == outcomes.len(),
{
    match r {
        Ok(_) => outcomes,
        Err(e) => {
            let mut out: Vec<Result<Ty, TypeError>> = Vec::new();
            let mut i: usize = 0;
            while i < outcomes.len()
                invariant
                    i <= outcomes.len(),
                    out.len() == i,
                    forall|j: int|
                        0 <= j < i ==> ty_result(#[trigger] out@[j]) == (match ty_result(
                            outcomes@[j],
                        ) {
                            Ok(_) => Err::<TyV, TypeErrorV>(e@),
                            Err(x) => Err(x),
                        }),
                decreases outcomes.len() - i,
            {
                let item: Result<Ty, TypeError> = match &outcomes[i] {
                    Ok(_) => Err(e.dup()),
                    Err(x) => Err(x.dup()),
                };
                out.push(item);
                i = i + 1;
            }
            assert(outcome_views(out@) =~= failed_together(
                outcome_views(outcomes@),
                unit_result(r),
            ));
            out
        },
    }
}

impl<'r> Infer<'r> {
    /// The parameter types, the result type and the generics that the inference
    /// of a function starts from.
    pub(crate) fn fresh_fn_shape(&mut self, f: &FnDecl) -> (r: (Vec<Ty>, Ty, Mapping))
        ensures
            fn_shape(old(self)@, *f) == (final(self)@, views(r.0@), r.1@, r.2@),
    {
        let span: Option<Span> = match &f.body {
            Some(b) => span_of_body(b),
            None => None,
        };
        let generics: Mapping = match span {
            Some(span) => self.fresh_generics_mapping(f.generics.as_slice(), span),
            None => Table::new(),
        };
        let params: Vec<Ty> = self.param_types_from_ast(&f.params, &generics);
        let ret: Ty = self.fresh();
        (params, ret, generics)
    }

    /// Infers the type of the result of a function.
    pub fn infer_fn(&mut self, f: &FnDecl) -> (r: Result<Ty, TypeError>)
        requires
            f.body is Some,
        ensures
            fn_type(old(self)@, *f) == (final(self)@, ty_result(r)),
    {
        let (params, ret, generics) = self.fresh_fn_shape(f);
        self.infer_fn_with(f, params, ret, &generics)
    }

    /// Infers the type of the result of a function with those parameter types.
    pub fn infer_fn_with_concrete_params(&mut self, f: &FnDecl, param_types: Vec<Ty>) -> (r:
        Result<Ty, TypeError>)
        requires
            f.body is Some,
        ensures
            ({
                let (st, _, ret, m) = fn_shape(old(self)@, *f);
                fn_type_with(st, *f, views(param_types@), ret, m)
            }) == (final(self)@, ty_result(r)),
    {
        let (_, ret, generics) = self.fresh_fn_shape(f);
        self.infer_fn_with(f, param_types, ret, &generics)
    }

    fn infer_fn_with(
        &mut self,
        f: &FnDecl,
        params: Vec<Ty>,
        ret: Ty,
        generics: &Mapping,
    ) -> (r: Result<Ty, TypeError>)
        requires
            f.body is Some,
        ensures
            fn_type_with(old(self)@, *f, views(params@), ret@, generics@) == (
                final(self)@,
                ty_result(r),
            ),
    {
        let mut outer: Env = Table::new();
        outer.insert(
            f.name.clone(),
            Scheme::mono(Ty::Fn(dup_tys(&params), Box::new(ret.dup()))),
        );
        let t: Ty = self.infer_fn_raw(f, &outer, &params, &ret, generics)?;
        self.finish_fn(f, params, t)
    }

    /// Infers the type of the body of a function.
    pub(crate) fn infer_fn_raw(
        &mut self,
        f: &FnDecl,
        outer: &Env,
        params: &Vec<Ty>,
        ret: &Ty,
        generics: &Mapping,
    ) -> (r: Result<Ty, TypeError>)
        requires
            f.body is Some,
        ensures
            fn_body(
                old(self)@,
                *f,
                f.body->0,
                outer@,
                views(params@),
                ret@,
                generics@,
            ) == (final(self)@, ty_result(r)),
    {
        match &f.body {
            None => Ok(ret.dup()),
            Some(body) => {
                self.active_generics = generics.dup();
                let mut env: Env = outer.dup();
                bind_params(&mut env, &f.params, params);
                self.seed_const_generics(f.generics.as_slice(), generics, &mut env);
                let t: Ty = self.infer_block(&env, body)?;
                if let Some(declared) = &f.ret {
                    let own: Ty = self.ty_from_ast_mapped(declared, generics);
                    self.unify_at(declared.span, &own, &t)?;
                }
                if let Some(span) = span_of_body(body) {
                    self.unify_at(span, ret, &t)?;
                }
                Ok(t)
            },
        }
    }

    fn check_all(&mut self) -> (r: Result<(), TypeError>)
        ensures
            all_checked(old(self)@) == (final(self)@, unit_result(r)),
    {
        self.apply_defaults();
        self.check_pending_constraints_and_indices()?;
        self.check_pending_type_names()?;
        self.check_pending_div_by_zero()?;
        self.check_pending_field_accesses()?;
        self.check_pending_method_calls()
    }

    fn finish_fn(&mut self, f: &FnDecl, params: Vec<Ty>, result: Ty) -> (r: Result<Ty, TypeError>)
        ensures
            fn_finished(old(self)@, *f, views(params@), result@) == (final(self)@, ty_result(r)),
    {
        self.check_all()?;
        self.param_types = self.subst.apply_all(&params);
        self.resolve_node_types();
        self.resolve_lambda_schemes();
        let t: Ty = self.subst.apply(&result);
        check_no_placeholder(f, &t, &self.param_types)?;
        Ok(t)
    }

    /// Infers the type of the result of a method of an impl without generics.
    pub fn infer_impl_fn(&mut self, algebra: &str, target: &Type, f: &FnDecl, fallback_span: Span) -> (
    r: Result<Ty, TypeError>)
        ensures
            impl_fn_type(
                old(self)@,
                Map::empty(),
                algebra@,
                Seq::empty(),
                seq![*target],
                *f,
                fallback_span,
            ) == (final(self)@, ty_result(r)),
    {
        let none: Vec<GenericParam> = Vec::new();
        assert(none@ =~= Seq::empty());
        self.infer_impl_fn_generic(algebra, none.as_slice(), target, f, fallback_span)
    }

    /// Infers the type of the result of a method of an impl with one target.
    pub fn infer_impl_fn_generic(
        &mut self,
        algebra: &str,
        impl_generics: &[GenericParam],
        target: &Type,
        f: &FnDecl,
        fallback_span: Span,
    ) -> (r: Result<Ty, TypeError>)
        ensures
            impl_fn_type(
                old(self)@,
                Map::empty(),
                algebra@,
                impl_generics@,
                seq![*target],
                *f,
                fallback_span,
            ) == (final(self)@, ty_result(r)),
    {
        let outer: Env = Table::new();
        let mut targets: Vec<&Type> = Vec::new();
        targets.push(target);
        assert(type_refs(targets@) =~= seq![*target]);
        self.infer_impl_fn_for(&outer, algebra, impl_generics, &targets, f, fallback_span)
    }

    /// Infers the type of the result of a method of an impl.
    pub fn infer_impl_fn_generic_with_env(
        &mut self,
        outer: &Env,
        algebra: &str,
        impl_generics: &[GenericParam],
        targets: &[Type],
        f: &FnDecl,
        fallback_span: Span,
    ) -> (r: Result<Ty, TypeError>)
        ensures
            impl_fn_type(
                old(self)@,
                outer@,
                algebra@,
                impl_generics@,
                targets@,
                *f,
                fallback_span,
            ) == (final(self)@, ty_result(r)),
    {
        let mut refs: Vec<&Type> = Vec::new();
        let mut i: usize = 0;
        while i < targets.len()
            invariant
                i <= targets.len(),
                refs.len() == i,
                forall|j: int| 0 <= j < i ==> *(#[trigger] refs@[j]) == targets@[j],
            decreases targets.len() - i,
        {
            refs.push(&targets[i]);
            i = i + 1;
        }
        assert(type_refs(refs@) =~= targets@);
        self.infer_impl_fn_for(outer, algebra, impl_generics, &refs, f, fallback_span)
    }

    fn targets_from_ast(&mut self, targets: &Vec<&Type>, mapping: &Mapping) -> (r: Vec<Ty>)
        ensures
            targets_from(old(self)@, type_refs(targets@), 0, mapping@, Seq::empty()) == (
                final(self)@,
                views(r@),
            ),
    {
        let mut out: Vec<Ty> = Vec::new();
        let mut i: usize = 0;
        while i < targets.len()
            invariant
                i <= targets.len(),
                targets_from(old(self)@, type_refs(targets@), 0, mapping@, Seq::empty())
                    == targets_from(
                    self@,
                    type_refs(targets@),
                    i as nat,
                    mapping@,
                    views(out@),
                ),
            decreases targets.len() - i,
        {
            let t: Ty = self.ty_from_ast_mapped(targets[i], mapping);
            out.push(t);
            i = i + 1;
        }
        out
    }

    fn algebra_generics(&mut self, generics: &Vec<GenericParam>, tys: &Vec<Ty>) -> (r: Mapping)
        ensures
            algebra_generics_from(
                old(self)@,
                generics@,
                0,
                views(tys@),
                0,
                Map::empty(),
            ) == (final(self)@, r@),
    {
        let mut out: Mapping = Table::new();
        let mut i: usize = 0;
        let mut k: usize = 0;
        while i < generics.len()
            invariant
                i <= generics.len(),
                k <= tys.len(),
                algebra_generics_from(
                    old(self)@,
                    generics@,
                    0,
                    views(tys@),
                    0,
                    Map::empty(),
                ) == algebra_generics_from(
                    self@,
                    generics@,
                    i as nat,
                    views(tys@),
                    k as nat,
                    out@,
                ),
            decreases generics.len() - i,
        {
            match &generics[i] {
                GenericParam::Type { name, .. } => {
                    if k < tys.len() {
                        out.insert(name.clone(), tys[k].dup());
                        k = k + 1;
                    }
                },
                GenericParam::Const { name, .. } => {
                    let t: Ty = self.fresh();
                    out.insert(name.clone(), t);
                },
            }
            i = i + 1;
        }
        out
    }

    fn impl_params(
        &mut self,
        params: &Vec<Param>,
        sig: &Vec<Param>,
        mapping: &Mapping,
        impl_mapping: &Mapping,
        env: &mut Env,
    ) -> (r: Result<Vec<Ty>, TypeError>)
        ensures
            impl_params_from(
                old(self)@,
                params@,
                sig@,
                0,
                mapping@,
                impl_mapping@,
                old(env)@,
                Seq::empty(),
            ) == (final(self)@, final(env)@, crate::infer_expr::tys_result(r)),
    {
        let mut out: Vec<Ty> = Vec::new();
        let mut i: usize = 0;
        while i < params.len() && i < sig.len()
            invariant
                i <= params.len(),
                impl_params_from(
                    old(self)@,
                    params@,
                    sig@,
                    0,
                    mapping@,
                    impl_mapping@,
                    old(env)@,
                    Seq::empty(),
                ) == impl_params_from(
                    self@,
                    params@,
                    sig@,
                    i as nat,
                    mapping@,
                    impl_mapping@,
                    env@,
                    views(out@),
                ),
            decreases params.len() - i,
        {
            let expected: Ty = match &sig[i].ty {
                Some(t) => self.ty_from_ast_mapped(t, mapping),
                None => self.fresh(),
            };
            let ty: Ty = match &params[i].ty {
                Some(t) => {
                    let annotated: Ty = self.ty_from_ast_mapped(t, impl_mapping);
                    self.unify_at(t.span, &expected, &annotated)?;
                    annotated
                },
                None => expected,
            };
            env.insert(params[i].name.clone(), Scheme::mono(ty.dup()));
            out.push(ty);
            i = i + 1;
        }
        Ok(out)
    }

    fn infer_impl_body(&mut self, f: &FnDecl, env: &Env, expected: &Ty, fallback: Span) -> (r:
        Result<Ty, TypeError>)
        ensures
            impl_body(old(self)@, *f, env@, expected@, fallback) == (final(self)@, ty_result(r)),
    {
        match &f.body {
            Some(body) => {
                let t: Ty = self.infer_block(env, body)?;
                self.unify_at(span_of_tail(body, fallback), expected, &t)?;
                Ok(t)
            },
            None => {
                if !f.is_extern {
                    return Err(
                        TypeError {
                            span: fallback,
                            kind: TypeErrorKind::MissingIntrinsicAttribute {
                                name: f.name.clone(),
                            },
                        },
                    );
                }
                Ok(expected.dup())
            },
        }
    }

    fn infer_impl_fn_for(
        &mut self,
        outer: &Env,
        algebra: &str,
        impl_generics: &[GenericParam],
        targets: &Vec<&Type>,
        f: &FnDecl,
        fallback_span: Span,
    ) -> (r: Result<Ty, TypeError>)
        ensures
            impl_fn_type(
                old(self)@,
                outer@,
                algebra@,
                impl_generics@,
                type_refs(targets@),
                *f,
                fallback_span,
            ) == (final(self)@, ty_result(r)),
    {
        let registry = self.registry;
        match registry.algebra(algebra) {
            None => Err(
                TypeError {
                    span: fallback_span,
                    kind: TypeErrorKind::NotDeclaredByAlgebra {
                        algebra: algebra.to_owned(),
                        name: f.name.clone(),
                    },
                },
            ),
            Some(entry) => match crate::registry::find_fn(&entry.fns, f.name.as_str()) {
                None => Err(
                    TypeError {
                        span: fallback_span,
                        kind: TypeErrorKind::NotDeclaredByAlgebra {
                            algebra: algebra.to_owned(),
                            name: f.name.clone(),
                        },
                    },
                ),
                Some(sig) => {
                    if sig.params.len() != f.params.len() {
                        return Err(
                            TypeError {
                                span: fallback_span,
                                kind: TypeErrorKind::ArityMismatch {
                                    name: f.name.clone(),
                                    expected: sig.params.len(),
                                    found: f.params.len(),
                                },
                            },
                        );
                    }
                    self.infer_declared_impl_fn(
                        outer,
                        &entry.generics,
                        sig,
                        impl_generics,
                        targets,
                        f,
                        fallback_span,
                    )
                },
            },
        }
    }

    fn infer_declared_impl_fn(
        &mut self,
        outer: &Env,
        generics: &Vec<GenericParam>,
        sig: &FnSig,
        impl_generics: &[GenericParam],
        targets: &Vec<&Type>,
        f: &FnDecl,
        fallback_span: Span,
    ) -> (r: Result<Ty, TypeError>)
        ensures
            impl_fn_checked(
                old(self)@,
                outer@,
                generics@,
                *sig,
                impl_generics@,
                type_refs(targets@),
                *f,
                fallback_span,
            ) == (final(self)@, ty_result(r)),
    {
        let impl_mapping: Mapping = self.fresh_generics_mapping(impl_generics, fallback_span);
        self.active_generics = impl_mapping.dup();
        let target_tys: Vec<Ty> = self.targets_from_ast(targets, &impl_mapping);
        self.target_types = dup_tys(&target_tys);
        let mapping: Mapping = self.algebra_generics(generics, &target_tys);
        let mut env: Env = outer.dup();
        let params: Vec<Ty> = self.impl_params(
            &f.params,
            &sig.params,
            &mapping,
            &impl_mapping,
            &mut env,
        )?;
        self.seed_const_generics(impl_generics, &impl_mapping, &mut env);
        let expected: Ty = self.result_from_ast(&sig.ret, &mapping);
        if let Some(ret) = &f.ret {
            let own: Ty = self.ty_from_ast_mapped(ret, &impl_mapping);
            self.unify_at(ret.span, &expected, &own)?;
        }
        let t: Ty = self.infer_impl_body(f, &env, &expected, fallback_span)?;
        self.quantify_impl_generics(&impl_mapping);
        let u: Ty = self.finish_fn(f, params, t)?;
        self.target_types = self.subst.apply_all(&self.target_types);
        Ok(u)
    }

    fn infer_inherent_impl_fn_raw(
        &mut self,
        outer: &Env,
        impl_generics: &[GenericParam],
        impl_mapping: &Mapping,
        target_ty: &Ty,
        params: &Vec<Ty>,
        ret: &Ty,
        f: &FnDecl,
        fallback_span: Span,
    ) -> (r: Result<Ty, TypeError>)
        ensures
            inherent_body(
                old(self)@,
                outer@,
                impl_generics@,
                impl_mapping@,
                target_ty@,
                views(params@),
                ret@,
                *f,
                fallback_span,
            ) == (final(self)@, ty_result(r)),
    {
        match &f.body {
            None => Err(
                TypeError {
                    span: fallback_span,
                    kind: TypeErrorKind::MissingFnBody { name: f.name.clone() },
                },
            ),
            Some(body) => {
                if f.params.len() > 0 && params.len() > 0 {
                    if let Some(t) = &f.params[0].ty {
                        self.unify_at(t.span, target_ty, &params[0])?;
                    }
                }
                let mut env: Env = outer.dup();
                bind_params(&mut env, &f.params, params);
                self.seed_const_generics(impl_generics, impl_mapping, &mut env);
                let t: Ty = self.infer_block(&env, body)?;
                if let Some(declared) = &f.ret {
                    let own: Ty = self.ty_from_ast_mapped(declared, impl_mapping);
                    self.unify_at(declared.span, &own, &t)?;
                }
                self.unify_at(span_of_tail(body, fallback_span), ret, &t)?;
                Ok(t)
            },
        }
    }

    fn enter_method(&mut self, target: &Type, name: &String, shape: MethodShape)
        ensures
            final(self)@ == method_entered(old(self)@, *target, name@, shape@),
    {
        if let TypeKind::Path(p, _) = &target.kind {
            self.in_progress_methods.insert((path_text(p), name.clone()), shape);
        }
    }

    fn leave_method(&mut self, target: &Type, name: &String)
        ensures
            final(self)@ == method_left(old(self)@, *target, name@),
    {
        if let TypeKind::Path(p, _) = &target.kind {
            self.in_progress_methods.remove(&(path_text(p), name.clone()));
        }
    }

    /// Infers the type of the result of a method of a struct.
    pub fn infer_inherent_impl_fn_generic(
        &mut self,
        outer: &Env,
        impl_generics: &[GenericParam],
        target: &Type,
        f: &FnDecl,
        fallback_span: Span,
    ) -> (r: Result<Ty, TypeError>)
        ensures
            inherent_fn_type(
                old(self)@,
                outer@,
                impl_generics@,
                *target,
                *f,
                fallback_span,
            ) == (final(self)@, ty_result(r)),
    {
        let impl_mapping: Mapping = self.fresh_generics_mapping(impl_generics, fallback_span);
        self.active_generics = impl_mapping.dup();
        let target_ty: Ty = self.ty_from_ast_mapped(target, &impl_mapping);
        let params: Vec<Ty> = self.inherent_method_param_tys(
            &f.params,
            &impl_mapping,
            &target_ty,
        );
        let ret: Ty = self.fresh();
        self.enter_method(
            target,
            &f.name,
            MethodShape { params: dup_tys(&params), ret: ret.dup() },
        );
        let r = self.infer_inherent_impl_fn_raw(
            outer,
            impl_generics,
            &impl_mapping,
            &target_ty,
            &params,
            &ret,
            f,
            fallback_span,
        );
        self.leave_method(target, &f.name);
        let t: Ty = r?;
        self.quantify_impl_generics(&impl_mapping);
        self.finish_fn(f, params, t)
    }

    fn method_shapes(
        &mut self,
        fns: &[FnDecl],
        impl_mapping: &Mapping,
        target: &Type,
        target_ty: &Ty,
    ) -> (r: Vec<MethodShape>)
        ensures
            shapes_from(
                old(self)@,
                fns@,
                0,
                impl_mapping@,
                *target,
                target_ty@,
                Seq::empty(),
            ) == (final(self)@, views(r@)),
            r.len() == fns.len(),
    {
        let mut out: Vec<MethodShape> = Vec::new();
        let mut i: usize = 0;
        while i < fns.len()
            invariant
                i <= fns.len(),
                out.len() == i,
                shapes_from(
                    old(self)@,
                    fns@,
                    0,
                    impl_mapping@,
                    *target,
                    target_ty@,
                    Seq::empty(),
                ) == shapes_from(
                    self@,
                    fns@,
                    i as nat,
                    impl_mapping@,
                    *target,
                    target_ty@,
                    views(out@),
                ),
            decreases fns.len() - i,
        {
            let f = &fns[i];
            let params: Vec<Ty> = self.inherent_method_param_tys(
                &f.params,
                impl_mapping,
                target_ty,
            );
            let ret: Ty = self.fresh();
            let shape = MethodShape { params, ret };
            self.enter_method(target, &f.name, shape.dup());
            out.push(shape);
            i = i + 1;
        }
        out
    }

    fn outcome_of_body(&mut self, r: Result<Ty, TypeError>) -> (out: Result<Ty, TypeError>)
        ensures
            body_outcome(old(self)@, ty_result(r)) == (final(self)@, ty_result(out)),
    {
        let t: Ty = r?;
        self.check_pending_type_names()?;
        self.check_pending_div_by_zero()?;
        Ok(t)
    }

    fn method_bodies(
        &mut self,
        outer: &Env,
        impl_generics: &[GenericParam],
        impl_mapping: &Mapping,
        target_ty: &Ty,
        fns: &[FnDecl],
        shapes: &Vec<MethodShape>,
        fallback_span: Span,
    ) -> (r: Vec<Result<Ty, TypeError>>)
        requires
            shapes.len() == fns.len(),
        ensures
            bodies_from(
                old(self)@,
                outer@,
                impl_generics@,
                impl_mapping@,
                target_ty@,
                fns@,
                0,
                views(shapes@),
                fallback_span,
                Seq::empty(),
            ) == (final(self)@, outcome_views(r@)),
            r.len() == fns.len(),
    {
        let mut out: Vec<Result<Ty, TypeError>> = Vec::new();
        let mut i: usize = 0;
        assert(outcome_views(out@) =~= Seq::empty());
        while i < fns.len()
            invariant
                i <= fns.len(),
                out.len() == i,
                shapes.len() == fns.len(),
                bodies_from(
                    old(self)@,
                    outer@,
                    impl_generics@,
                    impl_mapping@,
                    target_ty@,
                    fns@,
                    0,
                    views(shapes@),
                    fallback_span,
                    Seq::empty(),
                ) == bodies_from(
                    self@,
                    outer@,
                    impl_generics@,
                    impl_mapping@,
                    target_ty@,
                    fns@,
                    i as nat,
                    views(shapes@),
                    fallback_span,
                    outcome_views(out@),
                ),
            decreases fns.len() - i,
        {
            assert(views(shapes@)[i as int] == shapes@[i as int]@);
            let r = self.infer_inherent_impl_fn_raw(
                outer,
                impl_generics,
                impl_mapping,
                target_ty,
                &shapes[i].params,
                &shapes[i].ret,
                &fns[i],
                fallback_span,
            );
            let outcome = self.outcome_of_body(r);
            let ghost before = outcome_views(out@);
            out.push(outcome);
            assert(outcome_views(out@) =~= before.push(ty_result(outcome)));
            i = i + 1;
        }
        out
    }

    fn check_accesses(&mut self) -> (r: Result<(), TypeError>)
        ensures
            accesses_checked(old(self)@) == (final(self)@, unit_result(r)),
    {
        self.check_pending_field_accesses()?;
        self.check_pending_method_calls()
    }

    fn final_outcome(&self, f: &FnDecl, shape: &MethodShape, r: &Result<Ty, TypeError>) -> (out:
        MethodOutcome)
        ensures
            out@ == method_outcome(self@, *f, shape@, ty_result(*r)),
    {
        match r {
            Err(e) => MethodOutcome { outcome: Err(e.dup()) },
            Ok(t) => {
                let params: Vec<Ty> = self.subst.apply_all(&shape.params);
                let ret: Ty = self.subst.apply(t);
                match check_no_placeholder(f, &ret, &params) {
                    Err(e) => MethodOutcome { outcome: Err(e) },
                    Ok(_) => MethodOutcome { outcome: Ok(MethodShape { params, ret }) },
                }
            },
        }
    }

    /// Infers the methods of an impl of a struct together.
    pub fn infer_inherent_impl_block(
        &mut self,
        outer: &Env,
        impl_generics: &[GenericParam],
        target: &Type,
        fns: &[FnDecl],
        fallback_span: Span,
    ) -> (r: (Mapping, Table<String, MethodOutcome>))
        ensures
            inherent_block_types(
                old(self)@,
                outer@,
                impl_generics@,
                *target,
                fns@,
                fallback_span,
            ) == (final(self)@, r.0@, r.1@),
    {
        let impl_mapping: Mapping = self.fresh_generics_mapping(impl_generics, fallback_span);
        self.active_generics = impl_mapping.dup();
        let target_ty: Ty = self.ty_from_ast_mapped(target, &impl_mapping);
        let shapes: Vec<MethodShape> = self.method_shapes(
            fns,
            &impl_mapping,
            target,
            &target_ty,
        );
        let raw: Vec<Result<Ty, TypeError>> = self.method_bodies(
            outer,
            impl_generics,
            &impl_mapping,
            &target_ty,
            fns,
            &shapes,
            fallback_span,
        );
        self.leave_methods(target, fns);
        self.quantify_impl_generics(&impl_mapping);
        self.apply_defaults();
        let checked = self.check_pending_constraints_and_indices();
        let raw = fail_together(raw, checked);
        let accessed = self.check_accesses();
        let raw = fail_together(raw, accessed);
        self.resolve_node_types();
        self.resolve_lambda_schemes();
        let results = self.name_outcomes(fns, &shapes, &raw);
        (impl_mapping, results)
    }

    fn leave_methods(&mut self, target: &Type, fns: &[FnDecl])
        ensures
            final(self)@ == methods_left(old(self)@, *target, fns@, 0),
    {
        let mut i: usize = 0;
        while i < fns.len()
            invariant
                i <= fns.len(),
                methods_left(old(self)@, *target, fns@, 0) == methods_left(
                    self@,
                    *target,
                    fns@,
                    i as nat,
                ),
            decreases fns.len() - i,
        {
            self.leave_method(target, &fns[i].name);
            i = i + 1;
        }
    }

    fn name_outcomes(
        &self,
        fns: &[FnDecl],
        shapes: &Vec<MethodShape>,
        raw: &Vec<Result<Ty, TypeError>>,
    ) -> (r: Table<String, MethodOutcome>)
        requires
            shapes.len() == fns.len(),
            raw.len() == fns.len(),
        ensures
            r@ == outcomes_named(
                self@,
                fns@,
                fns@.len(),
                views(shapes@),
                outcome_views(raw@),
            ),
    {
        let mut out: Table<String, MethodOutcome> = Table::new();
        let mut i: usize = 0;
        while i < fns.len()
            invariant
                i <= fns.len(),
                shapes.len() == fns.len(),
                raw.len() == fns.len(),
                out@ == outcomes_named(
                    self@,
                    fns@,
                    i as nat,
                    views(shapes@),
                    outcome_views(raw@),
                ),
            decreases fns.len() - i,
        {
            assert(views(shapes@)[i as int] == shapes@[i as int]@);
            assert(outcome_views(raw@)[i as int] == ty_result(raw@[i as int]));
            let outcome = self.final_outcome(&fns[i], &shapes[i], &raw[i]);
            out.insert(fns[i].name.clone(), outcome);
            i = i + 1;
        }
        out
    }
}

/// The type expressions that a list refers to.
pub open spec fn type_refs(refs: Seq<&Type>) -> Seq<Type> {
    Seq::new(refs.len(), |i: int| *refs[i])
}

} // verus!
