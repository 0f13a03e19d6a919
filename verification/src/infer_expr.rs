//! The types of expressions, statements and blocks.

use vstd::prelude::*;
use vstd::slice::slice_subrange;

use crate::ast::{
    Block, ElseBranch, Expr, ExprKind, Field, GenericArg, GenericParam, Param, Span, Stmt,
    StmtKind,
};
use crate::const_eval::ConstValue;
use crate::errors::{error_at, TypeError, TypeErrorKind, TypeErrorKindV, TypeErrorV};
use crate::infer_calls::{
    algebra_call_type, args_unified, field_type, generics_pinned, index_type, method_call_type,
    no_field, not_an_array, not_inferred, not_inferred_ty, struct_name_of, unit_ty, unit_type,
};
use crate::infer_impls::unified_at;
use crate::infer_schemes::{generalized, instantiated};
use crate::infer_state::{
    demand, demanding, minted, mono, next_var, ty_result, unit_result, Constraint, Env, EnvV,
    Infer, InferV, Mapping, MappingV, MethodShape, MethodShapeV, NumberDefault, PendingCallV,
    PendingFieldAccess, PendingFieldV, PendingIndex, PendingIndexV, PendingMethodCall, Scheme,
    SchemeV,
};
use crate::infer_types::{
    asked_pack_len, fresh_for, generic_arg_type, generics_opened, lemma_fresh_for_names, path_name,
    path_text, stray_pack, stray_pack_ty, type_of, type_with_pack,
};
use crate::registry::{declaring_from, field_from, find_field, StructEntry};
use crate::subst::applied;
use crate::table::{group_views, holds_name, views, Dup, Table};
use crate::text::{glued, glued3, holds_char, same};
use crate::ty::{group_ty, lemma_ty_view, Ty, TyV};
use crate::types::{dup_tys, is_placeholder, is_var, placeholder};

verus! {

broadcast use {group_views, group_ty};

pub open spec fn bool_ty() -> TyV {
    TyV::Con("bool"@)
}

fn bool_type() -> (r: Ty)
    ensures
        r@ == bool_ty(),
{
    Ty::Con("bool".to_owned())
}

// ---- literals and names ----

/// Whether a number is written as a fraction or with an exponent.
pub open spec fn looks_float(text: Seq<char>) -> bool {
    text.contains('.') || text.contains('e') || text.contains('E')
}

/// The type of a number without a suffix: a variable with a default and demands.
pub open spec fn number_type(st: InferV, d: NumberDefault, shape: Seq<char>, span: Span) -> (
    InferV,
    TyV,
) {
    let v = next_var(st);
    let st1 = minted(st);
    let st2 = InferV { defaults: st1.defaults.push((st.next_var, d)), ..st1 };
    let st3 = demanding(st2, demand("Num"@, v, span));
    (demanding(st3, demand(shape, v, span)), v)
}

/// The type of a name in scope.
pub open spec fn name_type(st: InferV, env: EnvV, name: Seq<char>, span: Span) -> (
    InferV,
    Result<TyV, TypeErrorV>,
) {
    if env.contains_key(name) {
        let (st1, t, _) = instantiated(st, env[name]);
        (st1, Ok(t))
    } else {
        (st, Err(error_at(span, TypeErrorKindV::UnknownName(name))))
    }
}

/// The places of a list of expressions.
pub open spec fn spans_of(es: Seq<Expr>) -> Seq<Span> {
    Seq::new(es.len(), |i: int| es[i].span)
}

/// Whether a call names an operation of the target directly.
pub open spec fn raw_call(segments: Seq<String>) -> bool {
    segments.len() > 0 && segments[0]@ == "mlir"@
}

/// Whether an expression is a value as it stands.
pub open spec fn syntactic_value(e: Expr) -> bool {
    e.kind is BoolLit || e.kind is Path || e.kind is Lambda
}

// ---- expressions ----

/// The type of an expression, which is noted for its node.
pub open spec fn expr_type(st: InferV, env: EnvV, e: Expr) -> (InferV, Result<TyV, TypeErrorV>)
    decreases e, 3nat,
{
    let (st1, r) = kind_type(st, env, e);
    match r {
        Err(x) => (st1, Err(x)),
        Ok(t) => (InferV { node_types: st1.node_types.insert(e.id.0, t), ..st1 }, Ok(t)),
    }
}

/// The type of an expression.
pub open spec fn kind_type(st: InferV, env: EnvV, e: Expr) -> (InferV, Result<TyV, TypeErrorV>)
    decreases e, 2nat,
{
    match e.kind {
        ExprKind::NumberLit { text, suffix } => match suffix {
            Some(s) => (st, Ok(TyV::Con(s@))),
            None => {
                let (st1, t) = if looks_float(text@) {
                    number_type(st, NumberDefault::Float, "Float"@, e.span)
                } else {
                    number_type(st, NumberDefault::Int, "Int"@, e.span)
                };
                (st1, Ok(t))
            },
        },
        ExprKind::ImaginaryLit { .. } => {
            let (st1, t) = number_type(st, NumberDefault::Complex, "Complex"@, e.span);
            (st1, Ok(t))
        },
        ExprKind::BoolLit(_) => (st, Ok(bool_ty())),
        ExprKind::Path(p) => name_type(st, env, path_name(p), e.span),
        ExprKind::Call(path, _, args, _) => if raw_call(path.segments@) {
            let (st1, r) = exprs_types(st, env, args, 0, Seq::empty());
            match r {
                Err(x) => (st1, Err(x)),
                Ok(_) => (minted(st1), Ok(next_var(st1))),
            }
        } else {
            call_type(st, env, e)
        },
        ExprKind::Block(b) => block_type(st, env, b),
        ExprKind::If { .. } => if_type(st, env, e),
        ExprKind::While { .. } => while_type(st, env, e),
        ExprKind::For { .. } => for_type(st, env, e),
        ExprKind::ForIn { .. } => for_in_type(st, env, e),
        ExprKind::Loop { body } => {
            let acc = next_var(st);
            let (st1, r) = loop_body(minted(st), env, body, acc);
            match r {
                Err(x) => (st1, Err(x)),
                Ok(_) => (st1, Ok(applied(st1.subst, acc))),
            }
        },
        ExprKind::MethodCall(..) => method_type(st, env, e),
        ExprKind::ArrayLit(elems) => {
            let elem = next_var(st);
            let (st1, r) = elements_unified(minted(st), env, elems, 0, elem);
            match r {
                Err(x) => (st1, Err(x)),
                Ok(_) => (
                    st1,
                    Ok(
                        TyV::Array(
                            Box::new(elem),
                            Box::new(TyV::Const(ConstValue::Int(elems@.len() as u64))),
                        ),
                    ),
                ),
            }
        },
        ExprKind::ArrayRepeat { .. } => repeat_type(st, env, e),
        ExprKind::Index(..) => index_expr_type(st, env, e),
        ExprKind::FieldAccess(base, name) => {
            let (st1, r) = expr_type(st, env, *base);
            match r {
                Err(x) => (st1, Err(x)),
                Ok(t) => field_access_type(st1, t, name@, e.span),
            }
        },
        ExprKind::StructLit(..) => struct_type(st, env, e),
        ExprKind::Lambda { .. } => lambda_type(st, env, e),
        ExprKind::PackRef(name) => (st, Ok(stray_pack(name@))),
    }
}

/// The types of the expressions from the `i`th on, after those of `acc`.
pub open spec fn exprs_types(st: InferV, env: EnvV, es: Vec<Expr>, i: nat, acc: Seq<TyV>) -> (
    InferV,
    Result<Seq<TyV>, TypeErrorV>,
)
    decreases es, es@.len() - i,
{
    if i >= es@.len() {
        (st, Ok(acc))
    } else {
        let (st1, r) = expr_type(st, env, es@[i as int]);
        match r {
            Err(x) => (st1, Err(x)),
            Ok(t) => exprs_types(st1, env, es, i + 1, acc.push(t)),
        }
    }
}

/// Unifies the types of the elements from the `i`th on.
pub open spec fn elements_unified(st: InferV, env: EnvV, es: Vec<Expr>, i: nat, elem: TyV) -> (
    InferV,
    Result<(), TypeErrorV>,
)
    decreases es, es@.len() - i,
{
    if i >= es@.len() {
        (st, Ok(()))
    } else {
        let (st1, r) = expr_type(st, env, es@[i as int]);
        match r {
            Err(x) => (st1, Err(x)),
            Ok(t) => {
                let (st2, r2) = unified_at(st1, es@[i as int].span, elem, t);
                match r2 {
                    Err(x) => (st2, Err(x)),
                    Ok(_) => elements_unified(st2, env, es, i + 1, elem),
                }
            },
        }
    }
}

/// The types of the indices from the `i`th on, after those of `acc`; each must
/// be an integer.
pub open spec fn indices_types(st: InferV, env: EnvV, es: Vec<Expr>, i: nat, acc: Seq<TyV>) -> (
    InferV,
    Result<Seq<TyV>, TypeErrorV>,
)
    decreases es, es@.len() - i,
{
    if i >= es@.len() {
        (st, Ok(acc))
    } else {
        let (st1, r) = expr_type(st, env, es@[i as int]);
        match r {
            Err(x) => (st1, Err(x)),
            Ok(t) => indices_types(
                demanding(st1, demand("Int"@, t, es@[i as int].span)),
                env,
                es,
                i + 1,
                acc.push(t),
            ),
        }
    }
}

/// The type of a conditional.
pub open spec fn if_type(st: InferV, env: EnvV, e: Expr) -> (InferV, Result<TyV, TypeErrorV>)
    decreases e, 0nat,
{
    match e.kind {
        ExprKind::If { cond, then_branch, else_branch } => {
            let (st1, r1) = condition_checked(st, env, *cond);
            match r1 {
                Err(x) => (st1, Err(x)),
                Ok(_) => {
                    let (st2, r2) = block_type(st1, env, then_branch);
                    match r2 {
                        Err(x) => (st2, Err(x)),
                        Ok(t) => match else_branch {
                            Some(b) => {
                                let (st3, r3) = match *b {
                                    ElseBranch::If(e2) => expr_type(st2, env, e2),
                                    ElseBranch::Block(b2) => block_type(st2, env, b2),
                                };
                                match r3 {
                                    Err(x) => (st3, Err(x)),
                                    Ok(u) => {
                                        let (st4, r4) = unified_at(st3, e.span, t, u);
                                        match r4 {
                                            Err(x) => (st4, Err(x)),
                                            Ok(_) => (st4, Ok(t)),
                                        }
                                    },
                                }
                            },
                            None => {
                                let (st3, r3) = unified_at(st2, e.span, unit_ty(), t);
                                match r3 {
                                    Err(x) => (st3, Err(x)),
                                    Ok(_) => (st3, Ok(unit_ty())),
                                }
                            },
                        },
                    }
                },
            }
        },
        _ => arbitrary(),
    }
}

/// Checks that a condition is a truth value.
pub open spec fn condition_checked(st: InferV, env: EnvV, cond: Expr) -> (InferV, Result<
    (),
    TypeErrorV,
>)
    decreases cond, 4nat,
{
    let (st1, r1) = expr_type(st, env, cond);
    match r1 {
        Err(x) => (st1, Err(x)),
        Ok(t) => unified_at(st1, cond.span, bool_ty(), t),
    }
}

/// The type of the body of a loop, a `break` of which gives `acc`.
pub open spec fn loop_body(st: InferV, env: EnvV, body: Block, acc: TyV) -> (InferV, Result<
    TyV,
    TypeErrorV,
>)
    decreases body, 1nat,
{
    let (st1, r) = block_type(InferV { loops: st.loops.push(acc), ..st }, env, body);
    let loops = if st1.loops.len() > 0 {
        st1.loops.drop_last()
    } else {
        st1.loops
    };
    (InferV { loops, ..st1 }, r)
}

/// A loop without a value.
pub open spec fn plain_loop(st: InferV, env: EnvV, body: Block) -> (InferV, Result<
    TyV,
    TypeErrorV,
>)
    decreases body, 2nat,
{
    let (st1, r) = loop_body(st, env, body, unit_ty());
    match r {
        Err(x) => (st1, Err(x)),
        Ok(_) => (st1, Ok(unit_ty())),
    }
}

pub open spec fn while_type(st: InferV, env: EnvV, e: Expr) -> (InferV, Result<TyV, TypeErrorV>)
    decreases e, 0nat,
{
    match e.kind {
        ExprKind::While { cond, body } => {
            let (st1, r1) = condition_checked(st, env, *cond);
            match r1 {
                Err(x) => (st1, Err(x)),
                Ok(_) => plain_loop(st1, env, body),
            }
        },
        _ => arbitrary(),
    }
}

/// A loop over a range of integers.
pub open spec fn for_type(st: InferV, env: EnvV, e: Expr) -> (InferV, Result<TyV, TypeErrorV>)
    decreases e, 0nat,
{
    match e.kind {
        ExprKind::For { var, start, end, body } => {
            let (st1, r1) = expr_type(st, env, *start);
            match r1 {
                Err(x) => (st1, Err(x)),
                Ok(t) => {
                    let (st2, r2) = expr_type(st1, env, *end);
                    match r2 {
                        Err(x) => (st2, Err(x)),
                        Ok(u) => {
                            let (st3, r3) = unified_at(st2, end.span, t, u);
                            match r3 {
                                Err(x) => (st3, Err(x)),
                                Ok(_) => plain_loop(
                                    demanding(st3, demand("Int"@, t, start.span)),
                                    env.insert(var@, mono(t)),
                                    body,
                                ),
                            }
                        },
                    }
                },
            }
        },
        _ => arbitrary(),
    }
}

/// A loop over the elements of an array.
pub open spec fn for_in_type(st: InferV, env: EnvV, e: Expr) -> (InferV, Result<
    TyV,
    TypeErrorV,
>)
    decreases e, 0nat,
{
    match e.kind {
        ExprKind::ForIn { var, iter, body } => {
            let (st1, r1) = expr_type(st, env, *iter);
            match r1 {
                Err(x) => (st1, Err(x)),
                Ok(t) => {
                    let elem = next_var(st1);
                    let size = next_var(minted(st1));
                    let (st2, r2) = unified_at(
                        minted(minted(st1)),
                        iter.span,
                        TyV::Array(Box::new(elem), Box::new(size)),
                        t,
                    );
                    match r2 {
                        Err(x) => (st2, Err(x)),
                        Ok(_) => plain_loop(st2, env.insert(var@, mono(elem)), body),
                    }
                },
            }
        },
        _ => arbitrary(),
    }
}

/// The type of a field access on a value of the type that was inferred.
pub open spec fn field_access_type(st: InferV, base: TyV, name: Seq<char>, span: Span) -> (
    InferV,
    Result<TyV, TypeErrorV>,
) {
    let known = applied(st.subst, base);
    if known is Var {
        let st1 = minted(st);
        (
            InferV {
                fields: st1.fields.push(
                    PendingFieldV { base: known, field: name, result: st.next_var, span },
                ),
                ..st1
            },
            Ok(next_var(st)),
        )
    } else if placeholder(known) {
        (st, Ok(not_inferred()))
    } else {
        field_type(st, known, name, span)
    }
}

/// The type of a method call.
pub open spec fn method_type(st: InferV, env: EnvV, e: Expr) -> (InferV, Result<TyV, TypeErrorV>)
    decreases e, 0nat,
{
    match e.kind {
        ExprKind::MethodCall(base, name, args) => match asked_pack_len(
            st,
            st.active,
            *base,
            name@,
            args@,
        ) {
            Some(t) => (st, Ok(t)),
            None => {
                let (st1, r1) = expr_type(st, env, *base);
                match r1 {
                    Err(x) => (st1, Err(x)),
                    Ok(t) => {
                        let known = applied(st1.subst, t);
                        if known is Var {
                            let (st2, r2) = exprs_types(st1, env, args, 0, Seq::empty());
                            match r2 {
                                Err(x) => (st2, Err(x)),
                                Ok(tys) => {
                                    let st3 = minted(st2);
                                    (
                                        InferV {
                                            calls: st3.calls.push(
                                                PendingCallV {
                                                    base: known,
                                                    method: name@,
                                                    arg_tys: tys,
                                                    arg_spans: spans_of(args@),
                                                    base_span: base.span,
                                                    result: st2.next_var,
                                                    call_span: e.span,
                                                },
                                            ),
                                            ..st3
                                        },
                                        Ok(next_var(st2)),
                                    )
                                },
                            }
                        } else if placeholder(known) {
                            (st1, Ok(not_inferred()))
                        } else {
                            match method_in_progress(st1, known, name@) {
                                Some(shape) => {
                                    let (st2, r2) = if shape.params.len() > 0 {
                                        unified_at(st1, base.span, shape.params[0], known)
                                    } else {
                                        (st1, Ok(()))
                                    };
                                    match r2 {
                                        Err(x) => (st2, Err(x)),
                                        Ok(_) => {
                                            let (st3, r3) = progress_args(
                                                st2,
                                                env,
                                                args,
                                                0,
                                                shape.params,
                                            );
                                            match r3 {
                                                Err(x) => (st3, Err(x)),
                                                Ok(_) => (
                                                    st3,
                                                    Ok(applied(st3.subst, shape.ret)),
                                                ),
                                            }
                                        },
                                    }
                                },
                                None => {
                                    let (st2, r2) = exprs_types(
                                        st1,
                                        env,
                                        args,
                                        0,
                                        Seq::empty(),
                                    );
                                    match r2 {
                                        Err(x) => (st2, Err(x)),
                                        Ok(tys) => method_call_type(
                                            st2,
                                            known,
                                            name@,
                                            tys,
                                            spans_of(args@),
                                            base.span,
                                            e.span,
                                        ),
                                    }
                                },
                            }
                        }
                    },
                }
            },
        },
        _ => arbitrary(),
    }
}

/// The shape of a method whose body is being inferred, if the call is of one.
pub open spec fn method_in_progress(st: InferV, base: TyV, name: Seq<char>) -> Option<
    MethodShapeV,
> {
    match struct_name_of(base) {
        Some(n) => if st.in_progress.contains_key((n, name)) {
            Some(st.in_progress[(n, name)])
        } else {
            None
        },
        None => None,
    }
}

/// Unifies the types of the arguments from the `i`th on with the parameters of
/// a method whose body is being inferred.
pub open spec fn progress_args(
    st: InferV,
    env: EnvV,
    args: Vec<Expr>,
    i: nat,
    params: Seq<TyV>,
) -> (InferV, Result<(), TypeErrorV>)
    decreases args, args@.len() - i,
{
    if i >= args@.len() || i + 1 >= params.len() {
        (st, Ok(()))
    } else {
        let (st1, r1) = expr_type(st, env, args@[i as int]);
        match r1 {
            Err(x) => (st1, Err(x)),
            Ok(t) => {
                let (st2, r2) = unified_at(st1, args@[i as int].span, params[(i + 1) as int], t);
                match r2 {
                    Err(x) => (st2, Err(x)),
                    Ok(_) => progress_args(st2, env, args, i + 1, params),
                }
            },
        }
    }
}

/// The type of an array of copies of a value.
pub open spec fn repeat_type(st: InferV, env: EnvV, e: Expr) -> (InferV, Result<TyV, TypeErrorV>)
    decreases e, 0nat,
{
    match e.kind {
        ExprKind::ArrayRepeat { value, count } => {
            let (st1, r1) = expr_type(st, env, *value);
            match r1 {
                Err(x) => (st1, Err(x)),
                Ok(t) => {
                    let (st2, r2) = match count.kind {
                        ExprKind::PackRef(name) => if st1.active.contains_key(name@) {
                            (st1, Ok(st1.active[name@]))
                        } else {
                            (minted(st1), Ok(next_var(st1)))
                        },
                        _ => expr_type(st1, env, *count),
                    };
                    match r2 {
                        Err(x) => (st2, Err(x)),
                        Ok(n) => (st2, Ok(TyV::Array(Box::new(t), Box::new(n)))),
                    }
                },
            }
        },
        _ => arbitrary(),
    }
}

/// The type of an index expression.
pub open spec fn index_expr_type(st: InferV, env: EnvV, e: Expr) -> (InferV, Result<
    TyV,
    TypeErrorV,
>)
    decreases e, 0nat,
{
    match e.kind {
        ExprKind::Index(base, indices) => {
            let (st1, r1) = expr_type(st, env, *base);
            match r1 {
                Err(x) => (st1, Err(x)),
                Ok(t) => {
                    let known = applied(st1.subst, t);
                    let (st2, r2) = indices_types(st1, env, indices, 0, Seq::empty());
                    match r2 {
                        Err(x) => (st2, Err(x)),
                        Ok(tys) => indexed_type(
                            st2,
                            known,
                            tys,
                            spans_of(indices@),
                            base.span,
                            e.span,
                        ),
                    }
                },
            }
        },
        _ => arbitrary(),
    }
}

/// The type of an index into a value of the type that was inferred.
pub open spec fn indexed_type(
    st: InferV,
    known: TyV,
    tys: Seq<TyV>,
    spans: Seq<Span>,
    base_span: Span,
    span: Span,
) -> (InferV, Result<TyV, TypeErrorV>) {
    if known is Var {
        let st1 = minted(st);
        (
            InferV {
                indices: st1.indices.push(
                    PendingIndexV {
                        base: known,
                        base_span,
                        index_tys: tys,
                        index_spans: spans,
                        result: st.next_var,
                        span,
                    },
                ),
                ..st1
            },
            Ok(next_var(st)),
        )
    } else if placeholder(known) {
        (st, Ok(not_inferred()))
    } else {
        index_type(st, known, tys, spans, base_span, span)
    }
}

// ---- struct literals ----

/// What stands for the pack of a struct in a literal.
pub struct PackArgs {
    pub name: Seq<char>,
    pub tys: Seq<TyV>,
}

/// The declared type of a field.
pub open spec fn declared_field_type(
    st: InferV,
    field: Field,
    m: MappingV,
    pack: Option<PackArgs>,
) -> (InferV, TyV) {
    match pack {
        Some(p) => type_with_pack(st, field.ty, m, p.name, p.tys),
        None => type_of(st, field.ty, m),
    }
}

/// Checks the fields of a literal from the `i`th on; gives the names seen.
pub open spec fn fields_checked_from(
    st: InferV,
    env: EnvV,
    fields: Vec<(String, Expr)>,
    i: nat,
    struct_name: Seq<char>,
    declared: Seq<Field>,
    m: MappingV,
    pack: Option<PackArgs>,
    seen: Seq<Seq<char>>,
) -> (InferV, Result<Seq<Seq<char>>, TypeErrorV>)
    decreases fields, fields@.len() - i,
{
    if i >= fields@.len() {
        (st, Ok(seen))
    } else {
        let name = fields@[i as int].0@;
        let value = fields@[i as int].1;
        match field_from(declared, 0, name) {
            None => (st, Err(no_field(struct_name, name, value.span))),
            Some(k) => if seen.contains(name) {
                (
                    st,
                    Err(
                        error_at(
                            value.span,
                            TypeErrorKindV::DuplicateField { struct_name, field: name },
                        ),
                    ),
                )
            } else {
                let (st1, r1) = expr_type(st, env, value);
                match r1 {
                    Err(x) => (st1, Err(x)),
                    Ok(t) => {
                        let (st2, own) = declared_field_type(st1, declared[k], m, pack);
                        let (st3, r3) = unified_at(st2, value.span, own, t);
                        match r3 {
                            Err(x) => (st3, Err(x)),
                            Ok(_) => fields_checked_from(
                                st3,
                                env,
                                fields,
                                i + 1,
                                struct_name,
                                declared,
                                m,
                                pack,
                                seen.push(name),
                            ),
                        }
                    },
                }
            },
        }
    }
}

/// The first declared field, from the `i`th on, that was not given.
pub open spec fn missing_field(declared: Seq<Field>, i: nat, seen: Seq<Seq<char>>) -> Option<
    Seq<char>,
>
    decreases declared.len() - i,
{
    if i >= declared.len() {
        None
    } else if seen.contains(declared[i as int].name@) {
        missing_field(declared, i + 1, seen)
    } else {
        Some(declared[i as int].name@)
    }
}

/// What the first `n` generics stand for.
pub open spec fn stood_for(generics: Seq<GenericParam>, n: nat, m: MappingV) -> Seq<TyV>
    decreases n,
{
    if n == 0 || n > generics.len() {
        Seq::empty()
    } else {
        stood_for(generics, (n - 1) as nat, m).push(m[generics[n - 1].spec_name()])
    }
}

/// The types of the generic arguments from the `i`th on, after those of `acc`.
pub open spec fn generic_args_from(st: InferV, args: Seq<GenericArg>, i: nat, acc: Seq<TyV>) -> (
    InferV,
    Seq<TyV>,
)
    decreases args.len() - i,
{
    if i >= args.len() {
        (st, acc)
    } else {
        let (st1, t) = generic_arg_type(st, args[i as int]);
        generic_args_from(st1, args, i + 1, acc.push(t))
    }
}

/// The type of a struct literal once its fields were checked.
pub open spec fn struct_checked(
    st: InferV,
    env: EnvV,
    e: Expr,
    struct_name: Seq<char>,
    declared: Seq<Field>,
    m: MappingV,
    pack: Option<PackArgs>,
    result: TyV,
) -> (InferV, Result<TyV, TypeErrorV>)
    decreases e, 0nat,
{
    match e.kind {
        ExprKind::StructLit(_, _, fields) => {
            let (st1, r1) = fields_checked_from(
                st,
                env,
                fields,
                0,
                struct_name,
                declared,
                m,
                pack,
                Seq::empty(),
            );
            match r1 {
                Err(x) => (st1, Err(x)),
                Ok(seen) => match missing_field(declared, 0, seen) {
                    Some(field) => (
                        st1,
                        Err(
                            error_at(
                                e.span,
                                TypeErrorKindV::MissingField { struct_name, field },
                            ),
                        ),
                    ),
                    None => (st1, Ok(result)),
                },
            }
        },
        _ => arbitrary(),
    }
}

/// The struct type with those type arguments.
pub open spec fn struct_with(name: Seq<char>, args: Seq<TyV>) -> TyV {
    if args.len() == 0 {
        TyV::Con(name)
    } else {
        TyV::App(name, args)
    }
}

/// The type of a struct literal.
pub open spec fn struct_type(st: InferV, env: EnvV, e: Expr) -> (InferV, Result<TyV, TypeErrorV>)
    decreases e, 1nat,
{
    match e.kind {
        ExprKind::StructLit(path, explicit, _) => {
            let name = path_name(path);
            match st.registry.struct_of(name) {
                None => (st, Err(error_at(e.span, TypeErrorKindV::UnknownStruct(name)))),
                Some(s) => {
                    let g = s.generics@;
                    if g.len() > 0 && g.last().spec_variadic() {
                        let own = g.subrange(0, g.len() - 1);
                        if explicit@.len() < own.len() {
                            (
                                st,
                                Err(
                                    error_at(
                                        e.span,
                                        TypeErrorKindV::VariadicStructNeedsTurbofish {
                                            struct_name: name,
                                            min_generics: own.len() as usize,
                                        },
                                    ),
                                ),
                            )
                        } else {
                            let (st1, m) = generics_opened(st, own, e.span);
                            let (st2, r2) = generics_pinned(st1, own, explicit@, 0, m, e.span);
                            match r2 {
                                Err(x) => (st2, Err(x)),
                                Ok(_) => {
                                    let (st3, tys) = generic_args_from(
                                        st2,
                                        explicit@,
                                        own.len(),
                                        Seq::empty(),
                                    );
                                    struct_checked(
                                        st3,
                                        env,
                                        e,
                                        name,
                                        s.fields@,
                                        m,
                                        Some(PackArgs { name: g.last().spec_name(), tys }),
                                        TyV::App(name, stood_for(own, own.len(), m) + tys),
                                    )
                                },
                            }
                        }
                    } else {
                        let (st1, m) = generics_opened(st, g, e.span);
                        if explicit@.len() != 0 && explicit@.len() != g.len() {
                            (
                                st1,
                                Err(
                                    error_at(
                                        e.span,
                                        TypeErrorKindV::ArityMismatch {
                                            name: name + "::<...>"@,
                                            expected: g.len() as usize,
                                            found: explicit@.len() as usize,
                                        },
                                    ),
                                ),
                            )
                        } else {
                            let (st2, r2) = generics_pinned(st1, g, explicit@, 0, m, e.span);
                            match r2 {
                                Err(x) => (st2, Err(x)),
                                Ok(_) => struct_checked(
                                    st2,
                                    env,
                                    e,
                                    name,
                                    s.fields@,
                                    m,
                                    None,
                                    struct_with(name, stood_for(g, g.len(), m)),
                                ),
                            }
                        }
                    }
                },
            }
        },
        _ => arbitrary(),
    }
}

// ---- lambdas ----

/// The types of the parameters of a lambda from the `i`th on, and the names in
/// scope with them.
pub open spec fn lambda_params(st: InferV, params: Seq<Param>, i: nat, env: EnvV, acc: Seq<TyV>) -> (
    InferV,
    EnvV,
    Seq<TyV>,
)
    decreases params.len() - i,
{
    if i >= params.len() {
        (st, env, acc)
    } else {
        let (st1, t) = match params[i as int].ty {
            Some(t) => type_of(st, t, st.active),
            None => (minted(st), next_var(st)),
        };
        lambda_params(
            st1,
            params,
            i + 1,
            env.insert(params[i as int].name@, mono(t)),
            acc.push(t),
        )
    }
}

/// The type of a lambda. A `break` in it cannot leave a loop around it.
pub open spec fn lambda_type(st: InferV, env: EnvV, e: Expr) -> (InferV, Result<TyV, TypeErrorV>)
    decreases e, 0nat,
{
    match e.kind {
        ExprKind::Lambda { params, ret, body } => {
            let (st1, inner, tys) = lambda_params(st, params@, 0, env, Seq::empty());
            let (st2, r2) = block_type(InferV { loops: Seq::empty(), ..st1 }, inner, body);
            let st3 = InferV { loops: st1.loops, ..st2 };
            match r2 {
                Err(x) => (st3, Err(x)),
                Ok(t) => match ret {
                    None => (st3, Ok(TyV::Fn(tys, Box::new(t)))),
                    Some(declared) => {
                        let (st4, own) = type_of(st3, declared, st3.active);
                        let (st5, r5) = unified_at(st4, declared.span, own, t);
                        match r5 {
                            Err(x) => (st5, Err(x)),
                            Ok(_) => (st5, Ok(TyV::Fn(tys, Box::new(t)))),
                        }
                    },
                },
            }
        },
        _ => arbitrary(),
    }
}

// ---- calls ----

/// Unifies what the variables from the `i`th on were replaced by with the
/// generic arguments in the same places.
pub open spec fn vars_pinned(
    st: InferV,
    vars: Seq<u32>,
    args: Seq<GenericArg>,
    i: nat,
    m: Map<u32, TyV>,
    span: Span,
) -> (InferV, Result<(), TypeErrorV>)
    decreases vars.len() - i,
{
    if i >= vars.len() || i >= args.len() {
        (st, Ok(()))
    } else {
        let (st1, t) = generic_arg_type(st, args[i as int]);
        let (st2, r) = unified_at(st1, span, m[vars[i as int]], t);
        match r {
            Err(e) => (st2, Err(e)),
            Ok(_) => vars_pinned(st2, vars, args, i + 1, m, span),
        }
    }
}

/// The type of a call of a name in scope.
pub open spec fn scheme_call_type(
    st: InferV,
    scheme: SchemeV,
    name: Seq<char>,
    tys: Seq<TyV>,
    spans: Seq<Span>,
    explicit: Seq<GenericArg>,
    span: Span,
) -> (InferV, Result<TyV, TypeErrorV>) {
    let (st1, t, m) = instantiated(st, scheme);
    if explicit.len() != 0 && explicit.len() != scheme.vars.len() {
        (
            st1,
            Err(
                error_at(
                    span,
                    TypeErrorKindV::ArityMismatch {
                        name: name + "::<...>"@,
                        expected: scheme.vars.len() as usize,
                        found: explicit.len() as usize,
                    },
                ),
            ),
        )
    } else {
        let (st2, r2) = vars_pinned(st1, scheme.vars, explicit, 0, m, span);
        match r2 {
            Err(e) => (st2, Err(e)),
            Ok(_) => match t {
                TyV::Fn(params, ret) => if params.len() != tys.len() {
                    (
                        st2,
                        Err(
                            error_at(
                                span,
                                TypeErrorKindV::ArityMismatch {
                                    name,
                                    expected: params.len() as usize,
                                    found: tys.len() as usize,
                                },
                            ),
                        ),
                    )
                } else {
                    let (st3, r3) = args_unified(st2, params, 0, tys, spans, 0);
                    match r3 {
                        Err(e) => (st3, Err(e)),
                        Ok(_) => (st3, Ok(*ret)),
                    }
                },
                _ => (st2, Err(error_at(span, TypeErrorKindV::NotCallable(t)))),
            },
        }
    }
}

/// The type of a call by a bare name, once the types of its arguments are
/// there: of an algebra function, of a name in scope, or of a struct without
/// fields.
pub open spec fn named_call_type(
    st: InferV,
    env: EnvV,
    name: Seq<char>,
    tys: Seq<TyV>,
    spans: Seq<Span>,
    explicit: Seq<GenericArg>,
    span: Span,
) -> (InferV, Result<TyV, TypeErrorV>) {
    let candidates = declaring_from(st.registry, 0, name, tys.len());
    if candidates.len() > 1 {
        (
            st,
            Err(error_at(span, TypeErrorKindV::AmbiguousOperator { name, candidates })),
        )
    } else if candidates.len() == 1 {
        algebra_call_type(st, span, candidates[0], name, tys, spans, explicit)
    } else if env.contains_key(name) {
        scheme_call_type(st, env[name], name, tys, spans, explicit, span)
    } else if tys.len() == 0 && (st.registry.struct_of(name) matches Some(s) && s.fields@.len()
        == 0) {
        (st, Ok(TyV::Con(name)))
    } else {
        (st, Ok(TyV::Con("<unresolved-call:"@ + name + ">"@)))
    }
}

/// The type of a call.
pub open spec fn call_type(st: InferV, env: EnvV, e: Expr) -> (InferV, Result<TyV, TypeErrorV>)
    decreases e, 0nat,
{
    match e.kind {
        ExprKind::Call(path, explicit, args, _) => {
            let segments = views(path.segments@);
            let (st1, r1) = exprs_types(st, env, args, 0, Seq::empty());
            match r1 {
                Err(x) => (st1, Err(x)),
                Ok(tys) => if segments.len() == 2 && st.registry.declares_algebra(segments[0]) {
                    if st.registry.sig_of(segments[0], segments[1]) matches Some(sig)
                        && sig.params@.len() == args@.len() {
                        algebra_call_type(
                            st1,
                            e.span,
                            segments[0],
                            segments[1],
                            tys,
                            spans_of(args@),
                            explicit@,
                        )
                    } else {
                        (
                            st1,
                            Err(
                                error_at(
                                    e.span,
                                    TypeErrorKindV::UnknownAlgebraMethod {
                                        algebra: segments[0],
                                        method: segments[1],
                                    },
                                ),
                            ),
                        )
                    }
                } else {
                    named_call_type(
                        st1,
                        env,
                        path_name(path),
                        tys,
                        spans_of(args@),
                        explicit@,
                        e.span,
                    )
                },
            }
        },
        _ => arbitrary(),
    }
}

// ---- statements ----

/// Fresh variables, `n` of them.
pub open spec fn fresh_list(st: InferV, n: nat) -> (InferV, Seq<TyV>)
    decreases n,
{
    if n == 0 {
        (st, Seq::empty())
    } else {
        let (st1, tys) = fresh_list(st, (n - 1) as nat);
        (minted(st1), tys.push(next_var(st1)))
    }
}

/// The type of a block.
pub open spec fn block_type(st: InferV, env: EnvV, b: Block) -> (InferV, Result<TyV, TypeErrorV>)
    decreases b, 0nat,
{
    let (st1, r1) = stmts_from(st, env, b.stmts, 0);
    match r1 {
        Err(x) => (st1, Err(x)),
        Ok(inner) => match b.tail {
            Some(tail) => expr_type(st1, inner, *tail),
            None => (st1, Ok(unit_ty())),
        },
    }
}

/// The names in scope after the statements from the `i`th on.
pub open spec fn stmts_from(st: InferV, env: EnvV, stmts: Vec<Stmt>, i: nat) -> (
    InferV,
    Result<EnvV, TypeErrorV>,
)
    decreases stmts, stmts@.len() - i,
{
    if i >= stmts@.len() {
        (st, Ok(env))
    } else {
        let (st1, r1) = stmt_checked(st, env, stmts@[i as int]);
        match r1 {
            Err(x) => (st1, Err(x)),
            Ok(inner) => stmts_from(st1, inner, stmts, i + 1),
        }
    }
}

/// The names in scope after a statement.
pub open spec fn stmt_checked(st: InferV, env: EnvV, s: Stmt) -> (InferV, Result<
    EnvV,
    TypeErrorV,
>)
    decreases s, 1nat,
{
    match s.kind {
        StmtKind::Let { .. } => let_checked(st, env, s),
        StmtKind::Assign { .. } => assign_checked(st, env, s),
        StmtKind::Expr(e) => {
            let (st1, r) = expr_type(st, env, e);
            match r {
                Err(x) => (st1, Err(x)),
                Ok(_) => (st1, Ok(env)),
            }
        },
        StmtKind::Break(value) => if st.loops.len() == 0 {
            (st, Err(error_at(s.span, TypeErrorKindV::BreakOutsideLoop)))
        } else {
            let acc = st.loops.last();
            let (st2, r2) = match value {
                Some(v) => {
                    let (st1, r1) = expr_type(st, env, v);
                    match r1 {
                        Err(x) => (st1, Err(x)),
                        Ok(t) => unified_at(st1, v.span, acc, t),
                    }
                },
                None => unified_at(st, s.span, acc, unit_ty()),
            };
            match r2 {
                Err(x) => (st2, Err(x)),
                Ok(_) => (st2, Ok(env)),
            }
        },
    }
}

/// The type of the value of a `let`. A lambda may call itself by the name that
/// it is bound to.
pub open spec fn bound_value_type(st: InferV, env: EnvV, name: Seq<char>, value: Expr) -> (
    InferV,
    Result<TyV, TypeErrorV>,
)
    decreases value, 4nat,
{
    match value.kind {
        ExprKind::Lambda { params, .. } => {
            let (st1, vars) = fresh_list(st, params@.len());
            let own = TyV::Fn(vars, Box::new(next_var(st1)));
            let (st2, r2) = expr_type(minted(st1), env.insert(name, mono(own)), value);
            match r2 {
                Err(x) => (st2, Err(x)),
                Ok(t) => {
                    let (st3, r3) = unified_at(st2, value.span, own, t);
                    match r3 {
                        Err(x) => (st3, Err(x)),
                        Ok(_) => (st3, Ok(t)),
                    }
                },
            }
        },
        _ => expr_type(st, env, value),
    }
}

/// The scheme that a name is bound to.
pub open spec fn bound_scheme(st: InferV, env: EnvV, mutable: bool, value: Expr, t: TyV) -> (
    InferV,
    Result<SchemeV, TypeErrorV>,
) {
    if !mutable && syntactic_value(value) {
        generalized(st, env, t)
    } else {
        (st, Ok(mono(t)))
    }
}

/// The names in scope after a `let`.
pub open spec fn let_checked(st: InferV, env: EnvV, s: Stmt) -> (InferV, Result<
    EnvV,
    TypeErrorV,
>)
    decreases s, 0nat,
{
    match s.kind {
        StmtKind::Let { mutable, name, ty, value } => {
            let (st1, r1) = bound_value_type(st, env, name@, value);
            match r1 {
                Err(x) => (st1, Err(x)),
                Ok(t) => {
                    let (st2, r2) = match ty {
                        Some(annotated) => {
                            let (sta, own) = type_of(st1, annotated, st1.active);
                            unified_at(sta, annotated.span, own, t)
                        },
                        None => (st1, Ok(())),
                    };
                    match r2 {
                        Err(x) => (st2, Err(x)),
                        Ok(_) => {
                            let (st3, r3) = bound_scheme(st2, env, mutable, value, t);
                            match r3 {
                                Err(x) => (st3, Err(x)),
                                Ok(scheme) => {
                                    let st4 = if value.kind is Lambda {
                                        InferV {
                                            lambdas: st3.lambdas.insert(value.id.0, scheme),
                                            ..st3
                                        }
                                    } else {
                                        st3
                                    };
                                    (st4, Ok(env.insert(name@, scheme)))
                                },
                            }
                        },
                    }
                },
            }
        },
        _ => arbitrary(),
    }
}

/// The error that an element of something that is no array is assigned to.
pub open spec fn assigned_base(st: InferV, target: Expr) -> (InferV, Result<(), TypeErrorV>) {
    match target.kind {
        ExprKind::Index(base, _) => if st.node_types.contains_key(base.id.0) {
            let t = applied(st.subst, st.node_types[base.id.0]);
            if t is Array || t is Var || placeholder(t) {
                (st, Ok(()))
            } else {
                let (st1, e) = not_an_array(st, t, target.span);
                (st1, Err(e))
            }
        } else {
            (st, Ok(()))
        },
        _ => (st, Ok(())),
    }
}

/// The names in scope after an assignment.
pub open spec fn assign_checked(st: InferV, env: EnvV, s: Stmt) -> (InferV, Result<
    EnvV,
    TypeErrorV,
>)
    decreases s, 0nat,
{
    match s.kind {
        StmtKind::Assign { target, value } => {
            let (st1, r1) = expr_type(st, env, target);
            match r1 {
                Err(x) => (st1, Err(x)),
                Ok(t) => {
                    let (st2, r2) = assigned_base(st1, target);
                    match r2 {
                        Err(x) => (st2, Err(x)),
                        Ok(_) => {
                            let (st3, r3) = expr_type(st2, env, value);
                            match r3 {
                                Err(x) => (st3, Err(x)),
                                Ok(u) => {
                                    let (st4, r4) = unified_at(st3, value.span, t, u);
                                    match r4 {
                                        Err(x) => (st4, Err(x)),
                                        Ok(_) => (st4, Ok(env)),
                                    }
                                },
                            }
                        },
                    }
                },
            }
        },
        _ => arbitrary(),
    }
}

// ---- execution ----

/// The places of a list of expressions.
fn list_spans(es: &Vec<Expr>) -> (r: Vec<Span>)
    ensures
        r@ == spans_of(es@),
        r.len() == es.len(),
{
    let mut out: Vec<Span> = Vec::new();
    let mut i: usize = 0;
    while i < es.len()
        invariant
            i <= es.len(),
            out.len() == i,
            forall|j: int| 0 <= j < i ==> #[trigger] out@[j] == es@[j].span,
        decreases es.len() - i,
    {
        out.push(es[i].span);
        i = i + 1;
    }
    assert(out@ =~= spans_of(es@));
    out
}

fn is_syntactic_value(expr: &Expr) -> (r: bool)
    ensures
        r == syntactic_value(*expr),
{
    match &expr.kind {
        ExprKind::BoolLit(_) | ExprKind::Path(_) | ExprKind::Lambda { .. } => true,
        _ => false,
    }
}

/// What inference says of a list of expressions.
pub open spec fn tys_result(r: Result<Vec<Ty>, TypeError>) -> Result<Seq<TyV>, TypeErrorV> {
    match r {
        Ok(tys) => Ok(views(tys@)),
        Err(e) => Err(e@),
    }
}

fn find_missing<'a>(declared: &'a Vec<Field>, seen: &Vec<String>) -> (r: Option<&'a String>)
    ensures
        match r {
            Some(n) => missing_field(declared@, 0, views(seen@)) == Some(n@),
            None => missing_field(declared@, 0, views(seen@)) is None,
        },
{
    let mut i: usize = 0;
    while i < declared.len()
        invariant
            i <= declared.len(),
            missing_field(declared@, 0, views(seen@)) == missing_field(
                declared@,
                i as nat,
                views(seen@),
            ),
        decreases declared.len() - i,
    {
        if !holds_name(seen, &declared[i].name) {
            return Some(&declared[i].name);
        }
        i = i + 1;
    }
    None
}

fn list_stood_for(
    generics: &[GenericParam],
    mapping: &Mapping,
    Ghost(opened): Ghost<InferV>,
) -> (r: Vec<Ty>)
    requires
        mapping@ == fresh_for(opened, generics@, generics@.len()).1,
    ensures
        views(r@) == stood_for(generics@, generics@.len(), mapping@),
{
    let mut out: Vec<Ty> = Vec::new();
    let mut i: usize = 0;
    while i < generics.len()
        invariant
            i <= generics.len(),
            mapping@ == fresh_for(opened, generics@, generics@.len()).1,
            views(out@) == stood_for(generics@, i as nat, mapping@),
        decreases generics.len() - i,
    {
        proof {
            lemma_fresh_for_names(opened, generics@, generics@.len(), i as int);
        }
        if let Some(t) = mapping.get(generics[i].name()) {
            out.push(t.dup());
        }
        i = i + 1;
    }
    out
}

proof fn lemma_fresh_each_names(st: InferV, vars: Seq<u32>, n: nat, i: int)
    requires
        0 <= i < n <= vars.len(),
    ensures
        crate::infer_schemes::fresh_each(st, vars, n).1.contains_key(vars[i]),
    decreases n,
{
    if i < n - 1 {
        lemma_fresh_each_names(st, vars, (n - 1) as nat, i);
    }
}

/// The pack of a struct in a literal, if it has one.
pub open spec fn pack_args(pack: Option<(&String, &Vec<Ty>)>) -> Option<PackArgs> {
    match pack {
        Some((name, tys)) => Some(PackArgs { name: name@, tys: views(tys@) }),
        None => None,
    }
}

pub open spec fn env_result(r: Result<Env, TypeError>) -> Result<EnvV, TypeErrorV> {
    match r {
        Ok(env) => Ok(env@),
        Err(e) => Err(e@),
    }
}

impl<'r> Infer<'r> {
    /// Infers the type of an expression and notes it.
    pub(crate) fn infer_expr(&mut self, env: &Env, expr: &Expr) -> (r: Result<Ty, TypeError>)
        ensures
            expr_type(old(self)@, env@, *expr) == (final(self)@, ty_result(r)),
        decreases expr, 4nat,
    {
        let ty: Ty = self.infer_expr_kind(env, expr)?;
        self.node_types.insert(expr.id.0, ty.dup());
        Ok(ty)
    }

    fn infer_number(&mut self, d: NumberDefault, shape: &str, span: Span) -> (r: Ty)
        ensures
            number_type(old(self)@, d, shape@, span) == (final(self)@, r@),
    {
        let id: u32 = self.vars.0;
        let v: Ty = self.fresh();
        self.pending_defaults.push((id, d));
        self.demand(Constraint::all_gating("Num".to_owned(), v.dup(), span));
        self.demand(Constraint::all_gating(shape.to_owned(), v.dup(), span));
        v
    }

    /// Infers the type of an expression.
    fn infer_expr_kind(&mut self, env: &Env, expr: &Expr) -> (r: Result<Ty, TypeError>)
        ensures
            kind_type(old(self)@, env@, *expr) == (final(self)@, ty_result(r)),
        decreases expr, 3nat,
    {
        match &expr.kind {
            ExprKind::NumberLit { text, suffix } => match suffix {
                Some(s) => Ok(Ty::Con(s.clone())),
                None => {
                    let t = text.as_str();
                    if holds_char(t, '.') || holds_char(t, 'e') || holds_char(t, 'E') {
                        Ok(self.infer_number(NumberDefault::Float, "Float", expr.span))
                    } else {
                        Ok(self.infer_number(NumberDefault::Int, "Int", expr.span))
                    }
                },
            },
            ExprKind::ImaginaryLit { .. } => Ok(
                self.infer_number(NumberDefault::Complex, "Complex", expr.span),
            ),
            ExprKind::BoolLit(_) => Ok(bool_type()),
            ExprKind::Path(p) => {
                let name: String = path_text(p);
                match env.get(&name) {
                    Some(scheme) => Ok(self.instantiate(scheme)),
                    None => Err(
                        TypeError { span: expr.span, kind: TypeErrorKind::UnknownName(name) },
                    ),
                }
            },
            ExprKind::Call(path, _, args, _) => {
                if path.segments.len() > 0 && same(path.segments[0].as_str(), "mlir") {
                    self.infer_exprs(env, args)?;
                    return Ok(self.fresh());
                }
                self.infer_call(env, expr)
            },
            ExprKind::Block(b) => self.infer_block(env, b),
            ExprKind::If { .. } => self.infer_if(env, expr),
            ExprKind::While { .. } => self.infer_while(env, expr),
            ExprKind::For { .. } => self.infer_for(env, expr),
            ExprKind::ForIn { .. } => self.infer_for_in(env, expr),
            ExprKind::Loop { body } => {
                let acc: Ty = self.fresh();
                self.infer_loop_body(env, body, &acc)?;
                Ok(self.subst.apply(&acc))
            },
            ExprKind::MethodCall(..) => self.infer_method_call(env, expr),
            ExprKind::ArrayLit(elems) => {
                let elem: Ty = self.fresh();
                self.unify_elements(env, elems, &elem)?;
                Ok(
                    Ty::Array(
                        Box::new(elem),
                        Box::new(Ty::Const(ConstValue::Int(elems.len() as u64))),
                    ),
                )
            },
            ExprKind::ArrayRepeat { .. } => self.infer_repeat(env, expr),
            ExprKind::Index(..) => self.infer_index(env, expr),
            ExprKind::FieldAccess(base, name) => {
                let t: Ty = self.infer_expr(env, base)?;
                self.infer_field_access(t, name, expr.span)
            },
            ExprKind::StructLit(..) => self.infer_struct_lit(env, expr),
            ExprKind::Lambda { .. } => self.infer_lambda(env, expr),
            ExprKind::PackRef(name) => Ok(stray_pack_ty(name)),
        }
    }

    fn infer_exprs(&mut self, env: &Env, es: &Vec<Expr>) -> (r: Result<Vec<Ty>, TypeError>)
        ensures
            exprs_types(old(self)@, env@, *es, 0, Seq::empty()) == (final(self)@, tys_result(r)),
            r is Ok ==> r->Ok_0.len() == es.len(),
        decreases es, 0nat,
    {
        let mut out: Vec<Ty> = Vec::new();
        let mut i: usize = 0;
        while i < es.len()
            invariant
                i <= es.len(),
                out.len() == i,
                exprs_types(old(self)@, env@, *es, 0, Seq::empty()) == exprs_types(
                    self@,
                    env@,
                    *es,
                    i as nat,
                    views(out@),
                ),
            decreases es.len() - i,
        {
            let t: Ty = self.infer_expr(env, &es[i])?;
            out.push(t);
            i = i + 1;
        }
        Ok(out)
    }

    fn unify_elements(&mut self, env: &Env, es: &Vec<Expr>, elem: &Ty) -> (r: Result<
        (),
        TypeError,
    >)
        ensures
            elements_unified(old(self)@, env@, *es, 0, elem@) == (final(self)@, unit_result(r)),
        decreases es, 0nat,
    {
        let mut i: usize = 0;
        while i < es.len()
            invariant
                i <= es.len(),
                elements_unified(old(self)@, env@, *es, 0, elem@) == elements_unified(
                    self@,
                    env@,
                    *es,
                    i as nat,
                    elem@,
                ),
            decreases es.len() - i,
        {
            let t: Ty = self.infer_expr(env, &es[i])?;
            self.unify_at(es[i].span, elem, &t)?;
            i = i + 1;
        }
        Ok(())
    }

    fn infer_indices(&mut self, env: &Env, es: &Vec<Expr>) -> (r: Result<Vec<Ty>, TypeError>)
        ensures
            indices_types(old(self)@, env@, *es, 0, Seq::empty()) == (final(self)@, tys_result(r)),
        decreases es, 0nat,
    {
        let mut out: Vec<Ty> = Vec::new();
        let mut i: usize = 0;
        while i < es.len()
            invariant
                i <= es.len(),
                indices_types(old(self)@, env@, *es, 0, Seq::empty()) == indices_types(
                    self@,
                    env@,
                    *es,
                    i as nat,
                    views(out@),
                ),
            decreases es.len() - i,
        {
            let t: Ty = self.infer_expr(env, &es[i])?;
            self.demand(Constraint::all_gating("Int".to_owned(), t.dup(), es[i].span));
            out.push(t);
            i = i + 1;
        }
        Ok(out)
    }

    fn check_condition(&mut self, env: &Env, cond: &Expr) -> (r: Result<(), TypeError>)
        ensures
            condition_checked(old(self)@, env@, *cond) == (final(self)@, unit_result(r)),
        decreases cond, 5nat,
    {
        let t: Ty = self.infer_expr(env, cond)?;
        self.unify_at(cond.span, &bool_type(), &t)
    }

    fn infer_if(&mut self, env: &Env, expr: &Expr) -> (r: Result<Ty, TypeError>)
        requires
            expr.kind is If,
        ensures
            if_type(old(self)@, env@, *expr) == (final(self)@, ty_result(r)),
        decreases expr, 0nat,
    {
        match &expr.kind {
            ExprKind::If { cond, then_branch, else_branch } => {
                self.check_condition(env, cond)?;
                let t: Ty = self.infer_block(env, then_branch)?;
                match else_branch {
                    Some(b) => {
                        let u: Ty = match &**b {
                            ElseBranch::If(e) => self.infer_expr(env, e)?,
                            ElseBranch::Block(b2) => self.infer_block(env, b2)?,
                        };
                        self.unify_at(expr.span, &t, &u)?;
                        Ok(t)
                    },
                    None => {
                        self.unify_at(expr.span, &unit_type(), &t)?;
                        Ok(unit_type())
                    },
                }
            },
            _ => Ok(unit_type()),
        }
    }

    fn infer_loop_body(&mut self, env: &Env, body: &Block, acc: &Ty) -> (r: Result<Ty, TypeError>)
        ensures
            loop_body(old(self)@, env@, *body, acc@) == (final(self)@, ty_result(r)),
        decreases body, 1nat,
    {
        self.loop_stack.push(acc.dup());
        let r = self.infer_block(env, body);
        let ghost inner = self@;
        let ghost stack = self.loop_stack@;
        let _ = self.loop_stack.pop();
        proof {
            if stack.len() > 0 {
                assert(self.loop_stack@ == stack.subrange(0, stack.len() - 1));
                assert(views(stack).drop_last() =~= views(self.loop_stack@));
            } else {
                assert(views(self.loop_stack@) =~= inner.loops);
            }
        }
        r
    }

    fn infer_plain_loop(&mut self, env: &Env, body: &Block) -> (r: Result<Ty, TypeError>)
        ensures
            plain_loop(old(self)@, env@, *body) == (final(self)@, ty_result(r)),
        decreases body, 2nat,
    {
        self.infer_loop_body(env, body, &unit_type())?;
        Ok(unit_type())
    }

    fn infer_while(&mut self, env: &Env, expr: &Expr) -> (r: Result<Ty, TypeError>)
        requires
            expr.kind is While,
        ensures
            while_type(old(self)@, env@, *expr) == (final(self)@, ty_result(r)),
        decreases expr, 0nat,
    {
        match &expr.kind {
            ExprKind::While { cond, body } => {
                self.check_condition(env, cond)?;
                self.infer_plain_loop(env, body)
            },
            _ => Ok(unit_type()),
        }
    }

    fn infer_for(&mut self, env: &Env, expr: &Expr) -> (r: Result<Ty, TypeError>)
        requires
            expr.kind is For,
        ensures
            for_type(old(self)@, env@, *expr) == (final(self)@, ty_result(r)),
        decreases expr, 0nat,
    {
        match &expr.kind {
            ExprKind::For { var, start, end, body } => {
                let t: Ty = self.infer_expr(env, start)?;
                let u: Ty = self.infer_expr(env, end)?;
                self.unify_at(end.span, &t, &u)?;
                self.demand(Constraint::all_gating("Int".to_owned(), t.dup(), start.span));
                let mut inner: Env = env.dup();
                inner.insert(var.clone(), Scheme::mono(t));
                self.infer_plain_loop(&inner, body)
            },
            _ => Ok(unit_type()),
        }
    }

    fn infer_for_in(&mut self, env: &Env, expr: &Expr) -> (r: Result<Ty, TypeError>)
        requires
            expr.kind is ForIn,
        ensures
            for_in_type(old(self)@, env@, *expr) == (final(self)@, ty_result(r)),
        decreases expr, 0nat,
    {
        match &expr.kind {
            ExprKind::ForIn { var, iter, body } => {
                let t: Ty = self.infer_expr(env, iter)?;
                let elem: Ty = self.fresh();
                let size: Ty = self.fresh();
                let array = Ty::Array(Box::new(elem.dup()), Box::new(size));
                self.unify_at(iter.span, &array, &t)?;
                let mut inner: Env = env.dup();
                inner.insert(var.clone(), Scheme::mono(elem));
                self.infer_plain_loop(&inner, body)
            },
            _ => Ok(unit_type()),
        }
    }

    fn infer_field_access(&mut self, base: Ty, name: &String, span: Span) -> (r: Result<
        Ty,
        TypeError,
    >)
        ensures
            field_access_type(old(self)@, base@, name@, span) == (final(self)@, ty_result(r)),
    {
        let known: Ty = self.subst.apply(&base);
        if is_var(&known) {
            let result: u32 = self.vars.0;
            let v: Ty = self.fresh();
            self.pending_field_accesses.push(
                PendingFieldAccess { base: known, field: name.clone(), result, span },
            );
            return Ok(v);
        }
        if is_placeholder(&known) {
            return Ok(not_inferred_ty());
        }
        self.resolve_field_access(&known, name, span)
    }

    fn in_progress_shape(&self, base: &Ty, name: &String) -> (r: Option<MethodShape>)
        ensures
            match r {
                Some(s) => method_in_progress(self@, base@, name@) == Some(s@),
                None => method_in_progress(self@, base@, name@) is None,
            },
    {
        proof {
            lemma_ty_view(*base);
        }
        let struct_name: &String = match base {
            Ty::Con(n) => n,
            Ty::App(n, _) => n,
            _ => {
                return None;
            },
        };
        match self.in_progress_methods.get(&(struct_name.clone(), name.clone())) {
            Some(shape) => Some(shape.dup()),
            None => None,
        }
    }

    fn infer_progress_args(&mut self, env: &Env, args: &Vec<Expr>, params: &Vec<Ty>) -> (r:
        Result<(), TypeError>)
        ensures
            progress_args(old(self)@, env@, *args, 0, views(params@)) == (
                final(self)@,
                unit_result(r),
            ),
        decreases args, 0nat,
    {
        let mut i: usize = 0;
        while i < args.len() && params.len() > 0 && i < params.len() - 1
            invariant
                i <= args.len(),
                progress_args(old(self)@, env@, *args, 0, views(params@)) == progress_args(
                    self@,
                    env@,
                    *args,
                    i as nat,
                    views(params@),
                ),
            decreases args.len() - i,
        {
            let t: Ty = self.infer_expr(env, &args[i])?;
            self.unify_at(args[i].span, &params[i + 1], &t)?;
            i = i + 1;
        }
        Ok(())
    }

    fn infer_method_call(&mut self, env: &Env, expr: &Expr) -> (r: Result<Ty, TypeError>)
        requires
            expr.kind is MethodCall,
        ensures
            method_type(old(self)@, env@, *expr) == (final(self)@, ty_result(r)),
        decreases expr, 0nat,
    {
        match &expr.kind {
            ExprKind::MethodCall(base, name, args) => {
                if let Some(t) = self.pack_len_from_method_call(
                    &self.active_generics,
                    base,
                    name,
                    args,
                ) {
                    return Ok(t);
                }
                let t: Ty = self.infer_expr(env, base)?;
                let known: Ty = self.subst.apply(&t);
                if is_var(&known) {
                    let arg_tys: Vec<Ty> = self.infer_exprs(env, args)?;
                    let arg_spans: Vec<Span> = list_spans(args);
                    let result: u32 = self.vars.0;
                    let v: Ty = self.fresh();
                    self.pending_method_calls.push(
                        PendingMethodCall {
                            base: known,
                            method: name.clone(),
                            arg_tys,
                            arg_spans,
                            base_span: base.span,
                            result,
                            call_span: expr.span,
                        },
                    );
                    return Ok(v);
                }
                if is_placeholder(&known) {
                    return Ok(not_inferred_ty());
                }
                if let Some(shape) = self.in_progress_shape(&known, name) {
                    if shape.params.len() > 0 {
                        self.unify_at(base.span, &shape.params[0], &known)?;
                    }
                    self.infer_progress_args(env, args, &shape.params)?;
                    return Ok(self.subst.apply(&shape.ret));
                }
                let arg_tys: Vec<Ty> = self.infer_exprs(env, args)?;
                let arg_spans: Vec<Span> = list_spans(args);
                self.resolve_method_call(&known, name, &arg_tys, &arg_spans, base.span, expr.span)
            },
            _ => Ok(unit_type()),
        }
    }

    fn infer_repeat(&mut self, env: &Env, expr: &Expr) -> (r: Result<Ty, TypeError>)
        requires
            expr.kind is ArrayRepeat,
        ensures
            repeat_type(old(self)@, env@, *expr) == (final(self)@, ty_result(r)),
        decreases expr, 0nat,
    {
        match &expr.kind {
            ExprKind::ArrayRepeat { value, count } => {
                let t: Ty = self.infer_expr(env, value)?;
                let n: Ty = match &count.kind {
                    ExprKind::PackRef(name) => {
                        let found: Option<Ty> = match self.active_generics.get(name) {
                            Some(n) => Some(n.dup()),
                            None => None,
                        };
                        match found {
                            Some(n) => n,
                            None => self.fresh(),
                        }
                    },
                    _ => self.infer_expr(env, count)?,
                };
                Ok(Ty::Array(Box::new(t), Box::new(n)))
            },
            _ => Ok(unit_type()),
        }
    }

    fn infer_index(&mut self, env: &Env, expr: &Expr) -> (r: Result<Ty, TypeError>)
        requires
            expr.kind is Index,
        ensures
            index_expr_type(old(self)@, env@, *expr) == (final(self)@, ty_result(r)),
        decreases expr, 0nat,
    {
        match &expr.kind {
            ExprKind::Index(base, indices) => {
                let t: Ty = self.infer_expr(env, base)?;
                let known: Ty = self.subst.apply(&t);
                let index_tys: Vec<Ty> = self.infer_indices(env, indices)?;
                let index_spans: Vec<Span> = list_spans(indices);
                if is_var(&known) {
                    let result: u32 = self.vars.0;
                    let v: Ty = self.fresh();
                    self.pending_indices.push(
                        PendingIndex {
                            base: known,
                            base_span: base.span,
                            index_tys,
                            index_spans,
                            result,
                            span: expr.span,
                        },
                    );
                    return Ok(v);
                }
                if is_placeholder(&known) {
                    return Ok(not_inferred_ty());
                }
                self.resolve_index(known, &index_tys, &index_spans, base.span, expr.span)
            },
            _ => Ok(unit_type()),
        }
    }

    fn declared_type(
        &mut self,
        field: &Field,
        mapping: &Mapping,
        pack: Option<(&String, &Vec<Ty>)>,
    ) -> (r: Ty)
        ensures
            declared_field_type(old(self)@, *field, mapping@, pack_args(pack)) == (
                final(self)@,
                r@,
            ),
    {
        match pack {
            Some((name, tys)) => self.ty_from_ast_mapped_with_pack(&field.ty, mapping, name, tys),
            None => self.ty_from_ast_mapped(&field.ty, mapping),
        }
    }

    fn check_field_values(
        &mut self,
        env: &Env,
        fields: &Vec<(String, Expr)>,
        struct_name: &String,
        declared: &Vec<Field>,
        mapping: &Mapping,
        pack: Option<(&String, &Vec<Ty>)>,
    ) -> (r: Result<Vec<String>, TypeError>)
        ensures
            fields_checked_from(
                old(self)@,
                env@,
                *fields,
                0,
                struct_name@,
                declared@,
                mapping@,
                pack_args(pack),
                Seq::empty(),
            ) == (
                final(self)@,
                match r {
                    Ok(seen) => Ok(views(seen@)),
                    Err(e) => Err(e@),
                },
            ),
        decreases fields, 0nat,
    {
        let mut seen: Vec<String> = Vec::new();
        let mut i: usize = 0;
        while i < fields.len()
            invariant
                i <= fields.len(),
                fields_checked_from(
                    old(self)@,
                    env@,
                    *fields,
                    0,
                    struct_name@,
                    declared@,
                    mapping@,
                    pack_args(pack),
                    Seq::empty(),
                ) == fields_checked_from(
                    self@,
                    env@,
                    *fields,
                    i as nat,
                    struct_name@,
                    declared@,
                    mapping@,
                    pack_args(pack),
                    views(seen@),
                ),
            decreases fields.len() - i,
        {
            let name: &String = &fields[i].0;
            let value: &Expr = &fields[i].1;
            let own: &Field = match find_field(declared, name.as_str()) {
                Some(f) => f,
                None => {
                    return Err(
                        TypeError {
                            span: value.span,
                            kind: TypeErrorKind::NoSuchField {
                                struct_name: struct_name.clone(),
                                field: name.clone(),
                            },
                        },
                    );
                },
            };
            if holds_name(&seen, name) {
                return Err(
                    TypeError {
                        span: value.span,
                        kind: TypeErrorKind::DuplicateField {
                            struct_name: struct_name.clone(),
                            field: name.clone(),
                        },
                    },
                );
            }
            let t: Ty = self.infer_expr(env, value)?;
            let declared_ty: Ty = self.declared_type(own, mapping, pack);
            self.unify_at(value.span, &declared_ty, &t)?;
            seen.push(name.clone());
            i = i + 1;
        }
        Ok(seen)
    }

    fn check_struct_lit(
        &mut self,
        env: &Env,
        expr: &Expr,
        struct_name: &String,
        declared: &Vec<Field>,
        mapping: &Mapping,
        pack: Option<(&String, &Vec<Ty>)>,
        result: Ty,
    ) -> (r: Result<Ty, TypeError>)
        requires
            expr.kind is StructLit,
        ensures
            struct_checked(
                old(self)@,
                env@,
                *expr,
                struct_name@,
                declared@,
                mapping@,
                pack_args(pack),
                result@,
            ) == (final(self)@, ty_result(r)),
        decreases expr, 0nat,
    {
        match &expr.kind {
            ExprKind::StructLit(_, _, fields) => {
                let seen: Vec<String> = self.check_field_values(
                    env,
                    fields,
                    struct_name,
                    declared,
                    mapping,
                    pack,
                )?;
                match find_missing(declared, &seen) {
                    Some(field) => Err(
                        TypeError {
                            span: expr.span,
                            kind: TypeErrorKind::MissingField {
                                struct_name: struct_name.clone(),
                                field: field.clone(),
                            },
                        },
                    ),
                    None => Ok(result),
                }
            },
            _ => Ok(result),
        }
    }

    fn generic_args_to_tys(&mut self, args: &Vec<GenericArg>, from: usize) -> (r: Vec<Ty>)
        ensures
            generic_args_from(old(self)@, args@, from as nat, Seq::empty()) == (
                final(self)@,
                views(r@),
            ),
    {
        let mut out: Vec<Ty> = Vec::new();
        let mut i: usize = from;
        while i < args.len()
            invariant
                from <= i,
                i <= args.len() || i == from,
                generic_args_from(old(self)@, args@, from as nat, Seq::empty())
                    == generic_args_from(self@, args@, i as nat, views(out@)),
            decreases args.len() - i,
        {
            let t: Ty = self.generic_arg_to_ty(&args[i]);
            out.push(t);
            i = i + 1;
        }
        out
    }

    fn infer_struct_lit_with_pack(
        &mut self,
        env: &Env,
        expr: &Expr,
        struct_name: &String,
        entry: &StructEntry,
        explicit: &Vec<GenericArg>,
    ) -> (r: Result<Ty, TypeError>)
        requires
            expr.kind matches ExprKind::StructLit(p, g, _) && path_name(p) == struct_name@ && g
                == *explicit,
            old(self)@.registry.struct_of(struct_name@) == Some(*entry),
            entry.generics@.len() > 0,
            entry.generics@.last().spec_variadic(),
        ensures
            struct_type(old(self)@, env@, *expr) == (final(self)@, ty_result(r)),
        decreases expr, 1nat,
    {
        let g = &entry.generics;
        let own = slice_subrange(g.as_slice(), 0, g.len() - 1);
        if explicit.len() < own.len() {
            return Err(
                TypeError {
                    span: expr.span,
                    kind: TypeErrorKind::VariadicStructNeedsTurbofish {
                        struct_name: struct_name.clone(),
                        min_generics: own.len(),
                    },
                },
            );
        }
        let mapping: Mapping = self.fresh_generics_mapping(own, expr.span);
        self.pin_generics(own, explicit.as_slice(), &mapping, expr.span, Ghost(old(self)@))?;
        let pack_tys: Vec<Ty> = self.generic_args_to_tys(explicit, own.len());
        let mut args: Vec<Ty> = list_stood_for(own, &mapping, Ghost(old(self)@));
        let mut more: Vec<Ty> = dup_tys(&pack_tys);
        args.append(&mut more);
        let pack_name: &String = g[g.len() - 1].name();
        let result = Ty::App(struct_name.clone(), args);
        self.check_struct_lit(
            env,
            expr,
            struct_name,
            &entry.fields,
            &mapping,
            Some((pack_name, &pack_tys)),
            result,
        )
    }

    fn infer_struct_lit(&mut self, env: &Env, expr: &Expr) -> (r: Result<Ty, TypeError>)
        requires
            expr.kind is StructLit,
        ensures
            struct_type(old(self)@, env@, *expr) == (final(self)@, ty_result(r)),
        decreases expr, 2nat,
    {
        match &expr.kind {
            ExprKind::StructLit(path, explicit, _) => {
                let registry = self.registry;
                let name: String = path_text(path);
                let entry = match registry.struct_entry(name.as_str()) {
                    Some(s) => s,
                    None => {
                        return Err(
                            TypeError {
                                span: expr.span,
                                kind: TypeErrorKind::UnknownStruct(name),
                            },
                        );
                    },
                };
                let g = &entry.generics;
                if g.len() > 0 && g[g.len() - 1].is_variadic() {
                    return self.infer_struct_lit_with_pack(env, expr, &name, entry, explicit);
                }
                let mapping: Mapping = self.fresh_generics_mapping(g.as_slice(), expr.span);
                if explicit.len() != 0 && explicit.len() != g.len() {
                    return Err(
                        TypeError {
                            span: expr.span,
                            kind: TypeErrorKind::ArityMismatch {
                                name: glued(name.as_str(), "::<...>"),
                                expected: g.len(),
                                found: explicit.len(),
                            },
                        },
                    );
                }
                self.pin_generics(
                    g.as_slice(),
                    explicit.as_slice(),
                    &mapping,
                    expr.span,
                    Ghost(old(self)@),
                )?;
                let args: Vec<Ty> = list_stood_for(g.as_slice(), &mapping, Ghost(old(self)@));
                let result = if args.len() == 0 {
                    Ty::Con(name.clone())
                } else {
                    Ty::App(name.clone(), args)
                };
                self.check_struct_lit(env, expr, &name, &entry.fields, &mapping, None, result)
            },
            _ => Ok(unit_type()),
        }
    }

    fn infer_lambda_params(&mut self, params: &Vec<Param>, env: &mut Env) -> (r: Vec<Ty>)
        ensures
            lambda_params(old(self)@, params@, 0, old(env)@, Seq::empty()) == (
                final(self)@,
                final(env)@,
                views(r@),
            ),
    {
        let mut out: Vec<Ty> = Vec::new();
        let mut i: usize = 0;
        while i < params.len()
            invariant
                i <= params.len(),
                lambda_params(old(self)@, params@, 0, old(env)@, Seq::empty()) == lambda_params(
                    self@,
                    params@,
                    i as nat,
                    env@,
                    views(out@),
                ),
            decreases params.len() - i,
        {
            let t: Ty = match &params[i].ty {
                Some(t) => {
                    let active: Mapping = self.active_generics.dup();
                    self.ty_from_ast_mapped(t, &active)
                },
                None => self.fresh(),
            };
            env.insert(params[i].name.clone(), Scheme::mono(t.dup()));
            out.push(t);
            i = i + 1;
        }
        out
    }

    fn infer_lambda(&mut self, env: &Env, expr: &Expr) -> (r: Result<Ty, TypeError>)
        requires
            expr.kind is Lambda,
        ensures
            lambda_type(old(self)@, env@, *expr) == (final(self)@, ty_result(r)),
        decreases expr, 0nat,
    {
        match &expr.kind {
            ExprKind::Lambda { params, ret, body } => {
                let mut inner: Env = env.dup();
                let tys: Vec<Ty> = self.infer_lambda_params(params, &mut inner);
                let mut outer_loops: Vec<Ty> = Vec::new();
                std::mem::swap(&mut outer_loops, &mut self.loop_stack);
                let r = self.infer_block(&inner, body);
                self.loop_stack = outer_loops;
                let t: Ty = r?;
                if let Some(declared) = ret {
                    let active: Mapping = self.active_generics.dup();
                    let own: Ty = self.ty_from_ast_mapped(declared, &active);
                    self.unify_at(declared.span, &own, &t)?;
                }
                Ok(Ty::Fn(tys, Box::new(t)))
            },
            _ => Ok(unit_type()),
        }
    }

    fn pin_vars(
        &mut self,
        vars: &Vec<u32>,
        args: &Vec<GenericArg>,
        mapping: &Table<u32, Ty>,
        span: Span,
        Ghost(opened): Ghost<InferV>,
    ) -> (r: Result<(), TypeError>)
        requires
            mapping@ == crate::infer_schemes::fresh_each(opened, vars@, vars@.len()).1,
        ensures
            vars_pinned(old(self)@, vars@, args@, 0, mapping@, span) == (
                final(self)@,
                unit_result(r),
            ),
    {
        let mut i: usize = 0;
        while i < vars.len() && i < args.len()
            invariant
                i <= vars.len(),
                mapping@ == crate::infer_schemes::fresh_each(opened, vars@, vars@.len()).1,
                vars_pinned(old(self)@, vars@, args@, 0, mapping@, span) == vars_pinned(
                    self@,
                    vars@,
                    args@,
                    i as nat,
                    mapping@,
                    span,
                ),
            decreases vars.len() - i,
        {
            proof {
                lemma_fresh_each_names(opened, vars@, vars@.len(), i as int);
            }
            let t: Ty = self.generic_arg_to_ty(&args[i]);
            if let Some(own) = mapping.get(&vars[i]) {
                self.unify_at(span, own, &t)?;
            }
            i = i + 1;
        }
        Ok(())
    }

    fn infer_scheme_call(
        &mut self,
        scheme: &Scheme,
        name: &String,
        tys: &Vec<Ty>,
        spans: &Vec<Span>,
        explicit: &Vec<GenericArg>,
        span: Span,
    ) -> (r: Result<Ty, TypeError>)
        ensures
            scheme_call_type(
                old(self)@,
                scheme@,
                name@,
                views(tys@),
                spans@,
                explicit@,
                span,
            ) == (final(self)@, ty_result(r)),
    {
        let (t, mapping) = self.instantiate_with_mapping(scheme);
        if explicit.len() != 0 && explicit.len() != scheme.vars.len() {
            return Err(
                TypeError {
                    span,
                    kind: TypeErrorKind::ArityMismatch {
                        name: glued(name.as_str(), "::<...>"),
                        expected: scheme.vars.len(),
                        found: explicit.len(),
                    },
                },
            );
        }
        self.pin_vars(&scheme.vars, explicit, &mapping, span, Ghost(old(self)@))?;
        proof {
            lemma_ty_view(t);
        }
        match t {
            Ty::Fn(params, ret) => {
                if params.len() != tys.len() {
                    return Err(
                        TypeError {
                            span,
                            kind: TypeErrorKind::ArityMismatch {
                                name: name.clone(),
                                expected: params.len(),
                                found: tys.len(),
                            },
                        },
                    );
                }
                self.unify_args(&params, 0, tys, spans)?;
                Ok(*ret)
            },
            other => Err(TypeError { span, kind: TypeErrorKind::NotCallable(other) }),
        }
    }

    fn infer_named_call(
        &mut self,
        env: &Env,
        name: String,
        tys: &Vec<Ty>,
        spans: &Vec<Span>,
        explicit: &Vec<GenericArg>,
        span: Span,
    ) -> (r: Result<Ty, TypeError>)
        ensures
            named_call_type(
                old(self)@,
                env@,
                name@,
                views(tys@),
                spans@,
                explicit@,
                span,
            ) == (final(self)@, ty_result(r)),
    {
        let registry = self.registry;
        let candidates: Vec<String> = registry.algebras_with_fn(name.as_str(), tys.len());
        if candidates.len() > 1 {
            return Err(
                TypeError { span, kind: TypeErrorKind::AmbiguousOperator { name, candidates } },
            );
        }
        if candidates.len() == 1 {
            assert(views(candidates@)[0] == candidates@[0]@);
            return self.infer_algebra_call(
                span,
                &candidates[0],
                &name,
                tys,
                spans,
                explicit.as_slice(),
            );
        }
        if let Some(scheme) = env.get(&name) {
            return self.infer_scheme_call(scheme, &name, tys, spans, explicit, span);
        }
        if tys.len() == 0 {
            if let Some(entry) = registry.struct_entry(name.as_str()) {
                if entry.fields.len() == 0 {
                    return Ok(Ty::Con(name));
                }
            }
        }
        Ok(Ty::Con(glued3("<unresolved-call:", name.as_str(), ">")))
    }

    /// Infers the type of a call.
    fn infer_call(&mut self, env: &Env, expr: &Expr) -> (r: Result<Ty, TypeError>)
        requires
            expr.kind is Call,
        ensures
            call_type(old(self)@, env@, *expr) == (final(self)@, ty_result(r)),
        decreases expr, 0nat,
    {
        match &expr.kind {
            ExprKind::Call(path, explicit, args, _) => {
                let registry = self.registry;
                let tys: Vec<Ty> = self.infer_exprs(env, args)?;
                let spans: Vec<Span> = list_spans(args);
                if path.segments.len() == 2 {
                    assert(views(path.segments@)[0] == path.segments@[0]@);
                    assert(views(path.segments@)[1] == path.segments@[1]@);
                    let algebra: &String = &path.segments[0];
                    let method: &String = &path.segments[1];
                    if registry.has_algebra(algebra.as_str()) {
                        let declared: bool = match registry.fn_sig(
                            algebra.as_str(),
                            method.as_str(),
                        ) {
                            Some(sig) => sig.params.len() == args.len(),
                            None => false,
                        };
                        if !declared {
                            return Err(
                                TypeError {
                                    span: expr.span,
                                    kind: TypeErrorKind::UnknownAlgebraMethod {
                                        algebra: algebra.clone(),
                                        method: method.clone(),
                                    },
                                },
                            );
                        }
                        return self.infer_algebra_call(
                            expr.span,
                            algebra,
                            method,
                            &tys,
                            &spans,
                            explicit.as_slice(),
                        );
                    }
                }
                let name: String = path_text(path);
                self.infer_named_call(env, name, &tys, &spans, explicit, expr.span)
            },
            _ => Ok(unit_type()),
        }
    }

    /// Infers the type of a block.
    pub(crate) fn infer_block(&mut self, env: &Env, block: &Block) -> (r: Result<Ty, TypeError>)
        ensures
            block_type(old(self)@, env@, *block) == (final(self)@, ty_result(r)),
        decreases block, 0nat,
    {
        let inner: Env = self.check_stmts(env, &block.stmts)?;
        match &block.tail {
            Some(tail) => self.infer_expr(&inner, tail),
            None => Ok(unit_type()),
        }
    }

    fn check_stmts(&mut self, env: &Env, stmts: &Vec<Stmt>) -> (r: Result<Env, TypeError>)
        ensures
            stmts_from(old(self)@, env@, *stmts, 0) == (final(self)@, env_result(r)),
        decreases stmts, 0nat,
    {
        let mut inner: Env = env.dup();
        let mut i: usize = 0;
        while i < stmts.len()
            invariant
                i <= stmts.len(),
                stmts_from(old(self)@, env@, *stmts, 0) == stmts_from(
                    self@,
                    inner@,
                    *stmts,
                    i as nat,
                ),
            decreases stmts.len() - i,
        {
            self.check_stmt(&mut inner, &stmts[i])?;
            i = i + 1;
        }
        Ok(inner)
    }

    fn check_stmt(&mut self, env: &mut Env, stmt: &Stmt) -> (r: Result<(), TypeError>)
        ensures
            stmt_checked(old(self)@, old(env)@, *stmt) == (
                final(self)@,
                match r {
                    Ok(_) => Ok(final(env)@),
                    Err(e) => Err(e@),
                },
            ),
        decreases stmt, 1nat,
    {
        match &stmt.kind {
            StmtKind::Let { .. } => self.check_let(env, stmt),
            StmtKind::Assign { .. } => self.check_assign(env, stmt),
            StmtKind::Expr(e) => {
                self.infer_expr(env, e)?;
                Ok(())
            },
            StmtKind::Break(value) => {
                if self.loop_stack.len() == 0 {
                    return Err(
                        TypeError { span: stmt.span, kind: TypeErrorKind::BreakOutsideLoop },
                    );
                }
                let acc: Ty = self.loop_stack[self.loop_stack.len() - 1].dup();
                assert(acc@ == self@.loops.last());
                match value {
                    Some(v) => {
                        let t: Ty = self.infer_expr(env, v)?;
                        self.unify_at(v.span, &acc, &t)
                    },
                    None => self.unify_at(stmt.span, &acc, &unit_type()),
                }
            },
        }
    }

    fn fresh_tys(&mut self, n: usize) -> (r: Vec<Ty>)
        ensures
            fresh_list(old(self)@, n as nat) == (final(self)@, views(r@)),
    {
        let mut out: Vec<Ty> = Vec::new();
        let mut i: usize = 0;
        while i < n
            invariant
                i <= n,
                fresh_list(old(self)@, i as nat) == (self@, views(out@)),
            decreases n - i,
        {
            let t: Ty = self.fresh();
            out.push(t);
            i = i + 1;
        }
        out
    }

    fn infer_bound_value(&mut self, env: &Env, name: &String, value: &Expr) -> (r: Result<
        Ty,
        TypeError,
    >)
        ensures
            bound_value_type(old(self)@, env@, name@, *value) == (final(self)@, ty_result(r)),
        decreases value, 5nat,
    {
        match &value.kind {
            ExprKind::Lambda { params, .. } => {
                let vars: Vec<Ty> = self.fresh_tys(params.len());
                let ret: Ty = self.fresh();
                let own = Ty::Fn(vars, Box::new(ret));
                let mut seeded: Env = env.dup();
                seeded.insert(name.clone(), Scheme::mono(own.dup()));
                let t: Ty = self.infer_expr(&seeded, value)?;
                self.unify_at(value.span, &own, &t)?;
                Ok(t)
            },
            _ => self.infer_expr(env, value),
        }
    }

    fn scheme_for(&mut self, env: &Env, mutable: bool, value: &Expr, ty: Ty) -> (r: Result<
        Scheme,
        TypeError,
    >)
        ensures
            bound_scheme(old(self)@, env@, mutable, *value, ty@) == (
                final(self)@,
                crate::infer_schemes::scheme_result(r),
            ),
    {
        if !mutable && is_syntactic_value(value) {
            self.generalize(env, &ty)
        } else {
            Ok(Scheme::mono(ty))
        }
    }

    fn check_let(&mut self, env: &mut Env, stmt: &Stmt) -> (r: Result<(), TypeError>)
        requires
            stmt.kind is Let,
        ensures
            let_checked(old(self)@, old(env)@, *stmt) == (
                final(self)@,
                match r {
                    Ok(_) => Ok(final(env)@),
                    Err(e) => Err(e@),
                },
            ),
        decreases stmt, 0nat,
    {
        match &stmt.kind {
            StmtKind::Let { mutable, name, ty, value } => {
                let t: Ty = self.infer_bound_value(env, name, value)?;
                if let Some(annotated) = ty {
                    let active: Mapping = self.active_generics.dup();
                    let own: Ty = self.ty_from_ast_mapped(annotated, &active);
                    self.unify_at(annotated.span, &own, &t)?;
                }
                let scheme: Scheme = self.scheme_for(env, *mutable, value, t)?;
                let lambda: bool = match &value.kind {
                    ExprKind::Lambda { .. } => true,
                    _ => false,
                };
                if lambda {
                    self.lambda_schemes.insert(value.id.0, scheme.dup());
                }
                env.insert(name.clone(), scheme);
                Ok(())
            },
            _ => Ok(()),
        }
    }

    fn check_assigned_base(&mut self, target: &Expr) -> (r: Result<(), TypeError>)
        ensures
            assigned_base(old(self)@, *target) == (final(self)@, unit_result(r)),
    {
        if let ExprKind::Index(base, _) = &target.kind {
            let known: Option<Ty> = match self.node_types.get(&base.id.0) {
                Some(t) => Some(self.subst.apply(t)),
                None => None,
            };
            if let Some(t) = known {
                proof {
                    lemma_ty_view(t);
                }
                let fits: bool = match &t {
                    Ty::Array(_, _) | Ty::Var(_) => true,
                    _ => is_placeholder(&t),
                };
                if !fits {
                    return Err(self.array_mismatch(t, target.span));
                }
            }
        }
        Ok(())
    }

    fn check_assign(&mut self, env: &Env, stmt: &Stmt) -> (r: Result<(), TypeError>)
        requires
            stmt.kind is Assign,
        ensures
            assign_checked(old(self)@, env@, *stmt) == (
                final(self)@,
                match r {
                    Ok(_) => Ok(env@),
                    Err(e) => Err(e@),
                },
            ),
        decreases stmt, 0nat,
    {
        match &stmt.kind {
            StmtKind::Assign { target, value } => {
                let t: Ty = self.infer_expr(env, target)?;
                self.check_assigned_base(target)?;
                let u: Ty = self.infer_expr(env, value)?;
                self.unify_at(value.span, &t, &u)
            },
            _ => Ok(()),
        }
    }
}

} // verus!
