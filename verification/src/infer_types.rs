//! From the types that a program writes to the types that inference works on.

use vstd::prelude::*;

use crate::ast::{
    tuple_name, tuple_struct_name, Expr, ExprKind, GenericArg, GenericParam, Path, Span, Type,
    TypeKind,
};
use crate::const_eval::{binop_value, eval_binop, ConstValue};
use crate::infer_state::{
    demand, demanding, minted, next_var, Constraint, Infer, InferV, Mapping, MappingV,
};
use crate::subst::{applied, SubstV};
use crate::table::{group_views, views, Dup, Table};
use crate::text::{glued3, join, joined, parse_u64, parsed_u64, same};
use crate::ty::{group_ty, lemma_ty_view, Ty, TyV};
use crate::types::{dup_tys, nest_array, nested};

verus! {

broadcast use {group_views, group_ty};

/// The name that a path spells.
pub open spec fn path_name(p: Path) -> Seq<char> {
    joined(views(p.segments@), "::"@)
}

/// The name that a path spells.
pub fn path_text(p: &Path) -> (r: String)
    ensures
        r@ == path_name(*p),
{
    join(&p.segments, "::")
}

/// What a pack that is not in scope stands for.
pub open spec fn stray_pack(name: Seq<char>) -> TyV {
    TyV::Con("<stray-pack:"@ + name + ">"@)
}

pub(crate) fn stray_pack_ty(name: &String) -> (r: Ty)
    ensures
        r@ == stray_pack(name@),
{
    Ty::Con(glued3("<stray-pack:", name.as_str(), ">"))
}

/// The length of a pack that is asked for by a call of `len` on its name.
pub open spec fn asked_pack_len(
    st: InferV,
    m: MappingV,
    base: Expr,
    method: Seq<char>,
    args: Seq<Expr>,
) -> Option<TyV> {
    if method != "len"@ || args.len() != 0 {
        None
    } else {
        match base.kind {
            ExprKind::Path(p) => if p.segments@.len() == 1 && m.contains_key(p.segments@[0]@) {
                match applied(st.subst, m[p.segments@[0]@]) {
                    TyV::Pack(v) => Some(TyV::PackLen(v)),
                    TyV::PackResolved(elems) => Some(
                        TyV::Const(ConstValue::Int(elems.len() as u64)),
                    ),
                    _ => None,
                }
            } else {
                None
            },
            _ => None,
        }
    }
}

/// The constant that an expression in a type stands for, if it stands for one.
pub open spec fn const_of(st: InferV, e: Expr, m: MappingV) -> (InferV, Option<TyV>)
    decreases e, 0nat,
{
    match e.kind {
        ExprKind::NumberLit { text, .. } => match parsed_u64(text@) {
            Some(n) => (st, Some(TyV::Const(ConstValue::Int(n)))),
            None => (st, None),
        },
        ExprKind::BoolLit(b) => (st, Some(TyV::Const(ConstValue::Bool(b)))),
        ExprKind::Path(p) => if p.segments@.len() == 1 && m.contains_key(p.segments@[0]@) {
            (st, Some(applied(st.subst, m[p.segments@[0]@])))
        } else {
            (st, None)
        },
        ExprKind::PackRef(name) => if m.contains_key(name@) {
            (st, Some(applied(st.subst, m[name@])))
        } else {
            (st, None)
        },
        ExprKind::MethodCall(base, method, args) => (
            st,
            asked_pack_len(st, m, *base, method@, args@),
        ),
        ExprKind::Call(path, _, args, _) => if path.segments@.len() == 1 && args@.len() == 2 {
            let (st1, a) = const_of(st, args@[0], m);
            match a {
                None => (st1, None),
                Some(x) => {
                    let (st2, b) = const_of(st1, args@[1], m);
                    match b {
                        None => (st2, None),
                        Some(y) => const_operation(st2, path.segments@[0]@, x, y, e.span),
                    }
                },
            }
        } else {
            (st, None)
        },
        _ => (st, None),
    }
}

/// An operation on two constants in a type. A division by zero is noted.
pub open spec fn const_operation(st: InferV, op: Seq<char>, x: TyV, y: TyV, span: Span) -> (
    InferV,
    Option<TyV>,
) {
    match (x, y) {
        (TyV::Const(a), TyV::Const(b)) => {
            let noted = match (a, b) {
                (ConstValue::Int(n), ConstValue::Int(d)) => if op == "div"@ && d == 0 {
                    InferV { divs: st.divs.push((n, span)), ..st }
                } else {
                    st
                },
                _ => st,
            };
            match binop_value(op, a, b) {
                Some(v) => (noted, Some(TyV::Const(v))),
                None => (noted, None),
            }
        },
        _ => (st, Some(TyV::ConstExpr(op, Box::new(x), Box::new(y)))),
    }
}

/// A constant, or a fresh variable where the expression stands for none.
pub open spec fn const_or_fresh(st: InferV, e: Expr, m: MappingV) -> (InferV, TyV) {
    let (st1, c) = const_of(st, e, m);
    match c {
        Some(t) => (st1, t),
        None => (minted(st1), next_var(st1)),
    }
}

/// Whether a type name is that of an algebra and of no struct.
pub open spec fn misnamed(st: InferV, name: Seq<char>) -> bool {
    st.registry.declares_algebra(name) && !st.registry.declares_struct(name)
}

/// The type that a type expression stands for, with `m` for the names of
/// generics.
pub open spec fn type_of(st: InferV, t: Type, m: MappingV) -> (InferV, TyV)
    decreases t, 0nat,
{
    match t.kind {
        TypeKind::Path(p, args) => {
            let name = path_name(p);
            if m.contains_key(name) {
                (st, m[name])
            } else {
                let st1 = if misnamed(st, name) {
                    InferV { type_names: st.type_names.push((name, t.span)), ..st }
                } else {
                    st
                };
                let (st2, tys) = type_args_from(st1, args, 0, m, Seq::empty());
                if tys.len() == 0 {
                    (st2, TyV::Con(name))
                } else {
                    (st2, TyV::App(name, tys))
                }
            }
        },
        TypeKind::Array(elem, size) => {
            let (st1, e) = type_of(st, *elem, m);
            let (st2, c) = const_of(st1, *size, m);
            (st2, array_type(e, c))
        },
        TypeKind::Fn(params, ret) => {
            let (st1, ps) = types_from(st, params, 0, m, Seq::empty());
            let (st2, r) = type_of(st1, *ret, m);
            (st2, TyV::Fn(ps, Box::new(r)))
        },
        TypeKind::PackRef(name) => if m.contains_key(name@) {
            (st, m[name@])
        } else {
            (st, stray_pack(name@))
        },
    }
}

/// An array type with the size that was found.
pub open spec fn array_type(elem: TyV, size: Option<TyV>) -> TyV {
    match size {
        Some(s) => match s {
            TyV::Const(ConstValue::Bool(_)) => TyV::Con("<array-type-not-yet-inferred>"@),
            _ => TyV::Array(Box::new(elem), Box::new(s)),
        },
        None => TyV::Con("<array-type-not-yet-inferred>"@),
    }
}

/// The types that the generic arguments from the `i`th on stand for, after
/// those of `acc`.
pub open spec fn type_args_from(
    st: InferV,
    args: Vec<GenericArg>,
    i: nat,
    m: MappingV,
    acc: Seq<TyV>,
) -> (InferV, Seq<TyV>)
    decreases args, args@.len() - i,
{
    if i >= args@.len() {
        (st, acc)
    } else {
        let (st1, t) = match args@[i as int] {
            GenericArg::Type(t) => type_of(st, t, m),
            GenericArg::Const(e) => const_or_fresh(st, e, m),
        };
        type_args_from(st1, args, i + 1, m, acc.push(t))
    }
}

/// The types that the type expressions from the `i`th on stand for, after those
/// of `acc`.
pub open spec fn types_from(
    st: InferV,
    tys: Vec<Type>,
    i: nat,
    m: MappingV,
    acc: Seq<TyV>,
) -> (InferV, Seq<TyV>)
    decreases tys, tys@.len() - i,
{
    if i >= tys@.len() {
        (st, acc)
    } else {
        let (st1, t) = type_of(st, tys@[i as int], m);
        types_from(st1, tys, i + 1, m, acc.push(t))
    }
}

/// The type that a field's type expression stands for where the last generic of
/// the struct is a pack.
pub open spec fn type_with_pack(
    st: InferV,
    t: Type,
    m: MappingV,
    pack: Seq<char>,
    pack_tys: Seq<TyV>,
) -> (InferV, TyV) {
    match t.kind {
        TypeKind::Array(elem, size) => match size.kind {
            ExprKind::PackRef(name) => if name@ == pack {
                let (st1, e) = type_of(st, *elem, m);
                (st1, nested(e, pack_tys))
            } else {
                type_of(st, t, m)
            },
            _ => type_of(st, t, m),
        },
        TypeKind::PackRef(name) => if name@ == pack {
            (
                st,
                if pack_tys.len() == 0 {
                    TyV::Con(tuple_name(0))
                } else {
                    TyV::App(tuple_name(pack_tys.len()), pack_tys)
                },
            )
        } else {
            type_of(st, t, m)
        },
        _ => type_of(st, t, m),
    }
}

/// The type that a generic argument stands for.
pub open spec fn generic_arg_type(st: InferV, g: GenericArg) -> (InferV, TyV) {
    match g {
        GenericArg::Type(t) => type_of(st, t, st.active),
        GenericArg::Const(e) => const_or_fresh(st, e, st.active),
    }
}

/// A fresh variable, or a fresh pack, for each of the first `n` generics.
pub open spec fn fresh_for(st: InferV, generics: Seq<GenericParam>, n: nat) -> (InferV, MappingV)
    decreases n,
{
    if n == 0 || n > generics.len() {
        (st, Map::empty())
    } else {
        let (st1, m) = fresh_for(st, generics, (n - 1) as nat);
        let g = generics[n - 1];
        (
            minted(st1),
            m.insert(
                g.spec_name(),
                if g.spec_variadic() {
                    TyV::Pack(st1.next_var)
                } else {
                    TyV::Var(st1.next_var)
                },
            ),
        )
    }
}

/// The demands that the bounds from the `i`th on make on a type.
pub open spec fn bounds_demanded(
    st: InferV,
    bounds: Seq<Seq<char>>,
    i: nat,
    ty: TyV,
    span: Span,
) -> InferV
    decreases bounds.len() - i,
{
    if i >= bounds.len() {
        st
    } else {
        bounds_demanded(
            demanding(st, demand(bounds[i as int], ty, span)),
            bounds,
            i + 1,
            ty,
            span,
        )
    }
}

/// The state after a width was given to what a generic stands for, if that is
/// a variable.
pub open spec fn width_given(st: InferV, t: TyV, width: TyV) -> InferV {
    match t {
        TyV::Var(v) => InferV {
            subst: SubstV {
                bindings: st.subst.bindings,
                widths: st.subst.widths.insert(v, width),
            },
            ..st
        },
        _ => st,
    }
}

/// The state after the bounds and widths of the generics from the `i`th on were
/// taken in.
pub open spec fn generics_taken(
    st: InferV,
    generics: Seq<GenericParam>,
    i: nat,
    m: MappingV,
    span: Span,
) -> InferV
    decreases generics.len() - i,
{
    if i >= generics.len() {
        st
    } else {
        let st1 = match generics[i as int] {
            GenericParam::Type { name, bounds, .. } => bounds_demanded(
                st,
                views(bounds@),
                0,
                m[name@],
                span,
            ),
            GenericParam::Const { name, ty, .. } => {
                let (st2, width) = type_of(st, ty, m);
                width_given(st2, m[name@], width)
            },
        };
        generics_taken(st1, generics, i + 1, m, span)
    }
}

/// Fresh variables for generics, with their bounds demanded and widths noted.
pub open spec fn generics_opened(st: InferV, generics: Seq<GenericParam>, span: Span) -> (
    InferV,
    MappingV,
) {
    let (st1, m) = fresh_for(st, generics, generics.len());
    (generics_taken(st1, generics, 0, m, span), m)
}

pub proof fn lemma_fresh_for_names(st: InferV, generics: Seq<GenericParam>, n: nat, i: int)
    requires
        0 <= i < n <= generics.len(),
    ensures
        fresh_for(st, generics, n).1.contains_key(generics[i].spec_name()),
    decreases n,
{
    if i < n - 1 {
        lemma_fresh_for_names(st, generics, (n - 1) as nat, i);
    }
}

impl<'r> Infer<'r> {
    /// The length of a pack that is asked for by a call of `len` on its name.
    pub(crate) fn pack_len_from_method_call(
        &self,
        mapping: &Mapping,
        base: &Expr,
        method: &String,
        args: &Vec<Expr>,
    ) -> (r: Option<Ty>)
        ensures
            match r {
                Some(t) => asked_pack_len(self@, mapping@, *base, method@, args@) == Some(t@),
                None => asked_pack_len(self@, mapping@, *base, method@, args@) is None,
            },
    {
        if !same(method.as_str(), "len") || args.len() != 0 {
            return None;
        }
        match &base.kind {
            ExprKind::Path(p) => {
                if p.segments.len() != 1 {
                    return None;
                }
                match mapping.get(&p.segments[0]) {
                    None => None,
                    Some(t) => {
                        let resolved: Ty = self.subst.apply(t);
                        proof {
                            lemma_ty_view(resolved);
                        }
                        match &resolved {
                            Ty::Pack(v) => Some(Ty::PackLen(*v)),
                            Ty::PackResolved(elems) => Some(
                                Ty::Const(ConstValue::Int(elems.len() as u64)),
                            ),
                            _ => None,
                        }
                    },
                }
            },
            _ => None,
        }
    }

    /// The constant that an expression in a type stands for.
    pub(crate) fn const_value_from_expr(&mut self, value: &Expr, mapping: &Mapping) -> (r: Option<
        Ty,
    >)
        ensures
            match r {
                Some(t) => const_of(old(self)@, *value, mapping@) == (final(self)@, Some(t@)),
                None => const_of(old(self)@, *value, mapping@) == (final(self)@, None::<TyV>),
            },
        decreases value,
    {
        match &value.kind {
            ExprKind::NumberLit { text, .. } => match parse_u64(text.as_str()) {
                Some(n) => Some(Ty::Const(ConstValue::Int(n))),
                None => None,
            },
            ExprKind::BoolLit(b) => Some(Ty::Const(ConstValue::Bool(*b))),
            ExprKind::Path(p) => {
                if p.segments.len() != 1 {
                    return None;
                }
                match mapping.get(&p.segments[0]) {
                    Some(t) => Some(self.subst.apply(t)),
                    None => None,
                }
            },
            ExprKind::PackRef(name) => match mapping.get(name) {
                Some(t) => Some(self.subst.apply(t)),
                None => None,
            },
            ExprKind::MethodCall(base, method, args) => self.pack_len_from_method_call(
                mapping,
                base,
                method,
                args,
            ),
            ExprKind::Call(path, _, args, _) => {
                if path.segments.len() != 1 || args.len() != 2 {
                    return None;
                }
                let a = match self.const_value_from_expr(&args[0], mapping) {
                    Some(t) => t,
                    None => {
                        return None;
                    },
                };
                let b = match self.const_value_from_expr(&args[1], mapping) {
                    Some(t) => t,
                    None => {
                        return None;
                    },
                };
                self.const_operation(&path.segments[0], a, b, value.span)
            },
            _ => None,
        }
    }

    fn const_operation(&mut self, op: &String, a: Ty, b: Ty, span: Span) -> (r: Option<Ty>)
        ensures
            match r {
                Some(t) => const_operation(old(self)@, op@, a@, b@, span) == (
                    final(self)@,
                    Some(t@),
                ),
                None => const_operation(old(self)@, op@, a@, b@, span) == (
                    final(self)@,
                    None::<TyV>,
                ),
            },
    {
        proof {
            lemma_ty_view(a);
            lemma_ty_view(b);
        }
        if let (Ty::Const(x), Ty::Const(y)) = (&a, &b) {
            if same(op.as_str(), "div") {
                if let (ConstValue::Int(n), ConstValue::Int(d)) = (*x, *y) {
                    if d == 0 {
                        self.pending_div_by_zero_checks.push((n, span));
                    }
                }
            }
            return match eval_binop(op.as_str(), *x, *y) {
                Some(v) => Some(Ty::Const(v)),
                None => None,
            };
        }
        Some(Ty::ConstExpr(op.clone(), Box::new(a), Box::new(b)))
    }

    fn const_or_fresh(&mut self, e: &Expr, mapping: &Mapping) -> (r: Ty)
        ensures
            const_or_fresh(old(self)@, *e, mapping@) == (final(self)@, r@),
    {
        match self.const_value_from_expr(e, mapping) {
            Some(t) => t,
            None => self.fresh(),
        }
    }

    /// The type that a type expression stands for, with no generics in scope.
    pub(crate) fn ty_from_ast(&mut self, ty: &Type) -> (r: Ty)
        ensures
            type_of(old(self)@, *ty, Map::empty()) == (final(self)@, r@),
    {
        let none: Mapping = Table::new();
        self.ty_from_ast_mapped(ty, &none)
    }

    /// The type that a type expression stands for.
    pub(crate) fn ty_from_ast_mapped(&mut self, ty: &Type, mapping: &Mapping) -> (r: Ty)
        ensures
            type_of(old(self)@, *ty, mapping@) == (final(self)@, r@),
        decreases ty, 0nat,
    {
        match &ty.kind {
            TypeKind::Path(p, args) => {
                let name: String = path_text(p);
                if let Some(t) = mapping.get(&name) {
                    return t.dup();
                }
                if self.registry.has_algebra(name.as_str()) && !self.registry.has_struct(
                    name.as_str(),
                ) {
                    self.pending_type_name_checks.push((name.clone(), ty.span));
                }
                let tys: Vec<Ty> = self.type_args_from_ast(args, mapping);
                if tys.len() == 0 {
                    Ty::Con(name)
                } else {
                    Ty::App(name, tys)
                }
            },
            TypeKind::Array(elem, size) => {
                let e: Ty = self.ty_from_ast_mapped(elem, mapping);
                let found = self.const_value_from_expr(size, mapping);
                match found {
                    Some(s) => {
                        proof {
                            lemma_ty_view(s);
                        }
                        match s {
                            Ty::Const(ConstValue::Bool(_)) => Ty::Con(
                                "<array-type-not-yet-inferred>".to_owned(),
                            ),
                            _ => Ty::Array(Box::new(e), Box::new(s)),
                        }
                    },
                    None => Ty::Con("<array-type-not-yet-inferred>".to_owned()),
                }
            },
            TypeKind::Fn(params, ret) => {
                let ps: Vec<Ty> = self.types_from_ast(params, mapping);
                let r: Ty = self.ty_from_ast_mapped(ret, mapping);
                Ty::Fn(ps, Box::new(r))
            },
            TypeKind::PackRef(name) => match mapping.get(name) {
                Some(t) => t.dup(),
                None => stray_pack_ty(name),
            },
        }
    }

    fn type_args_from_ast(&mut self, args: &Vec<GenericArg>, mapping: &Mapping) -> (r: Vec<Ty>)
        ensures
            type_args_from(old(self)@, *args, 0, mapping@, Seq::empty()) == (
                final(self)@,
                views(r@),
            ),
        decreases args, 0nat,
    {
        let mut out: Vec<Ty> = Vec::new();
        let mut i: usize = 0;
        while i < args.len()
            invariant
                i <= args.len(),
                type_args_from(old(self)@, *args, 0, mapping@, Seq::empty()) == type_args_from(
                    self@,
                    *args,
                    i as nat,
                    mapping@,
                    views(out@),
                ),
            decreases args.len() - i,
        {
            let t: Ty = match &args[i] {
                GenericArg::Type(t) => self.ty_from_ast_mapped(t, mapping),
                GenericArg::Const(e) => self.const_or_fresh(e, mapping),
            };
            out.push(t);
            i = i + 1;
        }
        out
    }

    pub(crate) fn types_from_ast(&mut self, tys: &Vec<Type>, mapping: &Mapping) -> (r: Vec<Ty>)
        ensures
            types_from(old(self)@, *tys, 0, mapping@, Seq::empty()) == (final(self)@, views(r@)),
        decreases tys, 0nat,
    {
        let mut out: Vec<Ty> = Vec::new();
        let mut i: usize = 0;
        while i < tys.len()
            invariant
                i <= tys.len(),
                types_from(old(self)@, *tys, 0, mapping@, Seq::empty()) == types_from(
                    self@,
                    *tys,
                    i as nat,
                    mapping@,
                    views(out@),
                ),
            decreases tys.len() - i,
        {
            let t: Ty = self.ty_from_ast_mapped(&tys[i], mapping);
            out.push(t);
            i = i + 1;
        }
        out
    }

    /// The type of a field of a struct whose last generic is a pack.
    pub(crate) fn ty_from_ast_mapped_with_pack(
        &mut self,
        ty: &Type,
        mapping: &Mapping,
        pack_name: &String,
        pack_tys: &Vec<Ty>,
    ) -> (r: Ty)
        ensures
            type_with_pack(old(self)@, *ty, mapping@, pack_name@, views(pack_tys@)) == (
                final(self)@,
                r@,
            ),
    {
        match &ty.kind {
            TypeKind::Array(elem, size) => {
                if let ExprKind::PackRef(name) = &size.kind {
                    if *name == *pack_name {
                        let e: Ty = self.ty_from_ast_mapped(elem, mapping);
                        return nest_array(e, pack_tys);
                    }
                }
                self.ty_from_ast_mapped(ty, mapping)
            },
            TypeKind::PackRef(name) => {
                if *name == *pack_name {
                    let whole: String = tuple_struct_name(pack_tys.len());
                    return if pack_tys.len() == 0 {
                        Ty::Con(whole)
                    } else {
                        Ty::App(whole, dup_tys(pack_tys))
                    };
                }
                self.ty_from_ast_mapped(ty, mapping)
            },
            _ => self.ty_from_ast_mapped(ty, mapping),
        }
    }

    /// The type that a generic argument stands for.
    pub(crate) fn generic_arg_to_ty(&mut self, g: &GenericArg) -> (r: Ty)
        ensures
            generic_arg_type(old(self)@, *g) == (final(self)@, r@),
    {
        let active: Mapping = self.active_generics.dup();
        match g {
            GenericArg::Type(t) => self.ty_from_ast_mapped(t, &active),
            GenericArg::Const(e) => self.const_or_fresh(e, &active),
        }
    }

    /// A fresh variable, or a fresh pack, for each generic.
    pub(crate) fn fresh_vars_for_generics(&mut self, generics: &[GenericParam]) -> (r: Mapping)
        ensures
            fresh_for(old(self)@, generics@, generics@.len()) == (final(self)@, r@),
    {
        let mut out: Mapping = Table::new();
        let mut i: usize = 0;
        while i < generics.len()
            invariant
                i <= generics.len(),
                fresh_for(old(self)@, generics@, i as nat) == (self@, out@),
            decreases generics.len() - i,
        {
            let g = &generics[i];
            let t: Ty = self.fresh();
            proof {
                lemma_ty_view(t);
            }
            let t: Ty = match t {
                Ty::Var(v) => if g.is_variadic() {
                    Ty::Pack(v)
                } else {
                    Ty::Var(v)
                },
                other => other,
            };
            out.insert(g.name().clone(), t);
            i = i + 1;
        }
        out
    }

    fn demand_bounds(&mut self, bounds: &Vec<String>, ty: &Ty, span: Span)
        ensures
            final(self)@ == bounds_demanded(old(self)@, views(bounds@), 0, ty@, span),
    {
        let mut i: usize = 0;
        while i < bounds.len()
            invariant
                i <= bounds.len(),
                bounds_demanded(old(self)@, views(bounds@), 0, ty@, span) == bounds_demanded(
                    self@,
                    views(bounds@),
                    i as nat,
                    ty@,
                    span,
                ),
            decreases bounds.len() - i,
        {
            self.demand(Constraint::all_gating(bounds[i].clone(), ty.dup(), span));
            i = i + 1;
        }
    }

    pub(crate) fn give_width(&mut self, ty: &Ty, width: Ty)
        ensures
            final(self)@ == width_given(old(self)@, ty@, width@),
    {
        proof {
            lemma_ty_view(*ty);
        }
        if let Ty::Var(v) = ty {
            self.subst.set_const_width(v.0, width);
        }
    }

    /// Fresh variables for generics, with their bounds demanded and widths noted.
    pub(crate) fn fresh_generics_mapping(&mut self, generics: &[GenericParam], span: Span) -> (r:
        Mapping)
        ensures
            generics_opened(old(self)@, generics@, span) == (final(self)@, r@),
    {
        let mapping: Mapping = self.fresh_vars_for_generics(generics);
        let ghost opened = self@;
        let mut i: usize = 0;
        while i < generics.len()
            invariant
                i <= generics.len(),
                mapping@ == fresh_for(old(self)@, generics@, generics@.len()).1,
                generics_taken(opened, generics@, 0, mapping@, span) == generics_taken(
                    self@,
                    generics@,
                    i as nat,
                    mapping@,
                    span,
                ),
            decreases generics.len() - i,
        {
            proof {
                lemma_fresh_for_names(old(self)@, generics@, generics@.len(), i as int);
            }
            let g = &generics[i];
            if let Some(t) = mapping.get(g.name()) {
                match g {
                    GenericParam::Type { bounds, .. } => {
                        self.demand_bounds(bounds, t, span);
                    },
                    GenericParam::Const { ty, .. } => {
                        let width: Ty = self.ty_from_ast_mapped(ty, &mapping);
                        self.give_width(t, width);
                    },
                }
            }
            i = i + 1;
        }
        mapping
    }
}

} // verus!
