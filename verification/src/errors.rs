//! What type checking reports.

use vstd::prelude::*;

use crate::ast::Span;
use crate::table::{dup_list, group_views, views, Dup};
use crate::text::{decimal, decimal_text, join, joined, same};
use crate::ty::{Ty, TyV};
use crate::types::{is_unit, ty_text};
use crate::unify::{UnifyError, UnifyErrorV};

verus! {

broadcast use group_views;

/// A failure of type checking, and where it was found.
#[derive(PartialEq, Eq, Debug)]
pub struct TypeError {
    pub span: Span,
    pub kind: TypeErrorKind,
}

#[derive(PartialEq, Eq, Debug)]
pub enum TypeErrorKind {
    Unify(UnifyError),
    UnknownName(String),
    ArityMismatch { name: String, expected: usize, found: usize },
    NotCallable(Ty),
    AmbiguousOperator { name: String, candidates: Vec<String> },
    MissingImpl { algebra: String, ty: String },
    Unresolved(String),
    NotDeclaredByAlgebra { algebra: String, name: String },
    UnknownStruct(String),
    NoSuchField { struct_name: String, field: String },
    MissingField { struct_name: String, field: String },
    DuplicateField { struct_name: String, field: String },
    NoSuchMethod { struct_name: String, method: String },
    OverlappingImpls { algebra: String, a: String, b: String },
    TypeNameIsAnAlgebra { name: String },
    MonomorphizationFailed { algebra: String, method: String, tys: String },
    GenericFnInstantiationFailed { name: String, tys: String, inner: Box<TypeError> },
    MissingFnBody { name: String },
    MissingIntrinsicAttribute { name: String },
    ExternFnCannotBeGeneric { name: String },
    AssignToImmutable { name: String },
    UnsatisfiableScheme { algebras: Vec<String> },
    AmbiguousDispatch { algebra: String, candidates: Vec<String> },
    UnknownAlgebraMethod { algebra: String, method: String },
    BreakOutsideLoop,
    ConstDivByZero { dividend: u64 },
    VariadicStructNeedsTurbofish { struct_name: String, min_generics: usize },
}

#[verifier::ext_equal]
pub struct TypeErrorV {
    pub span: Span,
    pub kind: TypeErrorKindV,
}

#[verifier::ext_equal]
pub enum TypeErrorKindV {
    Unify(UnifyErrorV),
    UnknownName(Seq<char>),
    ArityMismatch { name: Seq<char>, expected: usize, found: usize },
    NotCallable(TyV),
    AmbiguousOperator { name: Seq<char>, candidates: Seq<Seq<char>> },
    MissingImpl { algebra: Seq<char>, ty: Seq<char> },
    Unresolved(Seq<char>),
    NotDeclaredByAlgebra { algebra: Seq<char>, name: Seq<char> },
    UnknownStruct(Seq<char>),
    NoSuchField { struct_name: Seq<char>, field: Seq<char> },
    MissingField { struct_name: Seq<char>, field: Seq<char> },
    DuplicateField { struct_name: Seq<char>, field: Seq<char> },
    NoSuchMethod { struct_name: Seq<char>, method: Seq<char> },
    OverlappingImpls { algebra: Seq<char>, a: Seq<char>, b: Seq<char> },
    TypeNameIsAnAlgebra { name: Seq<char> },
    MonomorphizationFailed { algebra: Seq<char>, method: Seq<char>, tys: Seq<char> },
    GenericFnInstantiationFailed { name: Seq<char>, tys: Seq<char>, inner: Box<TypeErrorV> },
    MissingFnBody { name: Seq<char> },
    MissingIntrinsicAttribute { name: Seq<char> },
    ExternFnCannotBeGeneric { name: Seq<char> },
    AssignToImmutable { name: Seq<char> },
    UnsatisfiableScheme { algebras: Seq<Seq<char>> },
    AmbiguousDispatch { algebra: Seq<char>, candidates: Seq<Seq<char>> },
    UnknownAlgebraMethod { algebra: Seq<char>, method: Seq<char> },
    BreakOutsideLoop,
    ConstDivByZero { dividend: u64 },
    VariadicStructNeedsTurbofish { struct_name: Seq<char>, min_generics: usize },
}

pub open spec fn kind_view(k: TypeErrorKind) -> TypeErrorKindV
    decreases k,
{
    match k {
        TypeErrorKind::Unify(x) => TypeErrorKindV::Unify(x@),
        TypeErrorKind::UnknownName(x) => TypeErrorKindV::UnknownName(x@),
        TypeErrorKind::ArityMismatch { name, expected, found } => {
            TypeErrorKindV::ArityMismatch { name: name@, expected: expected, found: found }
        },
        TypeErrorKind::NotCallable(x) => TypeErrorKindV::NotCallable(x@),
        TypeErrorKind::AmbiguousOperator { name, candidates } => {
            TypeErrorKindV::AmbiguousOperator { name: name@, candidates: views(candidates@) }
        },
        TypeErrorKind::MissingImpl { algebra, ty } => {
            TypeErrorKindV::MissingImpl { algebra: algebra@, ty: ty@ }
        },
        TypeErrorKind::Unresolved(x) => TypeErrorKindV::Unresolved(x@),
        TypeErrorKind::NotDeclaredByAlgebra { algebra, name } => {
            TypeErrorKindV::NotDeclaredByAlgebra { algebra: algebra@, name: name@ }
        },
        TypeErrorKind::UnknownStruct(x) => TypeErrorKindV::UnknownStruct(x@),
        TypeErrorKind::NoSuchField { struct_name, field } => {
            TypeErrorKindV::NoSuchField { struct_name: struct_name@, field: field@ }
        },
        TypeErrorKind::MissingField { struct_name, field } => {
            TypeErrorKindV::MissingField { struct_name: struct_name@, field: field@ }
        },
        TypeErrorKind::DuplicateField { struct_name, field } => {
            TypeErrorKindV::DuplicateField { struct_name: struct_name@, field: field@ }
        },
        TypeErrorKind::NoSuchMethod { struct_name, method } => {
            TypeErrorKindV::NoSuchMethod { struct_name: struct_name@, method: method@ }
        },
        TypeErrorKind::OverlappingImpls { algebra, a, b } => {
            TypeErrorKindV::OverlappingImpls { algebra: algebra@, a: a@, b: b@ }
        },
        TypeErrorKind::TypeNameIsAnAlgebra { name } => {
            TypeErrorKindV::TypeNameIsAnAlgebra { name: name@ }
        },
        TypeErrorKind::MonomorphizationFailed { algebra, method, tys } => {
            TypeErrorKindV::MonomorphizationFailed { algebra: algebra@, method: method@, tys: tys@ }
        },
        TypeErrorKind::GenericFnInstantiationFailed { name, tys, inner } => {
            TypeErrorKindV::GenericFnInstantiationFailed {
                name: name@,
                tys: tys@,
                inner: Box::new(TypeErrorV { span: inner.span, kind: kind_view(inner.kind) }),
            }
        },
        TypeErrorKind::MissingFnBody { name } => TypeErrorKindV::MissingFnBody { name: name@ },
        TypeErrorKind::MissingIntrinsicAttribute { name } => {
            TypeErrorKindV::MissingIntrinsicAttribute { name: name@ }
        },
        TypeErrorKind::ExternFnCannotBeGeneric { name } => {
            TypeErrorKindV::ExternFnCannotBeGeneric { name: name@ }
        },
        TypeErrorKind::AssignToImmutable { name } => {
            TypeErrorKindV::AssignToImmutable { name: name@ }
        },
        TypeErrorKind::UnsatisfiableScheme { algebras } => {
            TypeErrorKindV::UnsatisfiableScheme { algebras: views(algebras@) }
        },
        TypeErrorKind::AmbiguousDispatch { algebra, candidates } => {
            TypeErrorKindV::AmbiguousDispatch { algebra: algebra@, candidates: views(candidates@) }
        },
        TypeErrorKind::UnknownAlgebraMethod { algebra, method } => {
            TypeErrorKindV::UnknownAlgebraMethod { algebra: algebra@, method: method@ }
        },
        TypeErrorKind::BreakOutsideLoop => TypeErrorKindV::BreakOutsideLoop,
        TypeErrorKind::ConstDivByZero { dividend } => {
            TypeErrorKindV::ConstDivByZero { dividend: dividend }
        },
        TypeErrorKind::VariadicStructNeedsTurbofish { struct_name, min_generics } => {
            TypeErrorKindV::VariadicStructNeedsTurbofish {
                struct_name: struct_name@,
                min_generics: min_generics,
            }
        },
    }
}

impl View for TypeError {
    type V = TypeErrorV;

    open spec fn view(&self) -> TypeErrorV {
        TypeErrorV { span: self.span, kind: kind_view(self.kind) }
    }
}

/// An error of that kind at that place.
pub open spec fn error_at(span: Span, kind: TypeErrorKindV) -> TypeErrorV {
    TypeErrorV { span, kind }
}

fn dup_error(e: &TypeError) -> (r: TypeError)
    ensures
        r@ == e@,
    decreases e,
{
    let kind = match &e.kind {
        TypeErrorKind::Unify(x) => TypeErrorKind::Unify(x.dup()),
        TypeErrorKind::UnknownName(x) => TypeErrorKind::UnknownName(x.clone()),
        TypeErrorKind::ArityMismatch { name, expected, found } => {
            TypeErrorKind::ArityMismatch { name: name.clone(), expected: *expected, found: *found }
        },
        TypeErrorKind::NotCallable(x) => TypeErrorKind::NotCallable(x.dup()),
        TypeErrorKind::AmbiguousOperator { name, candidates } => {
            TypeErrorKind::AmbiguousOperator {
                name: name.clone(),
                candidates: dup_list(candidates),
            }
        },
        TypeErrorKind::MissingImpl { algebra, ty } => {
            TypeErrorKind::MissingImpl { algebra: algebra.clone(), ty: ty.clone() }
        },
        TypeErrorKind::Unresolved(x) => TypeErrorKind::Unresolved(x.clone()),
        TypeErrorKind::NotDeclaredByAlgebra { algebra, name } => {
            TypeErrorKind::NotDeclaredByAlgebra { algebra: algebra.clone(), name: name.clone() }
        },
        TypeErrorKind::UnknownStruct(x) => TypeErrorKind::UnknownStruct(x.clone()),
        TypeErrorKind::NoSuchField { struct_name, field } => {
            TypeErrorKind::NoSuchField { struct_name: struct_name.clone(), field: field.clone() }
        },
        TypeErrorKind::MissingField { struct_name, field } => {
            TypeErrorKind::MissingField { struct_name: struct_name.clone(), field: field.clone() }
        },
        TypeErrorKind::DuplicateField { struct_name, field } => {
            TypeErrorKind::DuplicateField { struct_name: struct_name.clone(), field: field.clone() }
        },
        TypeErrorKind::NoSuchMethod { struct_name, method } => {
            TypeErrorKind::NoSuchMethod { struct_name: struct_name.clone(), method: method.clone() }
        },
        TypeErrorKind::OverlappingImpls { algebra, a, b } => {
            TypeErrorKind::OverlappingImpls { algebra: algebra.clone(), a: a.clone(), b: b.clone() }
        },
        TypeErrorKind::TypeNameIsAnAlgebra { name } => {
            TypeErrorKind::TypeNameIsAnAlgebra { name: name.clone() }
        },
        TypeErrorKind::MonomorphizationFailed { algebra, method, tys } => {
            TypeErrorKind::MonomorphizationFailed {
                algebra: algebra.clone(),
                method: method.clone(),
                tys: tys.clone(),
            }
        },
        TypeErrorKind::GenericFnInstantiationFailed { name, tys, inner } => {
            TypeErrorKind::GenericFnInstantiationFailed {
                name: name.clone(),
                tys: tys.clone(),
                inner: Box::new(dup_error(inner)),
            }
        },
        TypeErrorKind::MissingFnBody { name } => {
            TypeErrorKind::MissingFnBody { name: name.clone() }
        },
        TypeErrorKind::MissingIntrinsicAttribute { name } => {
            TypeErrorKind::MissingIntrinsicAttribute { name: name.clone() }
        },
        TypeErrorKind::ExternFnCannotBeGeneric { name } => {
            TypeErrorKind::ExternFnCannotBeGeneric { name: name.clone() }
        },
        TypeErrorKind::AssignToImmutable { name } => {
            TypeErrorKind::AssignToImmutable { name: name.clone() }
        },
        TypeErrorKind::UnsatisfiableScheme { algebras } => {
            TypeErrorKind::UnsatisfiableScheme { algebras: dup_list(algebras) }
        },
        TypeErrorKind::AmbiguousDispatch { algebra, candidates } => {
            TypeErrorKind::AmbiguousDispatch {
                algebra: algebra.clone(),
                candidates: dup_list(candidates),
            }
        },
        TypeErrorKind::UnknownAlgebraMethod { algebra, method } => {
            TypeErrorKind::UnknownAlgebraMethod { algebra: algebra.clone(), method: method.clone() }
        },
        TypeErrorKind::BreakOutsideLoop => TypeErrorKind::BreakOutsideLoop,
        TypeErrorKind::ConstDivByZero { dividend } => {
            TypeErrorKind::ConstDivByZero { dividend: *dividend }
        },
        TypeErrorKind::VariadicStructNeedsTurbofish { struct_name, min_generics } => {
            TypeErrorKind::VariadicStructNeedsTurbofish {
                struct_name: struct_name.clone(),
                min_generics: *min_generics,
            }
        },
    };
    TypeError { span: e.span, kind }
}

impl Dup for TypeError {
    fn dup(&self) -> (r: Self) {
        dup_error(self)
    }
}

// ---- messages ----

/// What is added where a value was discarded by mistake.
pub open spec fn discard_hint() -> Seq<char> {
    " (note: `()` usually means a block's last expression was followed by a `;`, discarding its value — check whether that `;` should be removed so it becomes the block's tail instead)"@
}

/// The message of a failure to unify.
pub open spec fn unify_text(e: UnifyErrorV) -> Seq<char> {
    match e {
        UnifyErrorV::Mismatch(a, b) => {
            let text = "type mismatch: expected `"@ + ty_text(a) + "`, found `"@ + ty_text(b)
                + "`"@;
            if b == TyV::Con("()"@) && a != TyV::Con("()"@) {
                text + discard_hint()
            } else {
                text
            }
        },
        UnifyErrorV::Occurs(v, t) => "infinite type: `'t"@ + decimal(v as nat) + "` occurs in `"@
            + ty_text(t) + "`"@,
    }
}

/// The message of an error.
pub open spec fn kind_text(k: TypeErrorKindV) -> Seq<char>
    decreases k,
{
    match k {
        TypeErrorKindV::Unify(x) => unify_text(x),
        TypeErrorKindV::UnknownName(x) => "unknown identifier `"@ + x + "`"@,
        TypeErrorKindV::ArityMismatch { name, expected, found } => {
            "`"@ + name + "` expects "@ + decimal(expected as nat) + " argument(s), found "@
                + decimal(found as nat)
        },
        TypeErrorKindV::NotCallable(x) => "`"@ + ty_text(x) + "` is not callable"@,
        TypeErrorKindV::AmbiguousOperator { name, candidates } => {
            "`"@ + name + "` is ambiguous between: "@ + joined(candidates, ", "@)
        },
        TypeErrorKindV::MissingImpl { algebra, ty } => {
            let text = "no `impl "@ + algebra + "<"@ + ty + ">`"@;
            if ty == "()"@ {
                text + discard_hint()
            } else {
                text
            }
        },
        TypeErrorKindV::Unresolved(x) => "type could not be fully determined ("@ + x + ")"@,
        TypeErrorKindV::NotDeclaredByAlgebra { algebra, name } => {
            "`"@ + name + "` is not declared by `algebra "@ + algebra + "`"@
        },
        TypeErrorKindV::UnknownStruct(x) => "unknown struct `"@ + x + "`"@,
        TypeErrorKindV::NoSuchField { struct_name, field } => {
            "no field `"@ + field + "` on `"@ + struct_name + "`"@
        },
        TypeErrorKindV::MissingField { struct_name, field } => {
            "`struct "@ + struct_name + "` construction is missing field `"@ + field + "`"@
        },
        TypeErrorKindV::DuplicateField { struct_name, field } => {
            "field `"@ + field + "` given more than once constructing `struct "@ + struct_name
                + "`"@
        },
        TypeErrorKindV::NoSuchMethod { struct_name, method } => {
            "no method `"@ + method + "` on `"@ + struct_name + "`"@
        },
        TypeErrorKindV::OverlappingImpls { algebra, a, b } => {
            "overlapping impls: `impl "@ + algebra + "<"@ + a + ">` and `impl "@ + algebra + "<"@
                + b + ">` could both match the same type"@
        },
        TypeErrorKindV::TypeNameIsAnAlgebra { name } => {
            "`"@ + name + "` is an algebra, not a type — did you mean a concrete type it governs?"@
        },
        TypeErrorKindV::MonomorphizationFailed { algebra, method, tys } => {
            "`"@ + algebra + "::"@ + method + "` cannot be specialized for ("@ + tys
                + "): its generic impl body doesn't type-check at this instantiation"@
        },
        TypeErrorKindV::GenericFnInstantiationFailed { name, tys, inner } => {
            "`"@ + name + "` cannot be specialized for ("@ + tys + "): "@ + kind_text(inner.kind)
        },
        TypeErrorKindV::MissingFnBody { name } => {
            "`"@ + name + "` has no body — a `fn` may only omit one if it's `extern`"@
        },
        TypeErrorKindV::MissingIntrinsicAttribute { name } => "`"@ + name
            + "` has no body and isn't `extern` — an algebra-impl method without a body must be"@,
        TypeErrorKindV::ExternFnCannotBeGeneric { name } => "`extern fn "@ + name
            + "` cannot be generic — only concrete, monomorphized signatures can cross a C-ABI boundary"@,
        TypeErrorKindV::AssignToImmutable { name } => {
            "cannot assign to `"@ + name + "` — declared with `let`, not `let mut`"@
        },
        TypeErrorKindV::UnsatisfiableScheme { algebras } => {
            "no single type can ever satisfy all of: "@ + joined(algebras, ", "@)
                + " — this generic can never be called"@
        },
        TypeErrorKindV::AmbiguousDispatch { algebra, candidates } => {
            "ambiguous dispatch for `algebra "@ + algebra + "`: could resolve to any of "@
                + joined(candidates, ", "@)
                + " — pin the remaining generic(s) explicitly (e.g. `name::<...>(...)`)"@
        },
        TypeErrorKindV::UnknownAlgebraMethod { algebra, method } => {
            "`algebra "@ + algebra + "` has no method `"@ + method + "` at this arity"@
        },
        TypeErrorKindV::BreakOutsideLoop => "`break` outside a loop"@,
        TypeErrorKindV::ConstDivByZero { dividend } => {
            "division by zero in a const-generic expression: `"@ + decimal(dividend as nat)
                + " / 0`"@
        },
        TypeErrorKindV::VariadicStructNeedsTurbofish { struct_name, min_generics } => {
            "`"@ + struct_name
                + "` has a variadic generic — constructing it needs an explicit turbofish with at least "@
                + decimal(min_generics as nat) + " argument(s) (e.g. `"@ + struct_name
                + "::<...>(...)`); inferring a pack's own arity from field values isn't supported yet"@
        },
    }
}

fn append_discard_hint(out: &mut String)
    ensures
        final(out)@ == old(out)@ + discard_hint(),
{
    out.append(
        " (note: `()` usually means a block's last expression was followed by a `;`, discarding its value — check whether that `;` should be removed so it becomes the block's tail instead)",
    );
}

impl UnifyError {
    /// The message of the failure.
    pub fn to_text(&self) -> (r: String)
        ensures
            r@ == unify_text(self@),
    {
        match self {
            UnifyError::Mismatch(a, b) => {
                let mut out: String = "type mismatch: expected `".to_owned();
                out.append(a.to_text().as_str());
                out.append("`, found `");
                out.append(b.to_text().as_str());
                out.append("`");
                if is_unit(b) && !is_unit(a) {
                    append_discard_hint(&mut out);
                }
                out
            },
            UnifyError::Occurs(v, t) => {
                let mut out: String = "infinite type: `'t".to_owned();
                out.append(decimal_text(v.0 as u64).as_str());
                out.append("` occurs in `");
                out.append(t.to_text().as_str());
                out.append("`");
                out
            },
        }
    }
}

fn kind_message(k: &TypeErrorKind) -> (r: String)
    ensures
        r@ == kind_text(kind_view(*k)),
    decreases k,
{
    match k {
        TypeErrorKind::Unify(x) => x.to_text(),
        TypeErrorKind::UnknownName(x) => {
            let mut out: String = "unknown identifier `".to_owned();
            out.append(x.as_str());
            out.append("`");
            out
        },
        TypeErrorKind::ArityMismatch { name, expected, found } => {
            let mut out: String = "`".to_owned();
            out.append(name.as_str());
            out.append("` expects ");
            out.append(decimal_text(*expected as u64).as_str());
            out.append(" argument(s), found ");
            out.append(decimal_text(*found as u64).as_str());
            out
        },
        TypeErrorKind::NotCallable(x) => {
            let mut out: String = "`".to_owned();
            out.append(x.to_text().as_str());
            out.append("` is not callable");
            out
        },
        TypeErrorKind::AmbiguousOperator { name, candidates } => {
            let mut out: String = "`".to_owned();
            out.append(name.as_str());
            out.append("` is ambiguous between: ");
            out.append(join(candidates, ", ").as_str());
            out
        },
        TypeErrorKind::MissingImpl { algebra, ty } => {
            let mut out: String = "no `impl ".to_owned();
            out.append(algebra.as_str());
            out.append("<");
            out.append(ty.as_str());
            out.append(">`");
            if same(ty.as_str(), "()") {
                append_discard_hint(&mut out);
            }
            out
        },
        TypeErrorKind::Unresolved(x) => {
            let mut out: String = "type could not be fully determined (".to_owned();
            out.append(x.as_str());
            out.append(")");
            out
        },
        TypeErrorKind::NotDeclaredByAlgebra { algebra, name } => {
            let mut out: String = "`".to_owned();
            out.append(name.as_str());
            out.append("` is not declared by `algebra ");
            out.append(algebra.as_str());
            out.append("`");
            out
        },
        TypeErrorKind::UnknownStruct(x) => {
            let mut out: String = "unknown struct `".to_owned();
            out.append(x.as_str());
            out.append("`");
            out
        },
        TypeErrorKind::NoSuchField { struct_name, field } => {
            let mut out: String = "no field `".to_owned();
            out.append(field.as_str());
            out.append("` on `");
            out.append(struct_name.as_str());
            out.append("`");
            out
        },
        TypeErrorKind::MissingField { struct_name, field } => {
            let mut out: String = "`struct ".to_owned();
            out.append(struct_name.as_str());
            out.append("` construction is missing field `");
            out.append(field.as_str());
            out.append("`");
            out
        },
        TypeErrorKind::DuplicateField { struct_name, field } => {
            let mut out: String = "field `".to_owned();
            out.append(field.as_str());
            out.append("` given more than once constructing `struct ");
            out.append(struct_name.as_str());
            out.append("`");
            out
        },
        TypeErrorKind::NoSuchMethod { struct_name, method } => {
            let mut out: String = "no method `".to_owned();
            out.append(method.as_str());
            out.append("` on `");
            out.append(struct_name.as_str());
            out.append("`");
            out
        },
        TypeErrorKind::OverlappingImpls { algebra, a, b } => {
            let mut out: String = "overlapping impls: `impl ".to_owned();
            out.append(algebra.as_str());
            out.append("<");
            out.append(a.as_str());
            out.append(">` and `impl ");
            out.append(algebra.as_str());
            out.append("<");
            out.append(b.as_str());
            out.append(">` could both match the same type");
            out
        },
        TypeErrorKind::TypeNameIsAnAlgebra { name } => {
            let mut out: String = "`".to_owned();
            out.append(name.as_str());
            out.append("` is an algebra, not a type — did you mean a concrete type it governs?");
            out
        },
        TypeErrorKind::MonomorphizationFailed { algebra, method, tys } => {
            let mut out: String = "`".to_owned();
            out.append(algebra.as_str());
            out.append("::");
            out.append(method.as_str());
            out.append("` cannot be specialized for (");
            out.append(tys.as_str());
            out.append("): its generic impl body doesn't type-check at this instantiation");
            out
        },
        TypeErrorKind::GenericFnInstantiationFailed { name, tys, inner } => {
            let mut out: String = "`".to_owned();
            out.append(name.as_str());
            out.append("` cannot be specialized for (");
            out.append(tys.as_str());
            out.append("): ");
            out.append(kind_message(&inner.kind).as_str());
            out
        },
        TypeErrorKind::MissingFnBody { name } => {
            let mut out: String = "`".to_owned();
            out.append(name.as_str());
            out.append("` has no body — a `fn` may only omit one if it's `extern`");
            out
        },
        TypeErrorKind::MissingIntrinsicAttribute { name } => {
            let mut out: String = "`".to_owned();
            out.append(name.as_str());
            out.append(
                "` has no body and isn't `extern` — an algebra-impl method without a body must be",
            );
            out
        },
        TypeErrorKind::ExternFnCannotBeGeneric { name } => {
            let mut out: String = "`extern fn ".to_owned();
            out.append(name.as_str());
            out.append(
                "` cannot be generic — only concrete, monomorphized signatures can cross a C-ABI boundary",
            );
            out
        },
        TypeErrorKind::AssignToImmutable { name } => {
            let mut out: String = "cannot assign to `".to_owned();
            out.append(name.as_str());
            out.append("` — declared with `let`, not `let mut`");
            out
        },
        TypeErrorKind::UnsatisfiableScheme { algebras } => {
            let mut out: String = "no single type can ever satisfy all of: ".to_owned();
            out.append(join(algebras, ", ").as_str());
            out.append(" — this generic can never be called");
            out
        },
        TypeErrorKind::AmbiguousDispatch { algebra, candidates } => {
            let mut out: String = "ambiguous dispatch for `algebra ".to_owned();
            out.append(algebra.as_str());
            out.append("`: could resolve to any of ");
            out.append(join(candidates, ", ").as_str());
            out.append(" — pin the remaining generic(s) explicitly (e.g. `name::<...>(...)`)");
            out
        },
        TypeErrorKind::UnknownAlgebraMethod { algebra, method } => {
            let mut out: String = "`algebra ".to_owned();
            out.append(algebra.as_str());
            out.append("` has no method `");
            out.append(method.as_str());
            out.append("` at this arity");
            out
        },
        TypeErrorKind::BreakOutsideLoop => "`break` outside a loop".to_owned(),
        TypeErrorKind::ConstDivByZero { dividend } => {
            let mut out: String = "division by zero in a const-generic expression: `".to_owned();
            out.append(decimal_text(*dividend).as_str());
            out.append(" / 0`");
            out
        },
        TypeErrorKind::VariadicStructNeedsTurbofish { struct_name, min_generics } => {
            let mut out: String = "`".to_owned();
            out.append(struct_name.as_str());
            out.append(
                "` has a variadic generic — constructing it needs an explicit turbofish with at least ",
            );
            out.append(decimal_text(*min_generics as u64).as_str());
            out.append(" argument(s) (e.g. `");
            out.append(struct_name.as_str());
            out.append(
                "::<...>(...)`); inferring a pack's own arity from field values isn't supported yet",
            );
            out
        },
    }
}

impl TypeError {
    /// The message of the error.
    pub fn to_text(&self) -> (r: String)
        ensures
            r@ == kind_text(self@.kind),
    {
        kind_message(&self.kind)
    }
}

/// A message for the user, and the place that it is about.
#[derive(PartialEq, Eq, Debug)]
pub struct Diagnostic {
    pub message: String,
    pub span: Span,
}

impl Diagnostic {
    /// What is shown of an error.
    pub fn of(err: &TypeError) -> (r: Self)
        ensures
            r.message@ == kind_text(err@.kind),
            r.span == err.span,
    {
        Diagnostic { message: err.to_text(), span: err.span }
    }
}

} // verus!
