//! Parse trees into declarations.

use vstd::prelude::*;

use crate::ast::{
    following, AlgebraDecl, AlgebraItem, AlgebraItemKind, Attribute, AxiomDecl, Block,
    DerivativeRuleDecl, Field, FileId, FnDecl, FnSig, GenericParam, ImplDecl, InherentImplDecl,
    Item, ItemKind, NodeId, Param, Path, Program, Span, StructDecl, Type,
};
use crate::ast_views::TypeV;
use crate::decl_views::{
    AlgebraDeclV, AlgebraItemKindV, AlgebraItemV, AttributeV, FieldV, FnDeclV, FnSigV,
    GenericParamV, ImplDeclV, InherentImplDeclV, ItemKindV, ItemV, NamedExprV, ProgramV,
    StructDeclV,
};
use crate::lang::opt_text;
use crate::lower::{made, made_all, Lowerer};
use crate::lower_specs::{
    low_block, low_expr, low_params_at, low_type, low_type_at, span_of, LowV,
};
use crate::table::{group_views, views};
use crate::tree::{child_texts, is_at, stands_at, texts_of, Rule, Tree};

verus! {

broadcast use group_views;

/// The place after the attributes that start at a place.
pub open spec fn attrs_end(children: Vec<Tree>, i: nat) -> nat
    decreases children@.len() - i,
{
    if is_at(children, i as int, Rule::Attribute) {
        attrs_end(children, i + 1)
    } else {
        i
    }
}

/// An attribute: a name and what is in its brackets.
pub open spec fn low_attribute(t: Tree, f: FileId) -> Option<AttributeV> {
    if t.children@.len() == 0 {
        None
    } else {
        Some(
            AttributeV {
                name: t.children@[0].text@,
                args: texts_of(t.children, 1),
                span: span_of(t, f),
            },
        )
    }
}

/// The attributes of the first `n` children.
pub open spec fn low_attributes(children: Vec<Tree>, n: nat, f: FileId) -> Option<Seq<AttributeV>>
    decreases n,
{
    if n == 0 || n > children@.len() {
        Some(Seq::empty())
    } else {
        match low_attributes(children, (n - 1) as nat, f) {
            None => None,
            Some(before) => match low_attribute(children@[n - 1], f) {
                None => None,
                Some(a) => Some(before.push(a)),
            },
        }
    }
}

/// The place after a child that may be there.
pub open spec fn past(children: Vec<Tree>, i: nat, rule: Rule) -> nat {
    if is_at(children, i as int, rule) {
        i + 1
    } else {
        i
    }
}

/// The symbol that a keyword may name.
pub open spec fn symbol_at(children: Vec<Tree>, i: nat, rule: Rule) -> Option<Seq<char>> {
    if is_at(children, i as int, rule) && children@[i as int].children@.len() > 0 {
        Some(children@[i as int].children@[0].text@)
    } else {
        None
    }
}

/// A generic: a constant where a type follows its name, otherwise a type with the
/// bounds that follow it.
pub open spec fn low_generic_param(t: Tree, f: FileId, id: u32) -> Option<LowV<GenericParamV>> {
    let variadic = is_at(t.children, 1, Rule::PackMarker);
    let at: int = if variadic {
        2
    } else {
        1
    };
    if t.children@.len() == 0 || t.children@.len() > at + 1 {
        None
    } else {
        let name = t.children@[0].text@;
        if t.children@.len() == at {
            Some(
                LowV { value: GenericParamV::Type { name, bounds: Seq::empty(), variadic }, next: id },
            )
        } else if t.children@[at].rule == Rule::Type {
            match low_type(t.children@[at], f, id) {
                None => None,
                Some(ty) => Some(
                    LowV {
                        value: GenericParamV::Const { name, ty: ty.value, variadic },
                        next: ty.next,
                    },
                ),
            }
        } else {
            Some(
                LowV {
                    value: GenericParamV::Type {
                        name,
                        bounds: texts_of(t.children@[at].children, 0),
                        variadic,
                    },
                    next: id,
                },
            )
        }
    }
}

/// The first `n` generics.
pub open spec fn low_generics(children: Vec<Tree>, n: nat, f: FileId, id: u32) -> Option<
    LowV<Seq<GenericParamV>>,
>
    decreases n,
{
    if n == 0 || n > children@.len() {
        Some(LowV { value: Seq::empty(), next: id })
    } else {
        match low_generics(children, (n - 1) as nat, f, id) {
            None => None,
            Some(before) => match low_generic_param(children@[n - 1], f, before.next) {
                None => None,
                Some(g) => Some(LowV { value: before.value.push(g.value), next: g.next }),
            },
        }
    }
}

/// The generics at a place, which may be none.
pub open spec fn low_generics_at(children: Vec<Tree>, i: nat, f: FileId, id: u32) -> Option<
    LowV<Seq<GenericParamV>>,
> {
    if is_at(children, i as int, Rule::GenericParams) {
        low_generics(children@[i as int].children, children@[i as int].children@.len(), f, id)
    } else {
        Some(LowV { value: Seq::empty(), next: id })
    }
}

/// A function: attributes, keywords, a name, generics, parameters, a return type and
/// a body, of which all but the name may be missing.
pub open spec fn low_fn_decl(t: Tree, f: FileId, id: u32) -> Option<LowV<FnDeclV>> {
    let a = attrs_end(t.children, 0);
    let x = past(t.children, a, Rule::ExternKw);
    let name_at = past(t.children, x, Rule::ExportKw);
    if name_at >= t.children@.len() {
        None
    } else {
        let g = name_at + 1;
        let p = past(t.children, g, Rule::GenericParams);
        let r = past(t.children, p, Rule::ParamList);
        let b = past(t.children, r, Rule::Type);
        match low_attributes(t.children, a, f) {
            None => None,
            Some(attrs) => match low_generics_at(t.children, g, f, id) {
                None => None,
                Some(generics) => match low_params_at(t.children, p, f, generics.next) {
                    None => None,
                    Some(params) => match low_type_at(t.children, r, f, params.next) {
                        None => None,
                        Some(ret) => {
                            let body = if b < t.children@.len() {
                                match low_block(t.children@[b as int], f, ret.next) {
                                    None => None,
                                    Some(block) => Some(
                                        LowV { value: Some(block.value), next: block.next },
                                    ),
                                }
                            } else {
                                Some(LowV { value: None, next: ret.next })
                            };
                            match body {
                                None => None,
                                Some(body) => Some(
                                    LowV {
                                        value: FnDeclV {
                                            name: t.children@[name_at as int].text@,
                                            attrs,
                                            is_extern: is_at(
                                                t.children,
                                                a as int,
                                                Rule::ExternKw,
                                            ),
                                            extern_symbol: symbol_at(
                                                t.children,
                                                a,
                                                Rule::ExternKw,
                                            ),
                                            is_export: is_at(
                                                t.children,
                                                x as int,
                                                Rule::ExportKw,
                                            ),
                                            export_symbol: symbol_at(
                                                t.children,
                                                x,
                                                Rule::ExportKw,
                                            ),
                                            generics: generics.value,
                                            params: params.value,
                                            ret: ret.value,
                                            body: body.value,
                                            derivative_of: None,
                                        },
                                        next: body.next,
                                    },
                                ),
                            }
                        },
                    },
                },
            },
        }
    }
}

/// A function that is to be the derivative of another.
pub open spec fn low_derive_decl(t: Tree) -> Option<FnDeclV> {
    if t.children@.len() < 2 {
        None
    } else {
        Some(
            FnDeclV {
                name: t.children@[0].text@,
                attrs: Seq::empty(),
                is_extern: false,
                extern_symbol: None,
                is_export: false,
                export_symbol: None,
                generics: Seq::empty(),
                params: Seq::empty(),
                ret: None,
                body: None,
                derivative_of: Some(t.children@[1].text@),
            },
        )
    }
}

/// The functions from a place up to the `n`th child.
pub open spec fn low_fns(children: Vec<Tree>, from: nat, n: nat, f: FileId, id: u32) -> Option<
    LowV<Seq<FnDeclV>>,
>
    decreases n,
{
    if n <= from || n > children@.len() {
        Some(LowV { value: Seq::empty(), next: id })
    } else {
        match low_fns(children, from, (n - 1) as nat, f, id) {
            None => None,
            Some(before) => match low_fn_decl(children@[n - 1], f, before.next) {
                None => None,
                Some(d) => Some(LowV { value: before.value.push(d.value), next: d.next }),
            },
        }
    }
}

/// The first `n` fields of a struct.
pub open spec fn low_fields(children: Vec<Tree>, n: nat, f: FileId, id: u32) -> Option<
    LowV<Seq<FieldV>>,
>
    decreases n,
{
    if n == 0 || n > children@.len() {
        Some(LowV { value: Seq::empty(), next: id })
    } else {
        match low_fields(children, (n - 1) as nat, f, id) {
            None => None,
            Some(before) => {
                let field = children@[n - 1];
                if field.children@.len() < 2 {
                    None
                } else {
                    match low_type(field.children@[1], f, before.next) {
                        None => None,
                        Some(ty) => Some(
                            LowV {
                                value: before.value.push(
                                    FieldV { name: field.children@[0].text@, ty: ty.value },
                                ),
                                next: ty.next,
                            },
                        ),
                    }
                }
            },
        }
    }
}

/// A struct: a name, generics and fields.
pub open spec fn low_struct_decl(t: Tree, f: FileId, id: u32) -> Option<LowV<StructDeclV>> {
    if t.children@.len() == 0 {
        None
    } else {
        let at = past(t.children, 1, Rule::GenericParams) as int;
        match low_generics_at(t.children, 1, f, id) {
            None => None,
            Some(generics) => {
                let fields = if at < t.children@.len() {
                    low_fields(
                        t.children@[at].children,
                        t.children@[at].children@.len(),
                        f,
                        generics.next,
                    )
                } else {
                    Some(LowV { value: Seq::empty(), next: generics.next })
                };
                match fields {
                    None => None,
                    Some(fields) => Some(
                        LowV {
                            value: StructDeclV {
                                name: t.children@[0].text@,
                                generics: generics.value,
                                fields: fields.value,
                            },
                            next: fields.next,
                        },
                    ),
                }
            },
        }
    }
}

/// A function that an algebra declares.
pub open spec fn low_fn_sig(t: Tree, f: FileId, id: u32) -> Option<LowV<FnSigV>> {
    if t.children@.len() == 0 {
        None
    } else {
        let at = past(t.children, 1, Rule::ParamList) as int;
        match low_params_at(t.children, 1, f, id) {
            None => None,
            Some(params) => {
                let name = t.children@[0].text@;
                if at < t.children@.len() {
                    match low_type(t.children@[at], f, params.next) {
                        None => None,
                        Some(ty) => Some(
                            LowV {
                                value: FnSigV { name, params: params.value, ret: Some(ty.value) },
                                next: ty.next,
                            },
                        ),
                    }
                } else {
                    Some(
                        LowV {
                            value: FnSigV { name, params: params.value, ret: None },
                            next: params.next,
                        },
                    )
                }
            },
        }
    }
}

/// A name, parameters and an expression.
pub open spec fn low_named_expr(t: Tree, f: FileId, id: u32) -> Option<LowV<NamedExprV>> {
    if t.children@.len() == 0 {
        None
    } else {
        let at = past(t.children, 1, Rule::ParamList) as int;
        match low_params_at(t.children, 1, f, id) {
            None => None,
            Some(params) => if at >= t.children@.len() {
                None
            } else {
                match low_expr(t.children@[at], f, params.next) {
                    None => None,
                    Some(body) => Some(
                        LowV {
                            value: NamedExprV {
                                name: t.children@[0].text@,
                                params: params.value,
                                body: body.value,
                            },
                            next: body.next,
                        },
                    ),
                }
            },
        }
    }
}

/// What an algebra declares: a function, a law or a rule for a derivative.
pub open spec fn low_algebra_item(t: Tree, f: FileId, id: u32) -> Option<LowV<AlgebraItemV>> {
    if t.children@.len() == 0 {
        None
    } else {
        let inner = t.children@[0];
        let kind = match inner.rule {
            Rule::FnSig => match low_fn_sig(inner, f, id) {
                None => None,
                Some(s) => Some(LowV { value: AlgebraItemKindV::FnSig(s.value), next: s.next }),
            },
            Rule::AxiomDecl => match low_named_expr(inner, f, id) {
                None => None,
                Some(d) => Some(LowV { value: AlgebraItemKindV::Axiom(d.value), next: d.next }),
            },
            Rule::DerivativeRuleDecl => match low_named_expr(inner, f, id) {
                None => None,
                Some(d) => Some(
                    LowV { value: AlgebraItemKindV::DerivativeRule(d.value), next: d.next },
                ),
            },
            _ => None,
        };
        match kind {
            None => None,
            Some(k) => Some(
                LowV {
                    value: AlgebraItemV {
                        id: NodeId(k.next),
                        span: span_of(t, f),
                        kind: k.value,
                    },
                    next: following(k.next),
                },
            ),
        }
    }
}

/// What an algebra declares from a place up to the `n`th child.
pub open spec fn low_algebra_items(
    children: Vec<Tree>,
    from: nat,
    n: nat,
    f: FileId,
    id: u32,
) -> Option<LowV<Seq<AlgebraItemV>>>
    decreases n,
{
    if n <= from || n > children@.len() {
        Some(LowV { value: Seq::empty(), next: id })
    } else {
        match low_algebra_items(children, from, (n - 1) as nat, f, id) {
            None => None,
            Some(before) => match low_algebra_item(children@[n - 1], f, before.next) {
                None => None,
                Some(d) => Some(LowV { value: before.value.push(d.value), next: d.next }),
            },
        }
    }
}

/// The bounds at a place, which may be none.
pub open spec fn bounds_at(children: Vec<Tree>, i: nat) -> Seq<Seq<char>> {
    if is_at(children, i as int, Rule::BoundList) {
        texts_of(children@[i as int].children, 0)
    } else {
        Seq::empty()
    }
}

/// An algebra: a name, generics, bounds and what it declares.
pub open spec fn low_algebra_decl(t: Tree, f: FileId, id: u32) -> Option<LowV<AlgebraDeclV>> {
    if t.children@.len() == 0 {
        None
    } else {
        let b = past(t.children, 1, Rule::GenericParams);
        let i = past(t.children, b, Rule::BoundList);
        match low_generics_at(t.children, 1, f, id) {
            None => None,
            Some(generics) => match low_algebra_items(
                t.children,
                i,
                t.children@.len(),
                f,
                generics.next,
            ) {
                None => None,
                Some(items) => Some(
                    LowV {
                        value: AlgebraDeclV {
                            name: t.children@[0].text@,
                            generics: generics.value,
                            bounds: bounds_at(t.children, b),
                            items: items.value,
                        },
                        next: items.next,
                    },
                ),
            },
        }
    }
}

/// The place after the types that start at a place.
pub open spec fn types_end(children: Vec<Tree>, i: nat) -> nat
    decreases children@.len() - i,
{
    if is_at(children, i as int, Rule::Type) {
        types_end(children, i + 1)
    } else {
        i
    }
}

/// The types from a place up to the `n`th child.
pub open spec fn low_targets(children: Vec<Tree>, from: nat, n: nat, f: FileId, id: u32) -> Option<
    LowV<Seq<TypeV>>,
>
    decreases n,
{
    if n <= from || n > children@.len() {
        Some(LowV { value: Seq::empty(), next: id })
    } else {
        match low_targets(children, from, (n - 1) as nat, f, id) {
            None => None,
            Some(before) => match low_type(children@[n - 1], f, before.next) {
                None => None,
                Some(ty) => Some(LowV { value: before.value.push(ty.value), next: ty.next }),
            },
        }
    }
}

/// An impl of an algebra for one or more types.
pub open spec fn low_algebra_impl(t: Tree, f: FileId, id: u32) -> Option<LowV<ImplDeclV>> {
    let a = attrs_end(t.children, 0);
    let n = past(t.children, a, Rule::GenericParams);
    if n + 1 >= t.children@.len() {
        None
    } else {
        let e = types_end(t.children, n + 2);
        match low_attributes(t.children, a, f) {
            None => None,
            Some(attrs) => match low_generics_at(t.children, a, f, id) {
                None => None,
                Some(generics) => match low_type(t.children@[n as int + 1], f, generics.next) {
                    None => None,
                    Some(target) => match low_targets(t.children, n + 2, e, f, target.next) {
                        None => None,
                        Some(extra) => match low_fns(
                            t.children,
                            e,
                            t.children@.len(),
                            f,
                            extra.next,
                        ) {
                            None => None,
                            Some(fns) => Some(
                                LowV {
                                    value: ImplDeclV {
                                        attrs,
                                        algebra: t.children@[n as int].text@,
                                        generics: generics.value,
                                        target: target.value,
                                        extra_targets: extra.value,
                                        fns: fns.value,
                                    },
                                    next: fns.next,
                                },
                            ),
                        },
                    },
                },
            },
        }
    }
}

/// The methods that a type has by itself.
pub open spec fn low_inherent_impl(t: Tree, f: FileId, id: u32) -> Option<LowV<InherentImplDeclV>> {
    let n = past(t.children, 0, Rule::GenericParams);
    if n >= t.children@.len() {
        None
    } else {
        match low_generics_at(t.children, 0, f, id) {
            None => None,
            Some(generics) => match low_type(t.children@[n as int], f, generics.next) {
                None => None,
                Some(target) => match low_fns(
                    t.children,
                    n + 1,
                    t.children@.len(),
                    f,
                    target.next,
                ) {
                    None => None,
                    Some(fns) => Some(
                        LowV {
                            value: InherentImplDeclV {
                                generics: generics.value,
                                target: target.value,
                                fns: fns.value,
                            },
                            next: fns.next,
                        },
                    ),
                },
            },
        }
    }
}

/// What an item declares.
pub open spec fn low_item_kind(inner: Tree, f: FileId, id: u32) -> Option<LowV<ItemKindV>> {
    match inner.rule {
        Rule::UseDecl => if inner.children@.len() == 0 {
            None
        } else {
            Some(
                LowV {
                    value: ItemKindV::Use(texts_of(inner.children@[0].children, 0)),
                    next: id,
                },
            )
        },
        Rule::StructDecl => match low_struct_decl(inner, f, id) {
            None => None,
            Some(d) => Some(LowV { value: ItemKindV::Struct(d.value), next: d.next }),
        },
        Rule::AlgebraDecl => match low_algebra_decl(inner, f, id) {
            None => None,
            Some(d) => Some(LowV { value: ItemKindV::Algebra(d.value), next: d.next }),
        },
        Rule::ImplDecl => if is_at(inner.children, 0, Rule::AlgebraImpl) {
            match low_algebra_impl(inner.children@[0], f, id) {
                None => None,
                Some(d) => Some(LowV { value: ItemKindV::Impl(d.value), next: d.next }),
            }
        } else if is_at(inner.children, 0, Rule::InherentImpl) {
            match low_inherent_impl(inner.children@[0], f, id) {
                None => None,
                Some(d) => Some(LowV { value: ItemKindV::InherentImpl(d.value), next: d.next }),
            }
        } else {
            None
        },
        Rule::FnDecl => match low_fn_decl(inner, f, id) {
            None => None,
            Some(d) => Some(LowV { value: ItemKindV::Fn(d.value), next: d.next }),
        },
        Rule::DeriveDecl => match low_derive_decl(inner) {
            None => None,
            Some(d) => Some(LowV { value: ItemKindV::Fn(d), next: id }),
        },
        _ => None,
    }
}

/// An item.
pub open spec fn low_item(t: Tree, f: FileId, id: u32) -> Option<LowV<ItemV>> {
    if t.children@.len() == 0 {
        None
    } else {
        match low_item_kind(t.children@[0], f, id) {
            None => None,
            Some(k) => Some(
                LowV {
                    value: ItemV { id: NodeId(k.next), span: span_of(t, f), kind: k.value },
                    next: following(k.next),
                },
            ),
        }
    }
}

/// The items among the first `n` children; the others do not count.
pub open spec fn low_items(children: Vec<Tree>, n: nat, f: FileId, id: u32) -> Option<
    LowV<Seq<ItemV>>,
>
    decreases n,
{
    if n == 0 || n > children@.len() {
        Some(LowV { value: Seq::empty(), next: id })
    } else {
        match low_items(children, (n - 1) as nat, f, id) {
            None => None,
            Some(before) => if children@[n - 1].rule == Rule::Item {
                match low_item(children@[n - 1], f, before.next) {
                    None => None,
                    Some(d) => Some(LowV { value: before.value.push(d.value), next: d.next }),
                }
            } else {
                Some(before)
            },
        }
    }
}

/// A program.
pub open spec fn low_program(t: Tree, f: FileId, id: u32) -> Option<LowV<ProgramV>> {
    if t.rule != Rule::Program {
        None
    } else {
        match low_items(t.children, t.children@.len(), f, id) {
            None => None,
            Some(items) => Some(
                LowV { value: ProgramV { items: items.value }, next: items.next },
            ),
        }
    }
}

/// The place after the attributes that start at a place.
fn find_attrs_end(children: &Vec<Tree>) -> (r: usize)
    ensures
        r == attrs_end(*children, 0),
        r <= children@.len(),
{
    let mut i: usize = 0;
    while i < children.len() && stands_at(children, i, Rule::Attribute)
        invariant
            i <= children@.len(),
            attrs_end(*children, 0) == attrs_end(*children, i as nat),
        decreases children@.len() - i,
    {
        i = i + 1;
    }
    i
}

fn skip(children: &Vec<Tree>, i: usize, rule: Rule) -> (r: usize)
    requires
        i <= children@.len(),
    ensures
        r == past(*children, i as nat, rule),
        i <= r <= children@.len(),
{
    if i < children.len() && stands_at(children, i, rule) {
        i + 1
    } else {
        i
    }
}

fn find_symbol(children: &Vec<Tree>, i: usize, rule: Rule) -> (r: Option<String>)
    ensures
        opt_text(r) == symbol_at(*children, i as nat, rule),
{
    if stands_at(children, i, rule) && children[i].children.len() > 0 {
        Some(children[i].children[0].text.clone())
    } else {
        None
    }
}

impl Lowerer {
    /// An attribute.
    pub fn lower_attribute(&self, t: &Tree) -> (r: Option<Attribute>)
        ensures
            match r {
                Some(a) => low_attribute(*t, self.file) == Some(a@),
                None => low_attribute(*t, self.file) is None,
            },
    {
        if t.children.len() == 0 {
            return None;
        }
        Some(
            Attribute {
                name: t.children[0].text.clone(),
                args: child_texts(&t.children, 1),
                span: self.span_of(t),
            },
        )
    }

    fn lower_attributes(&self, children: &Vec<Tree>, count: usize) -> (r: Option<Vec<Attribute>>)
        requires
            count <= children@.len(),
        ensures
            match r {
                Some(a) => low_attributes(*children, count as nat, self.file) == Some(views(a@)),
                None => low_attributes(*children, count as nat, self.file) is None,
            },
    {
        let mut out: Vec<Attribute> = Vec::new();
        let mut fine: bool = true;
        let mut i: usize = 0;
        while i < count
            invariant
                i <= count <= children@.len(),
                match low_attributes(*children, i as nat, self.file) {
                    Some(w) => fine && w == views(out@),
                    None => !fine,
                },
            decreases count - i,
        {
            if fine {
                match self.lower_attribute(&children[i]) {
                    Some(a) => {
                        out.push(a);
                    },
                    None => {
                        fine = false;
                    },
                }
            }
            i = i + 1;
        }
        if fine {
            Some(out)
        } else {
            None
        }
    }

    /// A generic.
    pub fn lower_generic_param(&mut self, t: &Tree) -> (r: Option<GenericParam>)
        ensures
            made(
                r,
                *final(self),
                low_generic_param(*t, old(self).file, old(self).ids.upcoming),
            ),
            final(self).file == old(self).file,
    {
        let variadic: bool = stands_at(&t.children, 1, Rule::PackMarker);
        let at: usize = if variadic { 2 } else { 1 };
        if t.children.len() == 0 || t.children.len() > at + 1 {
            return None;
        }
        let name: String = t.children[0].text.clone();
        if t.children.len() == at {
            return Some(GenericParam::Type { name, bounds: Vec::new(), variadic });
        }
        if t.children[at].rule == Rule::Type {
            match self.lower_type(&t.children[at]) {
                None => None,
                Some(ty) => Some(GenericParam::Const { name, ty, variadic }),
            }
        } else {
            let bounds: Vec<String> = self.lower_bound_list(&t.children[at]);
            Some(GenericParam::Type { name, bounds, variadic })
        }
    }

    /// The names of bounds.
    pub fn lower_bound_list(&self, t: &Tree) -> (r: Vec<String>)
        ensures
            views(r@) == texts_of(t.children, 0),
    {
        child_texts(&t.children, 0)
    }

    /// Generics.
    pub fn lower_generic_params(&mut self, children: &Vec<Tree>) -> (r: Option<Vec<GenericParam>>)
        ensures
            made_all(
                r,
                *final(self),
                low_generics(
                    *children,
                    children@.len(),
                    old(self).file,
                    old(self).ids.upcoming,
                ),
            ),
            final(self).file == old(self).file,
    {
        let ghost f = self.file;
        let ghost id = self.ids.upcoming;
        let mut out: Vec<GenericParam> = Vec::new();
        let mut fine: bool = true;
        let mut i: usize = 0;
        while i < children.len()
            invariant
                i <= children@.len(),
                self.file == f,
                match low_generics(*children, i as nat, f, id) {
                    Some(w) => fine && w.value == views(out@) && w.next == self.ids.upcoming,
                    None => !fine,
                },
            decreases children.len() - i,
        {
            if fine {
                match self.lower_generic_param(&children[i]) {
                    Some(g) => {
                        out.push(g);
                    },
                    None => {
                        fine = false;
                    },
                }
            }
            i = i + 1;
        }
        if fine {
            Some(out)
        } else {
            None
        }
    }

    fn lower_generics_at(&mut self, children: &Vec<Tree>, i: usize) -> (r: Option<
        Vec<GenericParam>,
    >)
        ensures
            made_all(
                r,
                *final(self),
                low_generics_at(*children, i as nat, old(self).file, old(self).ids.upcoming),
            ),
            final(self).file == old(self).file,
    {
        if stands_at(children, i, Rule::GenericParams) {
            self.lower_generic_params(&children[i].children)
        } else {
            Some(Vec::new())
        }
    }

    /// A function.
    #[verifier::rlimit(40)]
    pub fn lower_fn_decl(&mut self, t: &Tree) -> (r: Option<FnDecl>)
        ensures
            made(r, *final(self), low_fn_decl(*t, old(self).file, old(self).ids.upcoming)),
            final(self).file == old(self).file,
    {
        let a: usize = find_attrs_end(&t.children);
        let x: usize = skip(&t.children, a, Rule::ExternKw);
        let name_at: usize = skip(&t.children, x, Rule::ExportKw);
        if name_at >= t.children.len() {
            return None;
        }
        let g: usize = name_at + 1;
        let p: usize = skip(&t.children, g, Rule::GenericParams);
        let ret_at: usize = skip(&t.children, p, Rule::ParamList);
        let b: usize = skip(&t.children, ret_at, Rule::Type);
        let attrs: Vec<Attribute> = match self.lower_attributes(&t.children, a) {
            Some(attrs) => attrs,
            None => {
                return None;
            },
        };
        let generics: Vec<GenericParam> = match self.lower_generics_at(&t.children, g) {
            Some(generics) => generics,
            None => {
                return None;
            },
        };
        let params: Vec<Param> = match self.lower_params_at(&t.children, p) {
            Some(params) => params,
            None => {
                return None;
            },
        };
        let mut ret: Option<Type> = None;
        if !self.lower_type_at(&t.children, ret_at, &mut ret) {
            return None;
        }
        let mut body: Option<Block> = None;
        if b < t.children.len() {
            match self.lower_block(&t.children[b]) {
                Some(block) => {
                    body = Some(block);
                },
                None => {
                    return None;
                },
            }
        }
        Some(
            FnDecl {
                name: t.children[name_at].text.clone(),
                attrs,
                is_extern: stands_at(&t.children, a, Rule::ExternKw),
                extern_symbol: find_symbol(&t.children, a, Rule::ExternKw),
                is_export: stands_at(&t.children, x, Rule::ExportKw),
                export_symbol: find_symbol(&t.children, x, Rule::ExportKw),
                generics,
                params,
                ret,
                body,
                derivative_of: None,
            },
        )
    }

    /// A function that is to be the derivative of another.
    pub fn lower_derive_decl(&self, t: &Tree) -> (r: Option<FnDecl>)
        ensures
            match r {
                Some(d) => low_derive_decl(*t) == Some(d@),
                None => low_derive_decl(*t) is None,
            },
    {
        if t.children.len() < 2 {
            return None;
        }
        Some(
            FnDecl {
                name: t.children[0].text.clone(),
                attrs: Vec::new(),
                is_extern: false,
                extern_symbol: None,
                is_export: false,
                export_symbol: None,
                generics: Vec::new(),
                params: Vec::new(),
                ret: None,
                body: None,
                derivative_of: Some(t.children[1].text.clone()),
            },
        )
    }

    fn lower_fns(&mut self, children: &Vec<Tree>, from: usize) -> (r: Option<Vec<FnDecl>>)
        requires
            from <= children@.len(),
        ensures
            made_all(
                r,
                *final(self),
                low_fns(
                    *children,
                    from as nat,
                    children@.len(),
                    old(self).file,
                    old(self).ids.upcoming,
                ),
            ),
            final(self).file == old(self).file,
    {
        let ghost f = self.file;
        let ghost id = self.ids.upcoming;
        let mut out: Vec<FnDecl> = Vec::new();
        let mut fine: bool = true;
        let mut i: usize = from;
        while i < children.len()
            invariant
                from <= i <= children@.len(),
                self.file == f,
                match low_fns(*children, from as nat, i as nat, f, id) {
                    Some(w) => fine && w.value == views(out@) && w.next == self.ids.upcoming,
                    None => !fine,
                },
            decreases children.len() - i,
        {
            if fine {
                match self.lower_fn_decl(&children[i]) {
                    Some(d) => {
                        out.push(d);
                    },
                    None => {
                        fine = false;
                    },
                }
            }
            i = i + 1;
        }
        if fine {
            Some(out)
        } else {
            None
        }
    }

    /// The fields of a struct.
    pub fn lower_field_list(&mut self, children: &Vec<Tree>) -> (r: Option<Vec<Field>>)
        ensures
            made_all(
                r,
                *final(self),
                low_fields(
                    *children,
                    children@.len(),
                    old(self).file,
                    old(self).ids.upcoming,
                ),
            ),
            final(self).file == old(self).file,
    {
        let ghost f = self.file;
        let ghost id = self.ids.upcoming;
        let mut out: Vec<Field> = Vec::new();
        let mut fine: bool = true;
        let mut i: usize = 0;
        while i < children.len()
            invariant
                i <= children@.len(),
                self.file == f,
                match low_fields(*children, i as nat, f, id) {
                    Some(w) => fine && w.value == views(out@) && w.next == self.ids.upcoming,
                    None => !fine,
                },
            decreases children.len() - i,
        {
            if fine {
                let field = &children[i];
                if field.children.len() < 2 {
                    fine = false;
                } else {
                    match self.lower_type(&field.children[1]) {
                        Some(ty) => {
                            out.push(Field { name: field.children[0].text.clone(), ty });
                        },
                        None => {
                            fine = false;
                        },
                    }
                }
            }
            i = i + 1;
        }
        if fine {
            Some(out)
        } else {
            None
        }
    }

    /// A struct.
    #[verifier::rlimit(40)]
    pub fn lower_struct_decl(&mut self, t: &Tree) -> (r: Option<StructDecl>)
        ensures
            made(r, *final(self), low_struct_decl(*t, old(self).file, old(self).ids.upcoming)),
            final(self).file == old(self).file,
    {
        if t.children.len() == 0 {
            return None;
        }
        let at: usize = skip(&t.children, 1, Rule::GenericParams);
        let generics: Vec<GenericParam> = match self.lower_generics_at(&t.children, 1) {
            Some(generics) => generics,
            None => {
                return None;
            },
        };
        let fields: Vec<Field> = if at < t.children.len() {
            match self.lower_field_list(&t.children[at].children) {
                Some(fields) => fields,
                None => {
                    return None;
                },
            }
        } else {
            Vec::new()
        };
        Some(StructDecl { name: t.children[0].text.clone(), generics, fields })
    }

    /// A function that an algebra declares.
    pub fn lower_fn_sig(&mut self, t: &Tree) -> (r: Option<FnSig>)
        ensures
            made(r, *final(self), low_fn_sig(*t, old(self).file, old(self).ids.upcoming)),
            final(self).file == old(self).file,
    {
        if t.children.len() == 0 {
            return None;
        }
        let name: String = t.children[0].text.clone();
        let at: usize = skip(&t.children, 1, Rule::ParamList);
        let params: Vec<Param> = match self.lower_params_at(&t.children, 1) {
            Some(params) => params,
            None => {
                return None;
            },
        };
        if at < t.children.len() {
            match self.lower_type(&t.children[at]) {
                None => None,
                Some(ty) => Some(FnSig { name, params, ret: Some(ty) }),
            }
        } else {
            Some(FnSig { name, params, ret: None })
        }
    }

    /// A law.
    pub fn lower_axiom_decl(&mut self, t: &Tree) -> (r: Option<AxiomDecl>)
        ensures
            made(r, *final(self), low_named_expr(*t, old(self).file, old(self).ids.upcoming)),
            final(self).file == old(self).file,
    {
        if t.children.len() == 0 {
            return None;
        }
        let at: usize = skip(&t.children, 1, Rule::ParamList);
        let params: Vec<Param> = match self.lower_params_at(&t.children, 1) {
            Some(params) => params,
            None => {
                return None;
            },
        };
        if at >= t.children.len() {
            return None;
        }
        match self.lower_expr(&t.children[at]) {
            None => None,
            Some(body) => Some(AxiomDecl { name: t.children[0].text.clone(), params, body }),
        }
    }

    /// A rule for a derivative.
    pub fn lower_derivative_rule_decl(&mut self, t: &Tree) -> (r: Option<DerivativeRuleDecl>)
        ensures
            made(r, *final(self), low_named_expr(*t, old(self).file, old(self).ids.upcoming)),
            final(self).file == old(self).file,
    {
        match self.lower_axiom_decl(t) {
            None => None,
            Some(d) => Some(
                DerivativeRuleDecl { method: d.name, params: d.params, body: d.body },
            ),
        }
    }

    /// What an algebra declares.
    pub fn lower_algebra_item(&mut self, t: &Tree) -> (r: Option<AlgebraItem>)
        ensures
            made(r, *final(self), low_algebra_item(*t, old(self).file, old(self).ids.upcoming)),
            final(self).file == old(self).file,
    {
        if t.children.len() == 0 {
            return None;
        }
        let span: Span = self.span_of(t);
        let inner = &t.children[0];
        let kind: Option<AlgebraItemKind> = match inner.rule {
            Rule::FnSig => match self.lower_fn_sig(inner) {
                None => None,
                Some(s) => Some(AlgebraItemKind::FnSig(s)),
            },
            Rule::AxiomDecl => match self.lower_axiom_decl(inner) {
                None => None,
                Some(d) => Some(AlgebraItemKind::Axiom(d)),
            },
            Rule::DerivativeRuleDecl => match self.lower_derivative_rule_decl(inner) {
                None => None,
                Some(d) => Some(AlgebraItemKind::DerivativeRule(d)),
            },
            _ => None,
        };
        match kind {
            None => None,
            Some(kind) => {
                let id: NodeId = self.ids.next();
                Some(AlgebraItem { id, span, kind })
            },
        }
    }

    fn lower_algebra_items(&mut self, children: &Vec<Tree>, from: usize) -> (r: Option<
        Vec<AlgebraItem>,
    >)
        requires
            from <= children@.len(),
        ensures
            made_all(
                r,
                *final(self),
                low_algebra_items(
                    *children,
                    from as nat,
                    children@.len(),
                    old(self).file,
                    old(self).ids.upcoming,
                ),
            ),
            final(self).file == old(self).file,
    {
        let ghost f = self.file;
        let ghost id = self.ids.upcoming;
        let mut out: Vec<AlgebraItem> = Vec::new();
        let mut fine: bool = true;
        let mut i: usize = from;
        while i < children.len()
            invariant
                from <= i <= children@.len(),
                self.file == f,
                match low_algebra_items(*children, from as nat, i as nat, f, id) {
                    Some(w) => fine && w.value == views(out@) && w.next == self.ids.upcoming,
                    None => !fine,
                },
            decreases children.len() - i,
        {
            if fine {
                match self.lower_algebra_item(&children[i]) {
                    Some(d) => {
                        out.push(d);
                    },
                    None => {
                        fine = false;
                    },
                }
            }
            i = i + 1;
        }
        if fine {
            Some(out)
        } else {
            None
        }
    }

    /// An algebra.
    #[verifier::rlimit(40)]
    pub fn lower_algebra_decl(&mut self, t: &Tree) -> (r: Option<AlgebraDecl>)
        ensures
            made(r, *final(self), low_algebra_decl(*t, old(self).file, old(self).ids.upcoming)),
            final(self).file == old(self).file,
    {
        if t.children.len() == 0 {
            return None;
        }
        let b: usize = skip(&t.children, 1, Rule::GenericParams);
        let i: usize = skip(&t.children, b, Rule::BoundList);
        let generics: Vec<GenericParam> = match self.lower_generics_at(&t.children, 1) {
            Some(generics) => generics,
            None => {
                return None;
            },
        };
        let bounds: Vec<String> = if stands_at(&t.children, b, Rule::BoundList) {
            self.lower_bound_list(&t.children[b])
        } else {
            Vec::new()
        };
        match self.lower_algebra_items(&t.children, i) {
            None => None,
            Some(items) => Some(
                AlgebraDecl { name: t.children[0].text.clone(), generics, bounds, items },
            ),
        }
    }

    fn lower_targets(&mut self, children: &Vec<Tree>, from: usize, upto: usize) -> (r: Option<
        Vec<Type>,
    >)
        requires
            from <= upto <= children@.len(),
        ensures
            made_all(
                r,
                *final(self),
                low_targets(
                    *children,
                    from as nat,
                    upto as nat,
                    old(self).file,
                    old(self).ids.upcoming,
                ),
            ),
            final(self).file == old(self).file,
    {
        let ghost f = self.file;
        let ghost id = self.ids.upcoming;
        let mut out: Vec<Type> = Vec::new();
        let mut fine: bool = true;
        let mut i: usize = from;
        while i < upto
            invariant
                from <= i <= upto <= children@.len(),
                self.file == f,
                match low_targets(*children, from as nat, i as nat, f, id) {
                    Some(w) => fine && w.value == views(out@) && w.next == self.ids.upcoming,
                    None => !fine,
                },
            decreases upto - i,
        {
            if fine {
                match self.lower_type(&children[i]) {
                    Some(ty) => {
                        out.push(ty);
                    },
                    None => {
                        fine = false;
                    },
                }
            }
            i = i + 1;
        }
        if fine {
            Some(out)
        } else {
            None
        }
    }

    /// An impl of an algebra.
    #[verifier::rlimit(40)]
    pub fn lower_algebra_impl(&mut self, t: &Tree) -> (r: Option<ImplDecl>)
        ensures
            made(r, *final(self), low_algebra_impl(*t, old(self).file, old(self).ids.upcoming)),
            final(self).file == old(self).file,
    {
        let a: usize = find_attrs_end(&t.children);
        let n: usize = skip(&t.children, a, Rule::GenericParams);
        if n >= t.children.len() || t.children.len() - n < 2 {
            return None;
        }
        let mut e: usize = n + 2;
        while e < t.children.len() && stands_at(&t.children, e, Rule::Type)
            invariant
                n + 2 <= e <= t.children@.len(),
                types_end(t.children, (n + 2) as nat) == types_end(t.children, e as nat),
            decreases t.children@.len() - e,
        {
            e = e + 1;
        }
        let attrs: Vec<Attribute> = match self.lower_attributes(&t.children, a) {
            Some(attrs) => attrs,
            None => {
                return None;
            },
        };
        let generics: Vec<GenericParam> = match self.lower_generics_at(&t.children, a) {
            Some(generics) => generics,
            None => {
                return None;
            },
        };
        let target: Type = match self.lower_type(&t.children[n + 1]) {
            Some(target) => target,
            None => {
                return None;
            },
        };
        let extra_targets: Vec<Type> = match self.lower_targets(&t.children, n + 2, e) {
            Some(extra) => extra,
            None => {
                return None;
            },
        };
        match self.lower_fns(&t.children, e) {
            None => None,
            Some(fns) => Some(
                ImplDecl {
                    attrs,
                    algebra: t.children[n].text.clone(),
                    generics,
                    target,
                    extra_targets,
                    fns,
                },
            ),
        }
    }

    /// The methods that a type has by itself.
    #[verifier::rlimit(40)]
    pub fn lower_inherent_impl(&mut self, t: &Tree) -> (r: Option<InherentImplDecl>)
        ensures
            made(
                r,
                *final(self),
                low_inherent_impl(*t, old(self).file, old(self).ids.upcoming),
            ),
            final(self).file == old(self).file,
    {
        let n: usize = skip(&t.children, 0, Rule::GenericParams);
        if n >= t.children.len() {
            return None;
        }
        let generics: Vec<GenericParam> = match self.lower_generics_at(&t.children, 0) {
            Some(generics) => generics,
            None => {
                return None;
            },
        };
        let target: Type = match self.lower_type(&t.children[n]) {
            Some(target) => target,
            None => {
                return None;
            },
        };
        match self.lower_fns(&t.children, n + 1) {
            None => None,
            Some(fns) => Some(InherentImplDecl { generics, target, fns }),
        }
    }

    fn lower_item_kind(&mut self, inner: &Tree) -> (r: Option<ItemKind>)
        ensures
            made(r, *final(self), low_item_kind(*inner, old(self).file, old(self).ids.upcoming)),
            final(self).file == old(self).file,
    {
        match inner.rule {
            Rule::UseDecl => {
                if inner.children.len() == 0 {
                    return None;
                }
                let path: Path = self.lower_path(&inner.children[0]);
                Some(ItemKind::Use(path))
            },
            Rule::StructDecl => match self.lower_struct_decl(inner) {
                None => None,
                Some(d) => Some(ItemKind::Struct(d)),
            },
            Rule::AlgebraDecl => match self.lower_algebra_decl(inner) {
                None => None,
                Some(d) => Some(ItemKind::Algebra(d)),
            },
            Rule::ImplDecl => if stands_at(&inner.children, 0, Rule::AlgebraImpl) {
                match self.lower_algebra_impl(&inner.children[0]) {
                    None => None,
                    Some(d) => Some(ItemKind::Impl(d)),
                }
            } else if stands_at(&inner.children, 0, Rule::InherentImpl) {
                match self.lower_inherent_impl(&inner.children[0]) {
                    None => None,
                    Some(d) => Some(ItemKind::InherentImpl(d)),
                }
            } else {
                None
            },
            Rule::FnDecl => match self.lower_fn_decl(inner) {
                None => None,
                Some(d) => Some(ItemKind::Fn(d)),
            },
            Rule::DeriveDecl => match self.lower_derive_decl(inner) {
                None => None,
                Some(d) => Some(ItemKind::Fn(d)),
            },
            _ => None,
        }
    }

    /// An item.
    pub fn lower_item(&mut self, t: &Tree) -> (r: Option<Item>)
        ensures
            made(r, *final(self), low_item(*t, old(self).file, old(self).ids.upcoming)),
            final(self).file == old(self).file,
    {
        if t.children.len() == 0 {
            return None;
        }
        let span: Span = self.span_of(t);
        match self.lower_item_kind(&t.children[0]) {
            None => None,
            Some(kind) => {
                let id: NodeId = self.ids.next();
                Some(Item { id, span, kind })
            },
        }
    }

    /// The program that a parse tree is. None for a tree that the grammar does not
    /// give.
    pub fn lower_program(&mut self, t: &Tree) -> (r: Option<Program>)
        ensures
            made(r, *final(self), low_program(*t, old(self).file, old(self).ids.upcoming)),
            final(self).file == old(self).file,
    {
        if t.rule != Rule::Program {
            return None;
        }
        let ghost f = self.file;
        let ghost id = self.ids.upcoming;
        let mut items: Vec<Item> = Vec::new();
        let mut fine: bool = true;
        let mut i: usize = 0;
        while i < t.children.len()
            invariant
                i <= t.children@.len(),
                self.file == f,
                match low_items(t.children, i as nat, f, id) {
                    Some(w) => fine && w.value == views(items@) && w.next == self.ids.upcoming,
                    None => !fine,
                },
            decreases t.children.len() - i,
        {
            if fine && t.children[i].rule == Rule::Item {
                match self.lower_item(&t.children[i]) {
                    Some(item) => {
                        items.push(item);
                    },
                    None => {
                        fine = false;
                    },
                }
            }
            i = i + 1;
        }
        if fine {
            Some(Program { items })
        } else {
            None
        }
    }
}

} // verus!
