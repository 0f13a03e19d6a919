//! What declarations are, with texts and lists as sequences.

use vstd::prelude::*;

use crate::ast::{
    AlgebraDecl, AlgebraItem, AlgebraItemKind, Attribute, AxiomDecl, Block, DerivativeRuleDecl,
    Field, FnDecl, FnSig, GenericParam, ImplDecl, InherentImplDecl, Item, ItemKind, NodeId, Program,
    Span, StructDecl,
};
use crate::ast_views::{opt_type, BlockV, ExprV, ParamV, TypeV};
use crate::lang::opt_text;
use crate::table::views;

verus! {

#[verifier::ext_equal]
pub enum GenericParamV {
    Type { name: Seq<char>, bounds: Seq<Seq<char>>, variadic: bool },
    Const { name: Seq<char>, ty: TypeV, variadic: bool },
}

impl View for GenericParam {
    type V = GenericParamV;

    open spec fn view(&self) -> GenericParamV {
        match *self {
            GenericParam::Type { name, bounds, variadic } => GenericParamV::Type {
                name: name@,
                bounds: views(bounds@),
                variadic,
            },
            GenericParam::Const { name, ty, variadic } => GenericParamV::Const {
                name: name@,
                ty: ty@,
                variadic,
            },
        }
    }
}

#[verifier::ext_equal]
pub struct FieldV {
    pub name: Seq<char>,
    pub ty: TypeV,
}

impl View for Field {
    type V = FieldV;

    open spec fn view(&self) -> FieldV {
        FieldV { name: self.name@, ty: self.ty@ }
    }
}

#[verifier::ext_equal]
pub struct AttributeV {
    pub name: Seq<char>,
    pub args: Seq<Seq<char>>,
    pub span: Span,
}

impl View for Attribute {
    type V = AttributeV;

    open spec fn view(&self) -> AttributeV {
        AttributeV { name: self.name@, args: views(self.args@), span: self.span }
    }
}

#[verifier::ext_equal]
pub struct FnDeclV {
    pub name: Seq<char>,
    pub attrs: Seq<AttributeV>,
    pub is_extern: bool,
    pub extern_symbol: Option<Seq<char>>,
    pub is_export: bool,
    pub export_symbol: Option<Seq<char>>,
    pub generics: Seq<GenericParamV>,
    pub params: Seq<ParamV>,
    pub ret: Option<TypeV>,
    pub body: Option<BlockV>,
    pub derivative_of: Option<Seq<char>>,
}

pub open spec fn opt_block(b: Option<Block>) -> Option<BlockV> {
    match b {
        Some(x) => Some(x@),
        None => None,
    }
}

impl View for FnDecl {
    type V = FnDeclV;

    open spec fn view(&self) -> FnDeclV {
        FnDeclV {
            name: self.name@,
            attrs: views(self.attrs@),
            is_extern: self.is_extern,
            extern_symbol: opt_text(self.extern_symbol),
            is_export: self.is_export,
            export_symbol: opt_text(self.export_symbol),
            generics: views(self.generics@),
            params: views(self.params@),
            ret: opt_type(self.ret),
            body: opt_block(self.body),
            derivative_of: opt_text(self.derivative_of),
        }
    }
}

#[verifier::ext_equal]
pub struct StructDeclV {
    pub name: Seq<char>,
    pub generics: Seq<GenericParamV>,
    pub fields: Seq<FieldV>,
}

impl View for StructDecl {
    type V = StructDeclV;

    open spec fn view(&self) -> StructDeclV {
        StructDeclV {
            name: self.name@,
            generics: views(self.generics@),
            fields: views(self.fields@),
        }
    }
}

#[verifier::ext_equal]
pub struct FnSigV {
    pub name: Seq<char>,
    pub params: Seq<ParamV>,
    pub ret: Option<TypeV>,
}

impl View for FnSig {
    type V = FnSigV;

    open spec fn view(&self) -> FnSigV {
        FnSigV { name: self.name@, params: views(self.params@), ret: opt_type(self.ret) }
    }
}

/// A law, or a rule for a derivative: a name, parameters and an expression.
#[verifier::ext_equal]
pub struct NamedExprV {
    pub name: Seq<char>,
    pub params: Seq<ParamV>,
    pub body: ExprV,
}

impl View for AxiomDecl {
    type V = NamedExprV;

    open spec fn view(&self) -> NamedExprV {
        NamedExprV { name: self.name@, params: views(self.params@), body: self.body@ }
    }
}

impl View for DerivativeRuleDecl {
    type V = NamedExprV;

    open spec fn view(&self) -> NamedExprV {
        NamedExprV { name: self.method@, params: views(self.params@), body: self.body@ }
    }
}

#[verifier::ext_equal]
pub enum AlgebraItemKindV {
    FnSig(FnSigV),
    Axiom(NamedExprV),
    DerivativeRule(NamedExprV),
}

impl View for AlgebraItemKind {
    type V = AlgebraItemKindV;

    open spec fn view(&self) -> AlgebraItemKindV {
        match *self {
            AlgebraItemKind::FnSig(s) => AlgebraItemKindV::FnSig(s@),
            AlgebraItemKind::Axiom(d) => AlgebraItemKindV::Axiom(d@),
            AlgebraItemKind::DerivativeRule(d) => AlgebraItemKindV::DerivativeRule(d@),
        }
    }
}

#[verifier::ext_equal]
pub struct AlgebraItemV {
    pub id: NodeId,
    pub span: Span,
    pub kind: AlgebraItemKindV,
}

impl View for AlgebraItem {
    type V = AlgebraItemV;

    open spec fn view(&self) -> AlgebraItemV {
        AlgebraItemV { id: self.id, span: self.span, kind: self.kind@ }
    }
}

#[verifier::ext_equal]
pub struct AlgebraDeclV {
    pub name: Seq<char>,
    pub generics: Seq<GenericParamV>,
    pub bounds: Seq<Seq<char>>,
    pub items: Seq<AlgebraItemV>,
}

impl View for AlgebraDecl {
    type V = AlgebraDeclV;

    open spec fn view(&self) -> AlgebraDeclV {
        AlgebraDeclV {
            name: self.name@,
            generics: views(self.generics@),
            bounds: views(self.bounds@),
            items: views(self.items@),
        }
    }
}

#[verifier::ext_equal]
pub struct ImplDeclV {
    pub attrs: Seq<AttributeV>,
    pub algebra: Seq<char>,
    pub generics: Seq<GenericParamV>,
    pub target: TypeV,
    pub extra_targets: Seq<TypeV>,
    pub fns: Seq<FnDeclV>,
}

impl View for ImplDecl {
    type V = ImplDeclV;

    open spec fn view(&self) -> ImplDeclV {
        ImplDeclV {
            attrs: views(self.attrs@),
            algebra: self.algebra@,
            generics: views(self.generics@),
            target: self.target@,
            extra_targets: views(self.extra_targets@),
            fns: views(self.fns@),
        }
    }
}

#[verifier::ext_equal]
pub struct InherentImplDeclV {
    pub generics: Seq<GenericParamV>,
    pub target: TypeV,
    pub fns: Seq<FnDeclV>,
}

impl View for InherentImplDecl {
    type V = InherentImplDeclV;

    open spec fn view(&self) -> InherentImplDeclV {
        InherentImplDeclV {
            generics: views(self.generics@),
            target: self.target@,
            fns: views(self.fns@),
        }
    }
}

#[verifier::ext_equal]
pub enum ItemKindV {
    Use(Seq<Seq<char>>),
    Struct(StructDeclV),
    Algebra(AlgebraDeclV),
    Impl(ImplDeclV),
    InherentImpl(InherentImplDeclV),
    Fn(FnDeclV),
}

impl View for ItemKind {
    type V = ItemKindV;

    open spec fn view(&self) -> ItemKindV {
        match *self {
            ItemKind::Use(p) => ItemKindV::Use(views(p.segments@)),
            ItemKind::Struct(d) => ItemKindV::Struct(d@),
            ItemKind::Algebra(d) => ItemKindV::Algebra(d@),
            ItemKind::Impl(d) => ItemKindV::Impl(d@),
            ItemKind::InherentImpl(d) => ItemKindV::InherentImpl(d@),
            ItemKind::Fn(d) => ItemKindV::Fn(d@),
        }
    }
}

#[verifier::ext_equal]
pub struct ItemV {
    pub id: NodeId,
    pub span: Span,
    pub kind: ItemKindV,
}

impl View for Item {
    type V = ItemV;

    open spec fn view(&self) -> ItemV {
        ItemV { id: self.id, span: self.span, kind: self.kind@ }
    }
}

#[verifier::ext_equal]
pub struct ProgramV {
    pub items: Seq<ItemV>,
}

impl View for Program {
    type V = ProgramV;

    open spec fn view(&self) -> ProgramV {
        ProgramV { items: views(self.items@) }
    }
}

} // verus!
