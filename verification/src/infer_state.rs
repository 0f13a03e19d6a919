//! What type inference keeps while it runs.

use vstd::prelude::*;

use crate::ast::{following, Span};
use crate::errors::{TypeError, TypeErrorV};
use crate::registry::Registry;
use crate::subst::{Subst, SubstV};
use crate::table::{dup_list, group_views, views, Dup, Table};
use crate::ty::{group_ty, Ty, TyV, TyVar};
use crate::types::dup_tys;

verus! {

broadcast use {group_views, group_ty};

/// Makes fresh type variables.
#[derive(Default)]
pub struct TyVarGen(pub u32);

impl TyVarGen {
    /// A variable that was not made before.
    pub fn fresh(&mut self) -> (r: Ty)
        ensures
            r@ == TyV::Var(old(self).0),
            final(self).0 == following(old(self).0),
    {
        let v = TyVar(self.0);
        self.0 = self.0.wrapping_add(1);
        Ty::Var(v)
    }
}

/// A demand that an impl of the algebra for the types exists.
#[derive(PartialEq, Eq, Debug)]
pub struct Constraint {
    pub algebra: String,
    pub tys: Vec<Ty>,
    /// The places of the types that must be known before the demand can be met.
    pub gating_indices: Vec<usize>,
    pub span: Span,
}

#[verifier::ext_equal]
pub struct ConstraintV {
    pub algebra: Seq<char>,
    pub tys: Seq<TyV>,
    pub gating: Seq<usize>,
    pub span: Span,
}

impl View for Constraint {
    type V = ConstraintV;

    open spec fn view(&self) -> ConstraintV {
        ConstraintV {
            algebra: self.algebra@,
            tys: views(self.tys@),
            gating: self.gating_indices@,
            span: self.span,
        }
    }
}

pub fn dup_places(v: &Vec<usize>) -> (r: Vec<usize>)
    ensures
        r@ == v@,
{
    let mut out: Vec<usize> = Vec::new();
    let mut i: usize = 0;
    while i < v.len()
        invariant
            i <= v.len(),
            out@ == v@.subrange(0, i as int),
        decreases v.len() - i,
    {
        out.push(v[i]);
        i = i + 1;
        assert(out@ =~= v@.subrange(0, i as int));
    }
    assert(v@.subrange(0, i as int) =~= v@);
    out
}

impl Dup for Constraint {
    fn dup(&self) -> (r: Self) {
        Constraint {
            algebra: self.algebra.clone(),
            tys: dup_tys(&self.tys),
            gating_indices: dup_places(&self.gating_indices),
            span: self.span,
        }
    }
}

/// A demand on one type, which must be known first.
pub open spec fn demand(algebra: Seq<char>, ty: TyV, span: Span) -> ConstraintV {
    ConstraintV { algebra, tys: seq![ty], gating: seq![0usize], span }
}

impl Constraint {
    /// A demand on one type, which must be known first.
    pub fn all_gating(algebra: String, ty: Ty, span: Span) -> (r: Self)
        ensures
            r@ == demand(algebra@, ty@, span),
    {
        let mut tys: Vec<Ty> = Vec::new();
        tys.push(ty);
        let mut gating_indices: Vec<usize> = Vec::new();
        gating_indices.push(0);
        assert(views(tys@) =~= seq![ty@]);
        assert(gating_indices@ =~= seq![0usize]);
        Constraint { algebra, tys, gating_indices, span }
    }
}

/// A type with variables that each use may choose anew, under constraints.
#[derive(PartialEq, Eq, Debug)]
pub struct Scheme {
    pub vars: Vec<u32>,
    pub constraints: Vec<Constraint>,
    pub ty: Ty,
    /// The widths of the variables that have one.
    pub const_widths: Vec<(u32, Ty)>,
}

#[verifier::ext_equal]
pub struct SchemeV {
    pub vars: Seq<u32>,
    pub constraints: Seq<ConstraintV>,
    pub ty: TyV,
    pub widths: Seq<(u32, TyV)>,
}

impl View for Scheme {
    type V = SchemeV;

    open spec fn view(&self) -> SchemeV {
        SchemeV {
            vars: self.vars@,
            constraints: views(self.constraints@),
            ty: self.ty@,
            widths: views(self.const_widths@),
        }
    }
}

impl Dup for (u32, Ty) {
    fn dup(&self) -> (r: Self) {
        (self.0, self.1.dup())
    }
}

impl Dup for Scheme {
    fn dup(&self) -> (r: Self) {
        let vars: Vec<u32> = dup_list(&self.vars);
        assert(vars@ =~= self.vars@) by {
            assert(views(vars@) == views(self.vars@));
            assert forall|i: int| 0 <= i < vars@.len() implies vars@[i] == self.vars@[i] by {
                assert(views(vars@)[i] == views(self.vars@)[i]);
            }
        }
        Scheme {
            vars,
            constraints: dup_list(&self.constraints),
            ty: self.ty.dup(),
            const_widths: dup_list(&self.const_widths),
        }
    }
}

/// A type with nothing to choose.
pub open spec fn mono(ty: TyV) -> SchemeV {
    SchemeV { vars: Seq::empty(), constraints: Seq::empty(), ty, widths: Seq::empty() }
}

impl Scheme {
    /// A type with nothing to choose.
    pub fn mono(ty: Ty) -> (r: Self)
        ensures
            r@ == mono(ty@),
    {
        Scheme { vars: Vec::new(), constraints: Vec::new(), ty, const_widths: Vec::new() }
    }
}

/// The types of the names in scope.
pub type Env = Table<String, Scheme>;

pub type EnvV = Map<Seq<char>, SchemeV>;

/// What names of generics stand for.
pub type Mapping = Table<String, Ty>;

pub type MappingV = Map<Seq<char>, TyV>;

/// The default of a number whose type nothing else fixes.
#[derive(Clone, Copy, PartialEq, Eq, Structural, Debug)]
pub enum NumberDefault {
    Int,
    Float,
    Complex,
}

/// A field access on a value whose type is not known yet.
pub struct PendingFieldAccess {
    pub base: Ty,
    pub field: String,
    pub result: u32,
    pub span: Span,
}

#[verifier::ext_equal]
pub struct PendingFieldV {
    pub base: TyV,
    pub field: Seq<char>,
    pub result: u32,
    pub span: Span,
}

impl View for PendingFieldAccess {
    type V = PendingFieldV;

    open spec fn view(&self) -> PendingFieldV {
        PendingFieldV {
            base: self.base@,
            field: self.field@,
            result: self.result,
            span: self.span,
        }
    }
}

/// A method call on a value whose type is not known yet.
pub struct PendingMethodCall {
    pub base: Ty,
    pub method: String,
    pub arg_tys: Vec<Ty>,
    pub arg_spans: Vec<Span>,
    pub base_span: Span,
    pub result: u32,
    pub call_span: Span,
}

#[verifier::ext_equal]
pub struct PendingCallV {
    pub base: TyV,
    pub method: Seq<char>,
    pub arg_tys: Seq<TyV>,
    pub arg_spans: Seq<Span>,
    pub base_span: Span,
    pub result: u32,
    pub call_span: Span,
}

impl View for PendingMethodCall {
    type V = PendingCallV;

    open spec fn view(&self) -> PendingCallV {
        PendingCallV {
            base: self.base@,
            method: self.method@,
            arg_tys: views(self.arg_tys@),
            arg_spans: self.arg_spans@,
            base_span: self.base_span,
            result: self.result,
            call_span: self.call_span,
        }
    }
}

/// An index into a value whose type is not known yet.
pub struct PendingIndex {
    pub base: Ty,
    pub base_span: Span,
    pub index_tys: Vec<Ty>,
    pub index_spans: Vec<Span>,
    pub result: u32,
    pub span: Span,
}

#[verifier::ext_equal]
pub struct PendingIndexV {
    pub base: TyV,
    pub base_span: Span,
    pub index_tys: Seq<TyV>,
    pub index_spans: Seq<Span>,
    pub result: u32,
    pub span: Span,
}

impl View for PendingIndex {
    type V = PendingIndexV;

    open spec fn view(&self) -> PendingIndexV {
        PendingIndexV {
            base: self.base@,
            base_span: self.base_span,
            index_tys: views(self.index_tys@),
            index_spans: self.index_spans@,
            result: self.result,
            span: self.span,
        }
    }
}

/// What is known of a method of a generic struct that has no declared result.
pub struct InherentMethodPattern {
    /// What each generic of the impl stands for in `ret_pattern`.
    pub generics_mapping: Vec<(String, Ty)>,
    pub ret_pattern: Ty,
}

#[verifier::ext_equal]
pub struct PatternV {
    pub generics: Seq<(Seq<char>, TyV)>,
    pub ret: TyV,
}

impl View for InherentMethodPattern {
    type V = PatternV;

    open spec fn view(&self) -> PatternV {
        PatternV { generics: views(self.generics_mapping@), ret: self.ret_pattern@ }
    }
}

/// The parameter types and the result type of a method whose body is being
/// inferred.
pub struct MethodShape {
    pub params: Vec<Ty>,
    pub ret: Ty,
}

#[verifier::ext_equal]
pub struct MethodShapeV {
    pub params: Seq<TyV>,
    pub ret: TyV,
}

impl View for MethodShape {
    type V = MethodShapeV;

    open spec fn view(&self) -> MethodShapeV {
        MethodShapeV { params: views(self.params@), ret: self.ret@ }
    }
}

impl Dup for MethodShape {
    fn dup(&self) -> (r: Self) {
        MethodShape { params: dup_tys(&self.params), ret: self.ret.dup() }
    }
}

/// Type inference over the declarations of a program.
pub struct Infer<'r> {
    pub subst: Subst,
    pub vars: TyVarGen,
    pub pending_defaults: Vec<(u32, NumberDefault)>,
    pub constraints: Vec<Constraint>,
    pub registry: &'r Registry,
    pub node_types: Table<u32, Ty>,
    pub param_types: Vec<Ty>,
    pub target_types: Vec<Ty>,
    pub active_generics: Mapping,
    pub quantified: Vec<u32>,
    pub loop_stack: Vec<Ty>,
    pub pending_type_name_checks: Vec<(String, Span)>,
    pub pending_div_by_zero_checks: Vec<(u64, Span)>,
    pub in_progress_methods: Table<(String, String), MethodShape>,
    pub lambda_schemes: Table<u32, Scheme>,
    pub inherent_patterns: Option<&'r Table<(String, String), InherentMethodPattern>>,
    pub pending_field_accesses: Vec<PendingFieldAccess>,
    pub pending_method_calls: Vec<PendingMethodCall>,
    pub pending_indices: Vec<PendingIndex>,
}

impl View for Span {
    type V = Span;

    open spec fn view(&self) -> Span {
        *self
    }
}

/// What type inference keeps, with texts and lists as sequences.
#[verifier::ext_equal]
pub struct InferV {
    pub subst: SubstV,
    pub next_var: u32,
    pub defaults: Seq<(u32, NumberDefault)>,
    pub constraints: Seq<ConstraintV>,
    pub registry: Registry,
    pub node_types: Map<u32, TyV>,
    pub param_types: Seq<TyV>,
    pub target_types: Seq<TyV>,
    pub active: MappingV,
    pub quantified: Set<u32>,
    pub loops: Seq<TyV>,
    pub type_names: Seq<(Seq<char>, Span)>,
    pub divs: Seq<(u64, Span)>,
    pub in_progress: Map<(Seq<char>, Seq<char>), MethodShapeV>,
    pub lambdas: Map<u32, SchemeV>,
    pub patterns: Option<Map<(Seq<char>, Seq<char>), PatternV>>,
    pub fields: Seq<PendingFieldV>,
    pub calls: Seq<PendingCallV>,
    pub indices: Seq<PendingIndexV>,
}

impl<'r> View for Infer<'r> {
    type V = InferV;

    open spec fn view(&self) -> InferV {
        InferV {
            subst: self.subst@,
            next_var: self.vars.0,
            defaults: self.pending_defaults@,
            constraints: views(self.constraints@),
            registry: *self.registry,
            node_types: self.node_types@,
            param_types: views(self.param_types@),
            target_types: views(self.target_types@),
            active: self.active_generics@,
            quantified: self.quantified@.to_set(),
            loops: views(self.loop_stack@),
            type_names: views(self.pending_type_name_checks@),
            divs: self.pending_div_by_zero_checks@,
            in_progress: self.in_progress_methods@,
            lambdas: self.lambda_schemes@,
            patterns: match self.inherent_patterns {
                Some(p) => Some(p@),
                None => None,
            },
            fields: views(self.pending_field_accesses@),
            calls: views(self.pending_method_calls@),
            indices: views(self.pending_indices@),
        }
    }
}

/// What inference starts from.
pub open spec fn initial(registry: Registry) -> InferV {
    InferV {
        subst: SubstV { bindings: Seq::empty(), widths: Map::empty() },
        next_var: 0,
        defaults: Seq::empty(),
        constraints: Seq::empty(),
        registry,
        node_types: Map::empty(),
        param_types: Seq::empty(),
        target_types: Seq::empty(),
        active: Map::empty(),
        quantified: Set::empty(),
        loops: Seq::empty(),
        type_names: Seq::empty(),
        divs: Seq::empty(),
        in_progress: Map::empty(),
        lambdas: Map::empty(),
        patterns: None,
        fields: Seq::empty(),
        calls: Seq::empty(),
        indices: Seq::empty(),
    }
}

/// The state after a variable was made.
pub open spec fn minted(st: InferV) -> InferV {
    InferV { next_var: following(st.next_var), ..st }
}

/// The variable that is made next.
pub open spec fn next_var(st: InferV) -> TyV {
    TyV::Var(st.next_var)
}

/// The state with one more constraint.
pub open spec fn demanding(st: InferV, c: ConstraintV) -> InferV {
    InferV { constraints: st.constraints.push(c), ..st }
}

/// The result of a step that may fail.
pub open spec fn ty_result(r: Result<Ty, TypeError>) -> Result<TyV, TypeErrorV> {
    match r {
        Ok(t) => Ok(t@),
        Err(e) => Err(e@),
    }
}

/// The result of a step that may fail and gives nothing.
pub open spec fn unit_result(r: Result<(), TypeError>) -> Result<(), TypeErrorV> {
    match r {
        Ok(_) => Ok(()),
        Err(e) => Err(e@),
    }
}

impl<'r> Infer<'r> {
    /// Inference that knows nothing yet.
    pub fn new(registry: &'r Registry) -> (r: Self)
        ensures
            r@ == initial(*registry),
    {
        let out = Infer {
            subst: Subst::new(),
            vars: TyVarGen(0),
            pending_defaults: Vec::new(),
            constraints: Vec::new(),
            registry,
            node_types: Table::new(),
            param_types: Vec::new(),
            target_types: Vec::new(),
            active_generics: Table::new(),
            quantified: Vec::new(),
            loop_stack: Vec::new(),
            pending_type_name_checks: Vec::new(),
            pending_div_by_zero_checks: Vec::new(),
            in_progress_methods: Table::new(),
            lambda_schemes: Table::new(),
            inherent_patterns: None,
            pending_field_accesses: Vec::new(),
            pending_method_calls: Vec::new(),
            pending_indices: Vec::new(),
        };
        assert(out.quantified@.to_set() =~= Set::empty());
        out
    }

    /// Inference that also knows the results of the methods in `patterns`.
    pub fn with_inherent_patterns(
        self,
        patterns: &'r Table<(String, String), InherentMethodPattern>,
    ) -> (r: Self)
        ensures
            r@ == (InferV { patterns: Some(patterns@), ..self@ }),
    {
        let mut out = self;
        out.inherent_patterns = Some(patterns);
        out
    }

    /// A variable that was not made before.
    pub(crate) fn fresh(&mut self) -> (r: Ty)
        ensures
            r@ == next_var(old(self)@),
            final(self)@ == minted(old(self)@),
    {
        self.vars.fresh()
    }

    /// Demands that an impl exists.
    pub(crate) fn demand(&mut self, c: Constraint)
        ensures
            final(self)@ == demanding(old(self)@, c@),
    {
        self.constraints.push(c);
    }
}

} // verus!
