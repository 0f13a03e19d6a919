//! Rewrite rules from the laws that algebras declare.

use vstd::prelude::*;

use crate::ast::{AxiomDecl, Expr, ExprKind, GenericParam, Param, Type};
use crate::infer_types::{path_name, path_text};
use crate::lang::opt_text;
use crate::listing::{entry_place, Listing, NameSet};
use crate::print::{fmt_type, type_text};
use crate::registry::{declaring_from, Registry};
use crate::table::{group_views, holds_name, views, Table};
use crate::text;
use crate::text::parsed_u64;
use crate::text_parts::{bracketed, comma_parts, is_float_text};
use crate::text_parts::{concrete_type_of, denotes_float, split_top_level_commas};

verus! {

broadcast use group_views;

/// A node of a pattern. A child is named by its place in the list of nodes; the
/// last node is the root.
#[derive(PartialEq, Eq, Debug)]
pub enum PatNode {
    /// A variable, which matches any term.
    Var(String),
    Op(String, Vec<usize>),
    Int(u64),
    /// A floating-point number, by its bits.
    Float(u64),
    /// A floating-point number, as it is written.
    FloatText(String),
    Bool(bool),
}

/// What a [`PatNode`] is, with texts and lists as sequences.
#[verifier::ext_equal]
pub enum PatNodeV {
    Var(Seq<char>),
    Op(Seq<char>, Seq<usize>),
    Int(u64),
    Float(u64),
    FloatText(Seq<char>),
    Bool(bool),
}

impl View for PatNode {
    type V = PatNodeV;

    open spec fn view(&self) -> PatNodeV {
        match *self {
            PatNode::Var(name) => PatNodeV::Var(name@),
            PatNode::Op(sym, children) => PatNodeV::Op(sym@, children@),
            PatNode::Int(n) => PatNodeV::Int(n),
            PatNode::Float(n) => PatNodeV::Float(n),
            PatNode::FloatText(t) => PatNodeV::FloatText(t@),
            PatNode::Bool(b) => PatNodeV::Bool(b),
        }
    }
}

/// What a rule puts beside a term that it matches.
pub enum RewriteSide {
    /// The term that a pattern describes.
    Pattern(Vec<PatNode>),
    /// A zero, where the term is the derivative of `?a` by `?x` and `?a` does not
    /// depend on `?x`. The table names the one field of each struct that is shaped
    /// like an array.
    IndependentZero(Table<String, String>),
}

#[verifier::ext_equal]
pub enum RewriteSideV {
    Pattern(Seq<PatNodeV>),
    IndependentZero(Map<Seq<char>, Seq<char>>),
}

impl View for RewriteSide {
    type V = RewriteSideV;

    open spec fn view(&self) -> RewriteSideV {
        match *self {
            RewriteSide::Pattern(ast) => RewriteSideV::Pattern(views(ast@)),
            RewriteSide::IndependentZero(fields) => RewriteSideV::IndependentZero(fields@),
        }
    }
}

/// A rule: a term that the left side matches equals what the right side gives.
pub struct Rewrite {
    pub name: String,
    pub lhs: Vec<PatNode>,
    pub rhs: RewriteSide,
}

#[verifier::ext_equal]
pub struct RewriteV {
    pub name: Seq<char>,
    pub lhs: Seq<PatNodeV>,
    pub rhs: RewriteSideV,
}

impl View for Rewrite {
    type V = RewriteV;

    open spec fn view(&self) -> RewriteV {
        RewriteV { name: self.name@, lhs: views(self.lhs@), rhs: self.rhs@ }
    }
}

/// A rule or nothing, by its view.
pub open spec fn opt_rewrite(r: Option<Rewrite>) -> Option<RewriteV> {
    match r {
        Some(rw) => Some(rw@),
        None => None,
    }
}

/// Whether every variable of the second pattern occurs in the first.
pub open spec fn binds_all(lhs: Seq<PatNodeV>, rhs: Seq<PatNodeV>) -> bool {
    forall|i: int|
        0 <= i < rhs.len() && (#[trigger] rhs[i]) is Var ==> lhs.contains(rhs[i])
}

/// The rule from one pattern to another, where the first binds every variable of the
/// second.
pub open spec fn rule_of(name: Seq<char>, lhs: Seq<PatNodeV>, rhs: Seq<PatNodeV>) -> Option<
    RewriteV,
> {
    if binds_all(lhs, rhs) {
        Some(RewriteV { name, lhs, rhs: RewriteSideV::Pattern(rhs) })
    } else {
        None
    }
}

fn binds_var(lhs: &Vec<PatNode>, name: &String) -> (r: bool)
    ensures
        r == views(lhs@).contains(PatNodeV::Var(name@)),
{
    let mut i: usize = 0;
    let ghost all = views(lhs@);
    while i < lhs.len()
        invariant
            i <= lhs.len(),
            all == views(lhs@),
            forall|k: int| 0 <= k < i ==> #[trigger] all[k] != PatNodeV::Var(name@),
        decreases lhs.len() - i,
    {
        assert(all[i as int] == lhs@[i as int]@);
        if let PatNode::Var(v) = &lhs[i] {
            if *v == *name {
                return true;
            }
        }
        i = i + 1;
    }
    false
}

/// The rule from one pattern to another.
pub fn new_rewrite(name: String, lhs: Vec<PatNode>, rhs: Vec<PatNode>) -> (r: Option<Rewrite>)
    ensures
        opt_rewrite(r) == rule_of(name@, views(lhs@), views(rhs@)),
{
    let mut i: usize = 0;
    let ghost all = views(rhs@);
    while i < rhs.len()
        invariant
            i <= rhs.len(),
            all == views(rhs@),
            forall|k: int|
                0 <= k < i && (#[trigger] all[k]) is Var ==> views(lhs@).contains(all[k]),
        decreases rhs.len() - i,
    {
        assert(all[i as int] == rhs@[i as int]@);
        if let PatNode::Var(v) = &rhs[i] {
            if !binds_var(&lhs, v) {
                return None;
            }
        }
        i = i + 1;
    }
    Some(Rewrite { name, lhs, rhs: RewriteSide::Pattern(rhs) })
}

/// The names of the first `n` generics that are types.
pub open spec fn type_generics(generics: Seq<GenericParam>, n: nat) -> Seq<Seq<char>>
    decreases n,
{
    if n == 0 || n > generics.len() {
        Seq::empty()
    } else {
        let before = type_generics(generics, (n - 1) as nat);
        if generics[n - 1] is Const {
            before
        } else {
            before.push(generics[n - 1].spec_name())
        }
    }
}

/// The first `n` names with the texts at the same positions; a later one hides an
/// earlier one.
pub open spec fn zipped(names: Seq<Seq<char>>, texts: Seq<Seq<char>>, n: nat) -> Map<
    Seq<char>,
    Seq<char>,
>
    decreases n,
{
    if n == 0 || n > names.len() || n > texts.len() {
        Map::empty()
    } else {
        zipped(names, texts, (n - 1) as nat).insert(names[n - 1], texts[n - 1])
    }
}

/// The shorter of two lengths.
pub open spec fn shorter(a: nat, b: nat) -> nat {
    if a < b {
        a
    } else {
        b
    }
}

/// What each type generic of an algebra stands for, where its types are written so.
pub open spec fn generics_as(algebra: Seq<char>, ty: Seq<char>, registry: Registry) -> Map<
    Seq<char>,
    Seq<char>,
> {
    let generics = registry.generics_of(algebra);
    let names = type_generics(generics, generics.len());
    let parts = comma_parts(ty);
    zipped(names, parts, shorter(names.len(), parts.len()))
}

/// What a declared type stands for, where it is one of the generics.
pub open spec fn declared_as(declared: Type, subst: Map<Seq<char>, Seq<char>>) -> Option<Seq<char>> {
    if subst.contains_key(type_text(declared)) {
        Some(subst[type_text(declared)])
    } else {
        None
    }
}

/// What each type generic of an algebra stands for.
pub fn generic_substitution(algebra: &str, ty: &str, registry: &Registry) -> (r: Table<
    String,
    String,
>)
    ensures
        r@ == generics_as(algebra@, ty@, *registry),
{
    let parts: Vec<String> = split_top_level_commas(ty);
    let mut names: Vec<String> = Vec::new();
    if let Some(a) = registry.algebra(algebra) {
        let mut i: usize = 0;
        while i < a.generics.len()
            invariant
                i <= a.generics.len(),
                views(names@) == type_generics(a.generics@, i as nat),
            decreases a.generics.len() - i,
        {
            match &a.generics[i] {
                GenericParam::Const { .. } => {},
                GenericParam::Type { name, .. } => {
                    names.push(name.clone());
                },
            }
            i = i + 1;
        }
    }
    let ghost listed = views(names@);
    let ghost texts = views(parts@);
    let mut out: Table<String, String> = Table::new();
    let mut k: usize = 0;
    while k < names.len() && k < parts.len()
        invariant
            k <= names.len(),
            k <= parts.len(),
            listed == views(names@),
            texts == views(parts@),
            out@ == zipped(listed, texts, k as nat),
        decreases names.len() - k,
    {
        assert(listed[k as int] == names@[k as int]@);
        assert(texts[k as int] == parts@[k as int]@);
        out.insert(names[k].clone(), parts[k].clone());
        k = k + 1;
    }
    out
}

/// What a declared type stands for, where it is one of the generics.
pub fn resolve_declared_type(declared: &Type, subst: &Table<String, String>) -> (r: Option<String>)
    ensures
        opt_text(r) == declared_as(*declared, subst@),
{
    let name: String = fmt_type(declared);
    match subst.get(&name) {
        Some(t) => Some(t.clone()),
        None => None,
    }
}

/// The variable that stands for what a derivative is taken by.
pub const DIFF_VAR: &'static str = "?__diff_x";

/// Where a law is read: the algebra that declares it, the types that it is read for,
/// the types of its parameters, and whether `d(..)` stands for a derivative.
pub struct LawV {
    pub algebra: Seq<char>,
    pub ty: Seq<char>,
    pub type_env: Map<Seq<char>, Seq<char>>,
    pub differentiates: bool,
}

/// Where a law is read.
pub struct Law<'a> {
    pub algebra: &'a str,
    pub ty: &'a str,
    pub type_env: &'a Table<String, String>,
    pub differentiates: bool,
}

impl<'a> View for Law<'a> {
    type V = LawV;

    open spec fn view(&self) -> LawV {
        LawV {
            algebra: self.algebra@,
            ty: self.ty@,
            type_env: self.type_env@,
            differentiates: self.differentiates,
        }
    }
}

/// A pattern in the making.
#[verifier::ext_equal]
pub struct DraftV {
    pub ast: Seq<PatNodeV>,
    /// The functions that the pattern mentions.
    pub referenced: Set<Seq<char>>,
}

/// A pattern in the making.
pub struct Draft {
    pub ast: Vec<PatNode>,
    pub referenced: NameSet,
}

impl View for Draft {
    type V = DraftV;

    open spec fn view(&self) -> DraftV {
        DraftV { ast: views(self.ast@), referenced: self.referenced@ }
    }
}

/// A node that was put into a pattern, and its type where it is known.
pub struct DrawnV {
    pub draft: DraftV,
    pub place: usize,
    pub ty: Option<Seq<char>>,
}

/// Nodes that were put into a pattern, and their types.
pub struct DrawnAllV {
    pub draft: DraftV,
    pub places: Seq<usize>,
    pub tys: Seq<Option<Seq<char>>>,
}

/// A draft with one more node.
pub open spec fn drawn_node(draft: DraftV, node: PatNodeV, ty: Option<Seq<char>>) -> DrawnV {
    DrawnV {
        draft: DraftV { ast: draft.ast.push(node), ..draft },
        place: draft.ast.len() as usize,
        ty,
    }
}

/// Whether types are written as those of floating-point numbers.
pub open spec fn is_float_name(ty: Seq<char>) -> bool {
    ty == "f32"@ || ty == "f64"@
}

/// The algebra that declares a function that a law calls: the law's own, or the only
/// one that does.
pub open spec fn owner_of(law: LawV, registry: Registry, method: Seq<char>, arity: nat) -> Option<
    Seq<char>,
> {
    if registry.sig_of(law.algebra, method) matches Some(sig) && sig.params@.len() == arity {
        Some(law.algebra)
    } else {
        let declaring = declaring_from(registry, 0, method, arity);
        if declaring.len() == 1 {
            Some(declaring[0])
        } else {
            None
        }
    }
}

/// What the first `n` types that are known agree on.
pub struct AgreedV {
    pub same: bool,
    pub ty: Option<Seq<char>>,
}

pub open spec fn agreed(tys: Seq<Option<Seq<char>>>, n: nat) -> AgreedV
    decreases n,
{
    if n == 0 || n > tys.len() {
        AgreedV { same: true, ty: None }
    } else {
        let before = agreed(tys, (n - 1) as nat);
        match (before.ty, tys[n - 1]) {
            (_, None) => before,
            (None, Some(t)) => AgreedV { same: before.same, ty: Some(t) },
            (Some(a), Some(t)) => AgreedV { same: before.same && a == t, ty: Some(a) },
        }
    }
}

/// The types that a function is called with in a law: those of the law where the
/// algebra is the law's own, otherwise the one type of the arguments.
pub open spec fn call_type(
    law: LawV,
    owner: Seq<char>,
    tys: Seq<Option<Seq<char>>>,
) -> Option<Seq<char>> {
    if owner == law.algebra {
        Some(law.ty)
    } else {
        let a = agreed(tys, tys.len());
        if a.same {
            a.ty
        } else {
            None
        }
    }
}

/// The type of what a function of an algebra returns, where it is one of the
/// generics.
pub open spec fn return_type(
    registry: Registry,
    owner: Seq<char>,
    method: Seq<char>,
    ty: Seq<char>,
) -> Option<Seq<char>> {
    match registry.sig_of(owner, method) {
        Some(sig) => match sig.ret {
            Some(ret) => declared_as(ret, generics_as(owner, ty, registry)),
            None => None,
        },
        None => None,
    }
}

/// The name of a function of an algebra for given types.
pub open spec fn unit_text(owner: Seq<char>, method: Seq<char>, ty: Seq<char>) -> Seq<char> {
    owner + "::"@ + method + "<"@ + ty + ">"@
}

/// Puts an expression of a law into a pattern. None where it is not a parameter, a
/// literal, a derivative or a call of a function that exactly one algebra declares.
pub open spec fn drawn(e: Expr, law: LawV, registry: Registry, draft: DraftV) -> Option<DrawnV>
    decreases e, 0nat,
{
    match e.kind {
        ExprKind::Path(p) => if law.type_env.contains_key(path_name(p)) {
            Some(
                drawn_node(
                    draft,
                    PatNodeV::Var("?"@ + path_name(p)),
                    Some(law.type_env[path_name(p)]),
                ),
            )
        } else {
            None
        },
        ExprKind::NumberLit { text, .. } => if is_float_name(law.ty) {
            if is_float_text(text@) {
                Some(drawn_node(draft, PatNodeV::FloatText(text@), None))
            } else {
                None
            }
        } else {
            match parsed_u64(text@) {
                Some(n) => Some(drawn_node(draft, PatNodeV::Int(n), None)),
                None => None,
            }
        },
        ExprKind::BoolLit(b) => Some(drawn_node(draft, PatNodeV::Bool(b), None)),
        ExprKind::Call(path, _, args, _) => if path_name(path) == "d"@ && law.differentiates {
            if args@.len() != 1 {
                None
            } else {
                match drawn(args@[0], law, registry, draft) {
                    None => None,
                    Some(inner) => {
                        let x = drawn_node(inner.draft, PatNodeV::Var(DIFF_VAR@), None);
                        Some(
                            drawn_node(
                                x.draft,
                                PatNodeV::Op("derivative"@, seq![inner.place, x.place]),
                                inner.ty,
                            ),
                        )
                    },
                }
            }
        } else {
            let method = path_name(path);
            match owner_of(law, registry, method, args@.len()) {
                None => None,
                Some(owner) => match drawn_first(args, args@.len(), law, registry, draft) {
                    None => None,
                    Some(all) => match call_type(law, owner, all.tys) {
                        None => None,
                        Some(ty) => {
                            let unit = unit_text(owner, method, ty);
                            Some(
                                drawn_node(
                                    DraftV {
                                        referenced: all.draft.referenced.insert(unit),
                                        ..all.draft
                                    },
                                    PatNodeV::Op(unit, all.places),
                                    return_type(registry, owner, method, ty),
                                ),
                            )
                        },
                    },
                },
            }
        },
        _ => None,
    }
}

/// Puts the first `n` arguments of a call into a pattern.
pub open spec fn drawn_first(
    args: Vec<Expr>,
    n: nat,
    law: LawV,
    registry: Registry,
    draft: DraftV,
) -> Option<DrawnAllV>
    decreases args, n,
{
    if n == 0 || n > args@.len() {
        Some(DrawnAllV { draft, places: Seq::empty(), tys: Seq::empty() })
    } else {
        match drawn_first(args, (n - 1) as nat, law, registry, draft) {
            None => None,
            Some(before) => match drawn(args@[n - 1], law, registry, before.draft) {
                None => None,
                Some(one) => Some(
                    DrawnAllV {
                        draft: one.draft,
                        places: before.places.push(one.place),
                        tys: before.tys.push(one.ty),
                    },
                ),
            },
        }
    }
}

/// Texts or nothing, as sequences.
pub open spec fn opt_texts(s: Seq<Option<String>>) -> Seq<Option<Seq<char>>> {
    Seq::new(s.len(), |i: int| opt_text(s[i]))
}

fn find_owner(law: &Law, registry: &Registry, method: &String, arity: usize) -> (r: Option<String>)
    ensures
        opt_text(r) == owner_of(law@, *registry, method@, arity as nat),
{
    if let Some(sig) = registry.fn_sig(law.algebra, method.as_str()) {
        if sig.params.len() == arity {
            return Some(law.algebra.to_owned());
        }
    }
    let declaring: Vec<String> = registry.algebras_with_fn(method.as_str(), arity);
    if declaring.len() == 1 {
        assert(views(declaring@)[0] == declaring@[0]@);
        Some(declaring[0].clone())
    } else {
        None
    }
}

fn find_call_type(law: &Law, owner: &String, tys: &Vec<Option<String>>) -> (r: Option<String>)
    ensures
        opt_text(r) == call_type(law@, owner@, opt_texts(tys@)),
{
    if text::same(owner.as_str(), law.algebra) {
        return Some(law.ty.to_owned());
    }
    let ghost all = opt_texts(tys@);
    let mut same: bool = true;
    let mut found: Option<String> = None;
    let mut i: usize = 0;
    while i < tys.len()
        invariant
            i <= tys.len(),
            all == opt_texts(tys@),
            same == agreed(all, i as nat).same,
            opt_text(found) == agreed(all, i as nat).ty,
        decreases tys.len() - i,
    {
        assert(all[i as int] == opt_text(tys@[i as int]));
        if let Some(t) = &tys[i] {
            match &found {
                None => {
                    found = Some(t.clone());
                },
                Some(a) => {
                    if *a != *t {
                        same = false;
                    }
                },
            }
        }
        i = i + 1;
    }
    if same {
        found
    } else {
        None
    }
}

fn find_return_type(registry: &Registry, owner: &String, method: &String, ty: &String) -> (r: Option<
    String,
>)
    ensures
        opt_text(r) == return_type(*registry, owner@, method@, ty@),
{
    match registry.fn_sig(owner.as_str(), method.as_str()) {
        None => None,
        Some(sig) => match &sig.ret {
            None => None,
            Some(ret) => {
                let subst: Table<String, String> = generic_substitution(
                    owner.as_str(),
                    ty.as_str(),
                    registry,
                );
                resolve_declared_type(ret, &subst)
            },
        },
    }
}

/// The name of a function of an algebra for given types.
pub fn unit_name_text(owner: &str, method: &str, ty: &str) -> (r: String)
    ensures
        r@ == unit_text(owner@, method@, ty@),
{
    let mut out: String = owner.to_owned();
    out.append("::");
    out.append(method);
    out.append("<");
    out.append(ty);
    out.append(">");
    out
}

/// Whether types are written as those of floating-point numbers.
pub fn names_float(ty: &str) -> (r: bool)
    ensures
        r == is_float_name(ty@),
{
    text::same(ty, "f32") || text::same(ty, "f64")
}

/// A node that was put into a pattern, and its type where it is known.
pub struct Drawn {
    pub place: usize,
    pub ty: Option<String>,
}

/// What was drawn, if it could be.
pub open spec fn drew(r: Option<Drawn>, draft: DraftV, wanted: Option<DrawnV>) -> bool {
    match r {
        Some(d) => wanted matches Some(w) && w.draft == draft && w.place == d.place && w.ty
            == opt_text(d.ty),
        None => wanted is None,
    }
}

impl Draft {
    /// A pattern without nodes.
    pub fn new() -> (r: Self)
        ensures
            r@ == (DraftV { ast: Seq::empty(), referenced: Set::empty() }),
    {
        Draft { ast: Vec::new(), referenced: NameSet::new() }
    }

    /// Puts a node after the others.
    pub fn draw_node(&mut self, node: PatNode, ty: Option<String>) -> (r: Drawn)
        ensures
            ({
                let d = drawn_node(old(self)@, node@, opt_text(ty));
                final(self)@ == d.draft && r.place == d.place && opt_text(r.ty) == d.ty
            }),
    {
        let place: usize = self.ast.len();
        self.ast.push(node);
        Drawn { place, ty }
    }

    /// Puts an expression of a law into the pattern. Where that cannot be done, what
    /// the pattern holds does not matter.
    pub fn build_pattern(&mut self, expr: &Expr, law: &Law, registry: &Registry) -> (r: Option<
        Drawn,
    >)
        ensures
            drew(r, final(self)@, drawn(*expr, law@, *registry, old(self)@)),
        decreases expr, 0nat,
    {
        match &expr.kind {
            ExprKind::Path(p) => {
                let name: String = path_text(p);
                match law.type_env.get(&name) {
                    None => None,
                    Some(ty) => {
                        let ty_copy: String = ty.clone();
                        let var: String = text::glued("?", name.as_str());
                        Some(self.draw_node(PatNode::Var(var), Some(ty_copy)))
                    },
                }
            },
            ExprKind::NumberLit { text, .. } => if names_float(law.ty) {
                if denotes_float(text.as_str()) {
                    Some(self.draw_node(PatNode::FloatText(text.clone()), None))
                } else {
                    None
                }
            } else {
                match text::parse_u64(text.as_str()) {
                    Some(n) => Some(self.draw_node(PatNode::Int(n), None)),
                    None => None,
                }
            },
            ExprKind::BoolLit(b) => Some(self.draw_node(PatNode::Bool(*b), None)),
            ExprKind::Call(path, _, args, _) => {
                let method: String = path_text(path);
                if text::same(method.as_str(), "d") && law.differentiates {
                    if args.len() != 1 {
                        return None;
                    }
                    match self.build_pattern(&args[0], law, registry) {
                        None => None,
                        Some(inner) => {
                            let x: Drawn = self.draw_node(
                                PatNode::Var(DIFF_VAR.to_owned()),
                                None,
                            );
                            let mut children: Vec<usize> = Vec::new();
                            children.push(inner.place);
                            children.push(x.place);
                            assert(children@ =~= seq![inner.place, x.place]);
                            Some(
                                self.draw_node(
                                    PatNode::Op("derivative".to_owned(), children),
                                    inner.ty,
                                ),
                            )
                        },
                    }
                } else {
                    let owner: String = match find_owner(law, registry, &method, args.len()) {
                        Some(owner) => owner,
                        None => {
                            return None;
                        },
                    };
                    let mut places: Vec<usize> = Vec::new();
                    let mut tys: Vec<Option<String>> = Vec::new();
                    if !self.build_args(args, law, registry, &mut places, &mut tys) {
                        return None;
                    }
                    let ty: String = match find_call_type(law, &owner, &tys) {
                        Some(ty) => ty,
                        None => {
                            return None;
                        },
                    };
                    let unit: String = unit_name_text(owner.as_str(), method.as_str(), ty.as_str());
                    self.referenced.add_name(&unit);
                    let result: Option<String> = find_return_type(registry, &owner, &method, &ty);
                    Some(self.draw_node(PatNode::Op(unit, places), result))
                }
            },
            _ => None,
        }
    }

    fn build_args(
        &mut self,
        args: &Vec<Expr>,
        law: &Law,
        registry: &Registry,
        places: &mut Vec<usize>,
        tys: &mut Vec<Option<String>>,
    ) -> (r: bool)
        requires
            old(places)@.len() == 0,
            old(tys)@.len() == 0,
        ensures
            match drawn_first(*args, args@.len(), law@, *registry, old(self)@) {
                Some(all) => r && final(self)@ == all.draft && final(places)@ == all.places
                    && opt_texts(final(tys)@) == all.tys,
                None => !r,
            },
        decreases args, 0nat,
    {
        let mut i: usize = 0;
        let mut fine: bool = true;
        assert(places@ =~= Seq::<usize>::empty());
        assert(opt_texts(tys@) =~= Seq::<Option<Seq<char>>>::empty());
        while i < args.len()
            invariant
                i <= args.len(),
                match drawn_first(*args, i as nat, law@, *registry, old(self)@) {
                    Some(all) => fine && self@ == all.draft && places@ == all.places && opt_texts(
                        tys@,
                    ) == all.tys,
                    None => !fine,
                },
            decreases args.len() - i,
        {
            if fine {
                let ghost before = opt_texts(tys@);
                match self.build_pattern(&args[i], law, registry) {
                    Some(one) => {
                        places.push(one.place);
                        let ghost t = opt_text(one.ty);
                        tys.push(one.ty);
                        assert(opt_texts(tys@) =~= before.push(t));
                    },
                    None => {
                        fine = false;
                    },
                }
            }
            i = i + 1;
        }
        fine
    }
}

/// The first `n` parameters, each with the types.
pub open spec fn params_as(params: Seq<Param>, n: nat, ty: Seq<char>) -> Map<Seq<char>, Seq<char>>
    decreases n,
{
    if n == 0 || n > params.len() {
        Map::empty()
    } else {
        params_as(params, (n - 1) as nat, ty).insert(params[n - 1].name@, ty)
    }
}

pub open spec fn no_nodes(referenced: Set<Seq<char>>) -> DraftV {
    DraftV { ast: Seq::empty(), referenced }
}

/// The rule that an axiom is for given types, where it says that two terms are equal
/// and both can be put into patterns.
pub open spec fn axiom_rule(
    algebra: Seq<char>,
    ty: Seq<char>,
    decl: AxiomDecl,
    registry: Registry,
) -> Option<RewriteV> {
    let law = LawV {
        algebra,
        ty,
        type_env: params_as(decl.params@, decl.params@.len(), ty),
        differentiates: false,
    };
    match decl.body.kind {
        ExprKind::Call(path, _, args, _) => if args@.len() != 2 || path_name(path) != "eq"@ {
            None
        } else {
            match drawn(args@[0], law, registry, no_nodes(Set::empty())) {
                None => None,
                Some(l) => match drawn(
                    args@[1],
                    law,
                    registry,
                    no_nodes(l.draft.referenced),
                ) {
                    None => None,
                    Some(r) => rule_of(
                        decl.name@ + "@"@ + algebra + "<"@ + ty + ">"@,
                        l.draft.ast,
                        r.draft.ast,
                    ),
                },
            }
        },
        _ => None,
    }
}

/// The rule that an axiom is for given types.
pub fn axiom_to_rewrite(algebra: &str, ty: &str, decl: &AxiomDecl, registry: &Registry) -> (r:
    Option<Rewrite>)
    ensures
        opt_rewrite(r) == axiom_rule(algebra@, ty@, *decl, *registry),
{
    let mut type_env: Table<String, String> = Table::new();
    let mut i: usize = 0;
    while i < decl.params.len()
        invariant
            i <= decl.params.len(),
            type_env@ == params_as(decl.params@, i as nat, ty@),
        decreases decl.params.len() - i,
    {
        type_env.insert(decl.params[i].name.clone(), ty.to_owned());
        i = i + 1;
    }
    let law: Law = Law { algebra, ty, type_env: &type_env, differentiates: false };
    match &decl.body.kind {
        ExprKind::Call(path, _, args, _) => {
            if args.len() != 2 || !text::same(path_text(path).as_str(), "eq") {
                return None;
            }
            let mut lhs: Draft = Draft::new();
            if lhs.build_pattern(&args[0], &law, registry).is_none() {
                return None;
            }
            let mut rhs: Draft = Draft { ast: Vec::new(), referenced: lhs.referenced.copy() };
            if rhs.build_pattern(&args[1], &law, registry).is_none() {
                return None;
            }
            let mut name: String = decl.name.clone();
            name.append("@");
            name.append(algebra);
            name.append("<");
            name.append(ty);
            name.append(">");
            new_rewrite(name, lhs.ast, rhs.ast)
        },
        _ => None,
    }
}

/// The types that each algebra was reached with.
pub type ReachedV = Seq<(Seq<char>, Seq<Seq<char>>)>;

/// The types with one more for an algebra, unless it is there.
pub open spec fn with_reached(groups: ReachedV, algebra: Seq<char>, ty: Seq<char>) -> ReachedV {
    let i = entry_place(groups, algebra, 0);
    if i < groups.len() {
        if groups[i as int].1.contains(ty) {
            groups
        } else {
            groups.update(i as int, (groups[i as int].0, groups[i as int].1.push(ty)))
        }
    } else {
        groups.push((algebra, seq![ty]))
    }
}

/// The types that each algebra was reached with by the first `n` functions, in the
/// order in which they were reached.
pub open spec fn reached_types(
    reached: Seq<(Seq<char>, (Seq<char>, Seq<char>))>,
    n: nat,
) -> ReachedV
    decreases n,
{
    if n == 0 || n > reached.len() {
        Seq::empty()
    } else {
        let before = reached_types(reached, (n - 1) as nat);
        match bracketed(reached[n - 1].0) {
            Some(ty) => with_reached(before, reached[n - 1].1.0, ty),
            None => before,
        }
    }
}

/// The types that one algebra was reached with.
pub struct ReachedTypes {
    pub algebra: String,
    pub types: Vec<String>,
}

impl View for ReachedTypes {
    type V = (Seq<char>, Seq<Seq<char>>);

    open spec fn view(&self) -> (Seq<char>, Seq<Seq<char>>) {
        (self.algebra@, views(self.types@))
    }
}

fn note_reached(groups: &mut Vec<ReachedTypes>, algebra: &String, ty: &str)
    ensures
        views(final(groups)@) == with_reached(views(old(groups)@), algebra@, ty@),
{
    let ghost all = views(groups@);
    let mut i: usize = 0;
    while i < groups.len() && groups[i].algebra != *algebra
        invariant
            i <= groups.len(),
            groups@ == old(groups)@,
            all == views(groups@),
            entry_place(all, algebra@, 0) == entry_place(all, algebra@, i as nat),
        decreases groups.len() - i,
    {
        assert(all[i as int] == groups@[i as int]@);
        i = i + 1;
    }
    let ty_copy: String = ty.to_owned();
    if i < groups.len() {
        assert(all[i as int] == groups@[i as int]@);
        if !holds_name(&groups[i].types, &ty_copy) {
            let mut types: Vec<String> = crate::table::dup_list(&groups[i].types);
            let name: String = groups[i].algebra.clone();
            types.push(ty_copy);
            let ghost now = (name@, views(types@));
            groups[i] = ReachedTypes { algebra: name, types };
            assert(views(groups@) =~= all.update(i as int, now));
        }
    } else {
        let mut types: Vec<String> = Vec::new();
        types.push(ty_copy);
        assert(views(types@) =~= seq![ty@]);
        groups.push(ReachedTypes { algebra: algebra.clone(), types });
    }
}

/// The types that each algebra was reached with.
pub fn group_reached(reached: &Listing<(String, String)>) -> (r: Vec<ReachedTypes>)
    ensures
        views(r@) == reached_types(reached@, reached@.len()),
{
    let mut out: Vec<ReachedTypes> = Vec::new();
    let mut i: usize = 0;
    while i < reached.entries.len()
        invariant
            i <= reached.entries.len(),
            views(out@) == reached_types(reached@, i as nat),
        decreases reached.entries.len() - i,
    {
        let entry = &reached.entries[i];
        assert(reached@[i as int] == entry@);
        if let Some(ty) = concrete_type_of(entry.0.as_str()) {
            note_reached(&mut out, &entry.1.0, ty);
        }
        i = i + 1;
    }
    out
}

/// The rules with one more, if there is one.
pub open spec fn with_rule(rules: Seq<RewriteV>, rule: Option<RewriteV>) -> Seq<RewriteV> {
    match rule {
        Some(r) => rules.push(r),
        None => rules,
    }
}

/// The rules that an axiom is for the first `n` types, after the others.
pub open spec fn axiom_rules_for(
    algebra: Seq<char>,
    types: Seq<Seq<char>>,
    n: nat,
    decl: AxiomDecl,
    registry: Registry,
    rules: Seq<RewriteV>,
) -> Seq<RewriteV>
    decreases n,
{
    if n == 0 || n > types.len() {
        rules
    } else {
        with_rule(
            axiom_rules_for(algebra, types, (n - 1) as nat, decl, registry, rules),
            axiom_rule(algebra, types[n - 1], decl, registry),
        )
    }
}

/// The rules that the first `n` axioms of an algebra are, after the others.
pub open spec fn algebra_rules(
    algebra: Seq<char>,
    types: Seq<Seq<char>>,
    axioms: Seq<AxiomDecl>,
    n: nat,
    registry: Registry,
    rules: Seq<RewriteV>,
) -> Seq<RewriteV>
    decreases n,
{
    if n == 0 || n > axioms.len() {
        rules
    } else {
        axiom_rules_for(
            algebra,
            types,
            types.len(),
            axioms[n - 1],
            registry,
            algebra_rules(algebra, types, axioms, (n - 1) as nat, registry, rules),
        )
    }
}

/// The axioms of an algebra.
pub open spec fn axioms_of(registry: Registry, algebra: Seq<char>) -> Seq<AxiomDecl> {
    match registry.algebra_of(algebra) {
        Some(a) => a.axioms@,
        None => Seq::empty(),
    }
}

/// The rules that the axioms of the first `n` algebras are.
pub open spec fn axiom_rules(groups: ReachedV, n: nat, registry: Registry) -> Seq<RewriteV>
    decreases n,
{
    if n == 0 || n > groups.len() {
        Seq::empty()
    } else {
        let g = groups[n - 1];
        let axioms = axioms_of(registry, g.0);
        algebra_rules(
            g.0,
            g.1,
            axioms,
            axioms.len(),
            registry,
            axiom_rules(groups, (n - 1) as nat, registry),
        )
    }
}

/// The rules that the axioms of the algebras that were reached are, for the types
/// that they were reached with.
pub fn axiom_rewrites(registry: &Registry, reached: &Listing<(String, String)>) -> (r: Vec<Rewrite>)
    ensures
        ({
            let groups = reached_types(reached@, reached@.len());
            views(r@) == axiom_rules(groups, groups.len(), *registry)
        }),
{
    let groups: Vec<ReachedTypes> = group_reached(reached);
    let ghost all = views(groups@);
    let mut rules: Vec<Rewrite> = Vec::new();
    let mut g: usize = 0;
    while g < groups.len()
        invariant
            g <= groups.len(),
            all == views(groups@),
            views(rules@) == axiom_rules(all, g as nat, *registry),
        decreases groups.len() - g,
    {
        let group = &groups[g];
        assert(all[g as int] == group@);
        if let Some(a) = registry.algebra(group.algebra.as_str()) {
            add_algebra_rules(group, &a.axioms, registry, &mut rules);
        }
        g = g + 1;
    }
    rules
}

fn add_algebra_rules(
    group: &ReachedTypes,
    axioms: &Vec<AxiomDecl>,
    registry: &Registry,
    rules: &mut Vec<Rewrite>,
)
    ensures
        views(final(rules)@) == algebra_rules(
            group@.0,
            group@.1,
            axioms@,
            axioms@.len(),
            *registry,
            views(old(rules)@),
        ),
{
    let mut i: usize = 0;
    let ghost start = views(rules@);
    while i < axioms.len()
        invariant
            i <= axioms.len(),
            start == views(old(rules)@),
            views(rules@) == algebra_rules(
                group@.0,
                group@.1,
                axioms@,
                i as nat,
                *registry,
                start,
            ),
        decreases axioms.len() - i,
    {
        let ghost before = views(rules@);
        let mut k: usize = 0;
        while k < group.types.len()
            invariant
                i < axioms.len(),
                k <= group.types.len(),
                views(rules@) == axiom_rules_for(
                    group@.0,
                    group@.1,
                    k as nat,
                    axioms@[i as int],
                    *registry,
                    before,
                ),
            decreases group.types.len() - k,
        {
            assert(group@.1[k as int] == group.types@[k as int]@);
            if let Some(rw) = axiom_to_rewrite(
                group.algebra.as_str(),
                group.types[k].as_str(),
                &axioms[i],
                registry,
            ) {
                rules.push(rw);
            }
            k = k + 1;
        }
        i = i + 1;
    }
}

} // verus!
