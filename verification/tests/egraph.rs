//! Translation, rewriting and rebuilding with a real e-graph.

use std::fmt;

use cleave::ast::{
    AxiomDecl, DerivativeRuleDecl, Expr, ExprKind, FileId, FnSig, GenericParam, NodeId, Param,
    Path, Span, Type, TypeKind,
};
use cleave::const_eval::ConstValue;
use cleave::cps::{CExpr, CFunDef, CTopLevelFn, CVal, CVar, CpsProgram, PrimOp};
use cleave::derivative_rules::{derivative_rewrites, struct_projection_rewrites};
use cleave::derive::{DerivativeRequest, Deriver};
use cleave::forward::{FieldOp, Forward, StructOp};
use cleave::fresh::FreshVars;
use cleave::lang::{CleaveLang, ConstantFold, DerivativeFreeCost, FoldData};
use cleave::listing::Listing;
use cleave::optimize::Optimizer;
use cleave::patterns::{axiom_rewrites, PatNode, Rewrite, RewriteSide};
use cleave::rebuild::{rebuild_segment, segment_root_var};
use cleave::registry::{AlgebraEntry, Registry};
use cleave::shapes::{is_straight_line, MAX_UNROLL_ITERATIONS};
use cleave::table::{Dup, Table};
use cleave::ty::Ty;
use cleave::zero::independent_zero;
use egg::{
    Analysis, Applier, AstSize, CostFunction, DidMerge, EGraph, ENodeOrVar, Extractor, Id,
    Language, Pattern, PatternAst, RecExpr, Runner, Subst, Symbol, Var,
};

// ---- the nodes, the analysis and the rules, as the e-graph wants them ----

#[derive(Debug, Clone, PartialEq, Eq, PartialOrd, Ord, Hash)]
enum Node {
    Op(String, Vec<Id>),
    Int(u64),
    Float(u64),
    Bool(bool),
    Free(String),
}

impl Node {
    fn op(name: &str, children: Vec<Id>) -> Node {
        Node::Op(name.to_string(), children)
    }

    fn free(name: &str) -> Node {
        Node::Free(name.to_string())
    }

    fn float(value: f64) -> Node {
        Node::Float(value.to_bits())
    }
}

impl fmt::Display for Node {
    fn fmt(&self, f: &mut fmt::Formatter<'_>) -> fmt::Result {
        let text = match self {
            Node::Op(name, _) => name.clone(),
            Node::Int(n) => format!("{n}"),
            Node::Float(bits) => format!("{}", f64::from_bits(*bits)),
            Node::Bool(b) => format!("{b}"),
            Node::Free(name) => name.clone(),
        };
        f.write_str(&text)
    }
}

impl Language for Node {
    type Discriminant = (u8, String);

    fn discriminant(&self) -> (u8, String) {
        match self {
            Node::Op(name, _) => (0, name.clone()),
            Node::Int(_) => (1, String::new()),
            Node::Float(_) => (2, String::new()),
            Node::Bool(_) => (3, String::new()),
            Node::Free(_) => (4, String::new()),
        }
    }

    fn matches(&self, other: &Self) -> bool {
        match (self, other) {
            (Node::Op(a, xs), Node::Op(b, ys)) => a == b && xs.len() == ys.len(),
            (Node::Int(a), Node::Int(b)) => a == b,
            (Node::Float(a), Node::Float(b)) => a == b,
            (Node::Bool(a), Node::Bool(b)) => a == b,
            (Node::Free(a), Node::Free(b)) => a == b,
            _ => false,
        }
    }

    fn children(&self) -> &[Id] {
        match self {
            Node::Op(_, children) => children,
            _ => &[],
        }
    }

    fn children_mut(&mut self) -> &mut [Id] {
        match self {
            Node::Op(_, children) => children,
            _ => &mut [],
        }
    }
}

fn place(id: Id) -> usize {
    usize::from(id)
}

fn to_lang(node: &Node) -> CleaveLang {
    match node {
        Node::Op(name, children) => {
            CleaveLang::Op(name.clone(), children.iter().map(|c| place(*c)).collect())
        }
        Node::Int(n) => CleaveLang::Int(*n),
        Node::Float(n) => CleaveLang::Float(*n),
        Node::Bool(b) => CleaveLang::Bool(*b),
        Node::Free(name) => CleaveLang::Free(name.clone()),
    }
}

fn to_node(node: &CleaveLang, ids: &[Id]) -> Node {
    match node {
        CleaveLang::Op(name, children) => {
            Node::Op(name.clone(), children.iter().map(|c| ids[*c]).collect())
        }
        CleaveLang::Int(n) => Node::Int(*n),
        CleaveLang::Float(n) => Node::Float(*n),
        CleaveLang::Bool(b) => Node::Bool(*b),
        CleaveLang::Free(name) => Node::Free(name.clone()),
    }
}

struct Fold(ConstantFold);

impl Default for Fold {
    fn default() -> Self {
        Fold(ConstantFold { known_types: Table::new() })
    }
}

fn copy_of(d: &FoldData) -> FoldData {
    FoldData {
        const_int: d.const_int,
        free_deps: d.free_deps.copy(),
        own_ty: d.own_ty.as_ref().map(|t| t.dup()),
    }
}

impl Analysis<Node> for Fold {
    type Data = FoldData;

    fn make(egraph: &mut EGraph<Node, Self>, enode: &Node, _id: Id) -> FoldData {
        let children: Vec<FoldData> =
            enode.children().iter().map(|c| copy_of(&egraph[*c].data)).collect();
        egraph.analysis.0.make(&to_lang(enode), &children)
    }

    fn merge(&mut self, to: &mut FoldData, from: FoldData) -> DidMerge {
        if let (Some(a), Some(b)) = (to.const_int, from.const_int) {
            assert_eq!(a, b, "one class cannot equal two integers");
        }
        let (to_changed, from_changed) = self.0.merge(to, from);
        DidMerge(to_changed, from_changed)
    }

    fn modify(egraph: &mut EGraph<Node, Self>, id: Id) {
        if let Some(n) = egraph[id].data.const_int {
            let added = egraph.add(Node::Int(n));
            egraph.union(id, added);
        }
    }
}

type Graph = EGraph<Node, Fold>;

struct ZeroApplier {
    a: Var,
    x: Var,
    tensor_like: Vec<(String, String)>,
}

impl Applier<Node, Fold> for ZeroApplier {
    fn apply_one(
        &self,
        egraph: &mut Graph,
        eclass: Id,
        subst: &Subst,
        _searcher_ast: Option<&PatternAst<Node>>,
        _rule_name: Symbol,
    ) -> Vec<Id> {
        let a = egraph.find(subst[self.a]);
        let x = egraph.find(subst[self.x]);
        let mut tensor_like: Table<String, String> = Table::new();
        for (k, v) in &self.tensor_like {
            tensor_like.insert(k.clone(), v.clone());
        }
        let holds_float = egraph[a].nodes.iter().any(|n| matches!(n, Node::Float(_)));
        let holds_int = egraph[a].nodes.iter().any(|n| matches!(n, Node::Int(_)));
        let zero = independent_zero(
            a == x,
            &egraph[a].data,
            &egraph[x].data,
            holds_float,
            holds_int,
            &tensor_like,
        );
        match zero {
            None => vec![],
            Some(zero) => {
                for (symbol, ty) in &zero.types {
                    if !egraph.analysis.0.known_types.has(symbol) {
                        egraph.analysis.0.known_types.insert(symbol.clone(), ty.dup());
                    }
                }
                let mut ids: Vec<Id> = Vec::new();
                for n in &zero.nodes {
                    let id = egraph.add(to_node(n, &ids));
                    ids.push(id);
                }
                egraph.union(eclass, ids[ids.len() - 1]);
                vec![eclass]
            }
        }
    }

    fn vars(&self) -> Vec<Var> {
        vec![self.a, self.x]
    }
}

fn var(name: &str) -> Var {
    name.parse().unwrap()
}

fn pattern(nodes: &[PatNode]) -> Pattern<Node> {
    let mut ast: RecExpr<ENodeOrVar<Node>> = RecExpr::default();
    let mut ids: Vec<Id> = Vec::new();
    for n in nodes {
        let node = match n {
            PatNode::Var(name) => ENodeOrVar::Var(var(name)),
            PatNode::Op(name, children) => ENodeOrVar::ENode(Node::Op(
                name.clone(),
                children.iter().map(|c| ids[*c]).collect(),
            )),
            PatNode::Int(n) => ENodeOrVar::ENode(Node::Int(*n)),
            PatNode::Float(n) => ENodeOrVar::ENode(Node::Float(*n)),
            PatNode::FloatText(t) => {
                ENodeOrVar::ENode(Node::float(t.parse().expect("a number")))
            }
            PatNode::Bool(b) => ENodeOrVar::ENode(Node::Bool(*b)),
        };
        ids.push(ast.add(node));
    }
    Pattern::new(ast)
}

fn rows(t: &Table<String, String>) -> Vec<(String, String)> {
    (0..t.rows()).map(|i| t.row(i).clone()).collect()
}

fn rules_of(rules: &[Rewrite]) -> Vec<egg::Rewrite<Node, Fold>> {
    rules
        .iter()
        .map(|r| {
            let searcher = pattern(&r.lhs);
            match &r.rhs {
                RewriteSide::Pattern(rhs) => {
                    egg::Rewrite::new(r.name.as_str(), searcher, pattern(rhs)).expect("a rule")
                }
                RewriteSide::IndependentZero(tensor_like) => egg::Rewrite::new(
                    r.name.as_str(),
                    searcher,
                    ZeroApplier { a: var("?a"), x: var("?x"), tensor_like: rows(tensor_like) },
                )
                .expect("a rule"),
            }
        })
        .collect()
}

/// What each place of the translation is in an e-graph.
fn loaded(fwd: &Forward) -> (Graph, Vec<Id>) {
    let mut egraph = Graph::default();
    egraph.analysis.0.known_types = fwd.known_types.dup();
    let mut ids: Vec<Id> = Vec::new();
    for n in &fwd.nodes {
        let id = egraph.add(to_node(n, &ids));
        ids.push(id);
    }
    (egraph, ids)
}

fn nodes_of(best: &RecExpr<Node>) -> Vec<CleaveLang> {
    best.as_ref().iter().map(to_lang).collect()
}

struct FreeOfDerivatives;

impl CostFunction<Node> for FreeOfDerivatives {
    type Cost = usize;

    fn cost<C>(&mut self, enode: &Node, mut costs: C) -> usize
    where
        C: FnMut(Id) -> usize,
    {
        let below: Vec<usize> = enode.children().iter().map(|c| costs(*c)).collect();
        DerivativeFreeCost.cost(&to_lang(enode), &below)
    }
}

fn extract_best(egraph: &Graph, id: Id) -> String {
    Extractor::new(egraph, FreeOfDerivatives).find_best(id).1.to_string()
}

// ---- programs ----

fn at_nothing() -> Span {
    Span { file: FileId(0), start: 0, end: 0 }
}

fn expr(kind: ExprKind) -> Expr {
    Expr { id: NodeId(0), span: at_nothing(), kind }
}

fn name(n: &str) -> Expr {
    expr(ExprKind::Path(Path { segments: vec![n.to_string()] }))
}

fn number(n: &str) -> Expr {
    expr(ExprKind::NumberLit { text: n.to_string(), suffix: None })
}

fn call(f: &str, args: Vec<Expr>) -> Expr {
    expr(ExprKind::Call(Path { segments: vec![f.to_string()] }, vec![], args, vec![]))
}

fn type_named(n: &str) -> Type {
    Type {
        id: NodeId(0),
        span: at_nothing(),
        kind: TypeKind::Path(Path { segments: vec![n.to_string()] }, vec![]),
    }
}

fn untyped(n: &str) -> Param {
    Param { name: n.to_string(), ty: None, mutable: false }
}

fn typed(n: &str, ty: &str) -> Param {
    Param { name: n.to_string(), ty: Some(type_named(ty)), mutable: false }
}

fn sig(n: &str, params: &[&str]) -> FnSig {
    FnSig {
        name: n.to_string(),
        params: params.iter().map(|p| typed(p, "T")).collect(),
        ret: Some(type_named("T")),
    }
}

/// An algebra with one generic `T`.
fn algebra(n: &str, fns: Vec<FnSig>) -> AlgebraEntry {
    AlgebraEntry {
        name: n.to_string(),
        generics: vec![GenericParam::Type {
            name: "T".to_string(),
            bounds: vec![],
            variadic: false,
        }],
        bounds: vec![],
        fns,
        axioms: vec![],
        derivative_rules: vec![],
        candidates: vec![],
    }
}

fn registry_of(algebras: Vec<AlgebraEntry>) -> Registry {
    Registry { algebras, structs: vec![], impls: vec![], inherent: vec![] }
}

fn empty_registry() -> Registry {
    registry_of(vec![])
}

/// `algebra TestRing<T> { fn add(a: T, b: T) -> T; .. }` with one law.
fn ring_with_law(n: &str, params: &[&str], lhs: Expr, rhs: Expr) -> Registry {
    let mut ring = algebra("TestRing", vec![sig("add", &["a", "b"])]);
    ring.axioms.push(AxiomDecl {
        name: n.to_string(),
        params: params.iter().map(|p| untyped(p)).collect(),
        body: call("eq", vec![lhs, rhs]),
    });
    registry_of(vec![ring])
}

fn commutative_ring() -> Registry {
    ring_with_law(
        "add_commutative",
        &["a", "b"],
        call("add", vec![name("a"), name("b")]),
        call("add", vec![name("b"), name("a")]),
    )
}

fn reached(units: &[(&str, &str, &str)]) -> Listing<(String, String)> {
    let mut out: Listing<(String, String)> = Listing::new();
    for (unit, algebra, method) in units {
        out.put(unit.to_string(), (algebra.to_string(), method.to_string()));
    }
    out
}

fn i32_ty() -> Ty {
    Ty::Con("i32".to_string())
}

fn f32_ty() -> Ty {
    Ty::Con("f32".to_string())
}

fn pair_ty() -> Ty {
    Ty::Con("Pair".to_string())
}

fn array_ty() -> Ty {
    Ty::Array(Box::new(i32_ty()), Box::new(Ty::Const(ConstValue::Int(2))))
}

fn raw(op: &str) -> PrimOp {
    PrimOp::RawMlirOp { op: op.to_string(), attrs: vec![] }
}

fn pair_op() -> PrimOp {
    PrimOp::Struct("Pair".to_string(), vec!["x".to_string(), "y".to_string()])
}

fn field_op(field: &str) -> PrimOp {
    PrimOp::Field { struct_ty: pair_ty(), field: field.to_string() }
}

fn let_prim(var: CVar, ty: Ty, op: PrimOp, args: Vec<CVal>, cont: CExpr) -> CExpr {
    CExpr::LetPrim { var, ty, op, args, cont: Box::new(cont) }
}

fn app(func: CVal, args: Vec<CVal>) -> CExpr {
    CExpr::App { func, args }
}

fn label(l: &str) -> CVal {
    CVal::Label(l.to_string())
}

fn continuation(n: &str, params: Vec<CVar>, body: CExpr) -> CFunDef {
    CFunDef { name: n.to_string(), params, body, carried_types: None }
}

/// A call of `unit` whose result goes on as `result`.
fn call_unit(unit: &str, k: &str, result: CVar, mut args: Vec<CVal>, rest: CExpr) -> CExpr {
    args.push(label(k));
    CExpr::Fix {
        defs: vec![continuation(k, vec![result], rest)],
        body: Box::new(app(label(unit), args)),
    }
}

fn adding_unit(unit: &str, algebra: &str) -> CTopLevelFn {
    CTopLevelFn {
        def: continuation(
            unit,
            vec![10, 11, 12],
            let_prim(
                20,
                i32_ty(),
                raw("arith.addi"),
                vec![CVal::Var(10), CVal::Var(11)],
                app(CVal::Var(12), vec![CVal::Var(20)]),
            ),
        ),
        param_types: vec![i32_ty(), i32_ty()],
        result: i32_ty(),
        k_ret: 12,
        origin: Some((algebra.to_string(), "add".to_string())),
    }
}

fn ring_add_i32_callee() -> CTopLevelFn {
    adding_unit("Ring::add<i32>", "Ring")
}

fn walked(expr: &CExpr, units: &Vec<CTopLevelFn>) -> (Forward, CExpr) {
    let mut fwd = Forward::default();
    let boundary = fwd.walk(expr, units, &mut FreshVars::new());
    (fwd, boundary)
}

/// What the translated variable is known to equal.
fn const_of(fwd: &Forward, v: CVar) -> Option<u64> {
    let (egraph, ids) = loaded(fwd);
    egraph[ids[*fwd.env.get(&v).expect("a translated variable")]].data.const_int
}

/// Extracts the term of a variable, without any rule, and turns it back.
fn round_trip(expr: &CExpr, root_var: CVar) -> CExpr {
    let (fwd, boundary) = walked(expr, &vec![]);
    let (egraph, ids) = loaded(&fwd);
    let root = ids[*fwd.env.get(&root_var).expect("a translated variable")];
    let (_, best) = Extractor::new(&egraph, AstSize).find_best(root);
    let nodes = nodes_of(&best);
    rebuild_segment(&nodes, nodes.len() - 1, root_var, &boundary, &fwd, &mut FreshVars::new())
        .expect("a term that can be turned back")
}

// ---- folding ----

#[test]
fn algebra_op_over_two_int_literals_folds_and_extracts_as_the_literal() {
    let mut egraph = Graph::default();
    let two = egraph.add(Node::Int(2));
    let three = egraph.add(Node::Int(3));
    let add = egraph.add(Node::op("Ring::add<i32>", vec![two, three]));
    let (_, best) = Extractor::new(&egraph, AstSize).find_best(add);
    assert_eq!(best.to_string(), "5", "expected the folded literal, got {best}");
}

#[test]
fn algebra_op_over_a_free_variable_does_not_fold() {
    let mut egraph = Graph::default();
    let a = egraph.add(Node::free("a"));
    let two = egraph.add(Node::Int(2));
    let add = egraph.add(Node::op("Ring::add<i32>", vec![a, two]));
    assert_eq!(egraph[add].data.const_int, None);
    let (_, best) = Extractor::new(&egraph, AstSize).find_best(add);
    assert_eq!(best.to_string(), "(Ring::add<i32> a 2)", "got {best}");
}

#[test]
fn neg_folds_a_single_int_literal() {
    let mut egraph = Graph::default();
    let five = egraph.add(Node::Int(5));
    let neg = egraph.add(Node::op("Ring::neg<i32>", vec![five]));
    assert_eq!(egraph[neg].data.const_int, Some(0u64.wrapping_sub(5)));
}

#[test]
fn div_is_never_folded_by_constant_fold() {
    let mut egraph = Graph::default();
    let six = egraph.add(Node::Int(6));
    let three = egraph.add(Node::Int(3));
    let div = egraph.add(Node::op("Ring::div<i32>", vec![six, three]));
    assert_eq!(egraph[div].data.const_int, None);
}

// ---- laws ----

#[test]
fn a_real_axiom_builds_a_rewrite_that_actually_fires() {
    let registry = commutative_ring();
    let rules = axiom_rewrites(&registry, &reached(&[("TestRing::add<i32>", "TestRing", "add")]));
    assert_eq!(rules.len(), 1, "expected exactly one rewrite, for the one reached type");

    let mut egraph = Graph::default();
    let a = egraph.add(Node::free("a"));
    let b = egraph.add(Node::free("b"));
    let ab = egraph.add(Node::op("TestRing::add<i32>", vec![a, b]));
    let ba = egraph.add(Node::op("TestRing::add<i32>", vec![b, a]));
    assert_ne!(egraph.find(ab), egraph.find(ba), "must not be equivalent *before* the rule runs");

    let runner = Runner::default().with_egraph(egraph).run(&rules_of(&rules));
    assert_eq!(
        runner.egraph.find(ab),
        runner.egraph.find(ba),
        "commutativity must make the two forms equivalent"
    );
}

#[test]
fn no_rewrites_are_built_for_an_unreached_algebra() {
    let rules = axiom_rewrites(&commutative_ring(), &Listing::new());
    assert!(rules.is_empty());
}

#[test]
fn a_fired_rewrite_reconstructs_the_cheaper_form() {
    let registry = ring_with_law(
        "add_zero",
        &["a"],
        call("add", vec![name("a"), number("0")]),
        name("a"),
    );
    let units = vec![adding_unit("TestRing::add<i32>", "TestRing")];
    let expr = call_unit(
        "TestRing::add<i32>",
        "k$0",
        5,
        vec![CVal::Var(0), CVal::Int(0)],
        app(CVal::Var(99), vec![CVal::Var(5)]),
    );

    let (fwd, boundary) = walked(&expr, &units);
    assert!(matches!(boundary, CExpr::App { .. }));
    let root_var: CVar = 5;
    let rules = axiom_rewrites(&registry, &fwd.reached);
    assert_eq!(rules.len(), 1);

    let (egraph, ids) = loaded(&fwd);
    let root = ids[*fwd.env.get(&root_var).unwrap()];
    let runner = Runner::default().with_egraph(egraph).run(&rules_of(&rules));
    let (_, best) =
        Extractor::new(&runner.egraph, AstSize).find_best(runner.egraph.find(root));
    let nodes = nodes_of(&best);
    let rebuilt = rebuild_segment(
        &nodes,
        nodes.len() - 1,
        root_var,
        &boundary,
        &fwd,
        &mut FreshVars::new(),
    )
    .expect("a term that can be turned back");

    match &rebuilt {
        CExpr::App { args, .. } => {
            assert!(
                matches!(args.as_slice(), [CVal::Var(0)]),
                "expected the boundary patched straight to `x` (Var(0)), got {rebuilt:?}"
            );
        }
        other => panic!(
            "expected a bare App, the whole computation having folded away -- got {other:?}"
        ),
    }
}

#[test]
fn a_pass_over_a_program_puts_the_cheaper_form_in_place() {
    let registry = ring_with_law(
        "add_zero",
        &["a"],
        call("add", vec![name("a"), number("0")]),
        name("a"),
    );
    let f = CTopLevelFn {
        def: continuation(
            "f",
            vec![30, 31],
            call_unit(
                "TestRing::add<i32>",
                "k$0",
                32,
                vec![CVal::Var(30), CVal::Int(0)],
                app(CVal::Var(31), vec![CVal::Var(32)]),
            ),
        ),
        param_types: vec![i32_ty()],
        result: i32_ty(),
        k_ret: 31,
        origin: None,
    };
    let program = CpsProgram { funcs: vec![adding_unit("TestRing::add<i32>", "TestRing"), f] };
    let mut pass = Optimizer::new(program);
    let mut plans: usize = 0;
    while let Some(plan) = pass.next_segment(&registry) {
        plans += 1;
        let (egraph, ids) = loaded(&plan.fwd);
        let runner = Runner::default().with_egraph(egraph).run(&rules_of(&plan.rules));
        let (_, best) = Extractor::new(&runner.egraph, AstSize)
            .find_best(runner.egraph.find(ids[plan.root]));
        assert_eq!(pass.answer(&plan, &nodes_of(&best)), Some(true));
        pass.explain(&plan, "it is");
    }
    assert_eq!(plans, 1);
    let (program, notes) = pass.finish();
    assert_eq!(notes, vec!["f: it is".to_string()]);
    assert_eq!(program.funcs.len(), 2);
    assert!(matches!(
        &program.funcs[1].def.body,
        CExpr::App { func: CVal::Var(31), args } if matches!(args.as_slice(), [CVal::Var(30)])
    ));
}

// ---- translation ----

#[test]
fn a_straight_line_letprim_chain_translates_fully_leaving_only_the_tail_app_as_boundary() {
    let expr = let_prim(
        0,
        i32_ty(),
        raw("arith.addi"),
        vec![CVal::Int(2), CVal::Int(3)],
        let_prim(
            1,
            i32_ty(),
            raw("arith.muli"),
            vec![CVal::Var(0), CVal::Int(10)],
            app(CVal::Var(99), vec![CVal::Var(1)]),
        ),
    );
    let (fwd, boundary) = walked(&expr, &vec![]);
    assert!(
        matches!(boundary, CExpr::App { .. }),
        "expected the bare tail App as the boundary, got {boundary:?}"
    );
    assert!(
        fwd.env.has(&0) && fwd.env.has(&1),
        "both LetPrim-bound vars must have their own e-class"
    );
    assert_eq!(const_of(&fwd, 1), Some(50));
}

#[test]
fn a_letprim_with_a_float_literal_argument_translates_instead_of_stopping() {
    let expr = let_prim(
        0,
        f32_ty(),
        raw("arith.mulf"),
        vec![CVal::Var(10), CVal::Float(2.0f64.to_bits())],
        app(CVal::Var(99), vec![CVal::Var(0)]),
    );
    let (fwd, boundary) = walked(&expr, &vec![]);
    assert!(
        matches!(boundary, CExpr::App { .. }),
        "expected the bare tail App as the boundary, got {boundary:?}"
    );
    assert!(fwd.env.has(&0), "the float argument must not have stopped translation");
}

#[test]
fn a_float_leaf_round_trips_through_extraction_and_rebuild_unchanged() {
    let expr = let_prim(
        0,
        f32_ty(),
        raw("arith.mulf"),
        vec![CVal::Var(10), CVal::Float(2.5f64.to_bits())],
        app(CVal::Var(99), vec![CVal::Var(0)]),
    );
    let rebuilt = round_trip(&expr, 0);
    match &rebuilt {
        CExpr::LetPrim { args, .. } => {
            let has_float =
                args.iter().any(|a| matches!(a, CVal::Float(f) if f64::from_bits(*f) == 2.5));
            assert!(
                has_float,
                "expected the reconstructed args to still carry the exact float literal, got {rebuilt:?}"
            );
        }
        other => panic!("expected a rebuilt LetPrim carrying the raw mlir op, got {other:?}"),
    }
}

#[test]
fn a_real_call_to_a_straight_line_unit_is_transparent() {
    let units = vec![ring_add_i32_callee()];
    let expr = call_unit(
        "Ring::add<i32>",
        "k$0",
        5,
        vec![CVal::Int(2), CVal::Int(3)],
        app(CVal::Var(99), vec![CVal::Var(5)]),
    );
    let (fwd, boundary) = walked(&expr, &units);
    assert!(
        matches!(boundary, CExpr::App { .. }),
        "translation must continue past the Fix into k$0's own body, got {boundary:?}"
    );
    assert!(fwd.env.has(&5), "the call's own result var must have its own e-class");
    assert_eq!(const_of(&fwd, 5), Some(5));
    assert_eq!(
        fwd.reached.find("Ring::add<i32>"),
        Some(&("Ring".to_string(), "add".to_string()))
    );
}

#[test]
fn a_real_call_to_a_non_straight_line_unit_stops_at_the_fix() {
    let callee = CTopLevelFn {
        def: continuation(
            "branchy",
            vec![10, 11],
            CExpr::If {
                cond: CVal::Bool(true),
                then_branch: Box::new(app(CVal::Var(11), vec![CVal::Int(1)])),
                else_branch: Box::new(app(CVal::Var(11), vec![CVal::Int(2)])),
            },
        ),
        param_types: vec![i32_ty()],
        result: i32_ty(),
        k_ret: 11,
        origin: None,
    };
    let expr = call_unit(
        "branchy",
        "k$0",
        5,
        vec![CVal::Int(1)],
        app(CVal::Var(99), vec![CVal::Var(5)]),
    );
    let (fwd, boundary) = walked(&expr, &vec![callee]);
    assert!(
        matches!(boundary, CExpr::Fix { .. }),
        "a non-straight-line callee must stop translation at the Fix, got {boundary:?}"
    );
    assert!(fwd.env.is_empty(), "nothing should have been translated at all");
}

/// `for i in 0..end { acc = acc + i; }`
fn for_loop_fix(end: CVal) -> CExpr {
    let i: CVar = 1;
    let acc: CVar = 0;
    let cond: CVar = 2;
    let acc2: CVar = 3;
    let i2: CVar = 4;
    let k_ret: CVar = 99;
    let then_branch = call_unit(
        "Ring::add<i32>",
        "k1",
        acc2,
        vec![CVal::Var(acc), CVal::Var(i)],
        call_unit(
            "Ring::add<i32>",
            "k2",
            i2,
            vec![CVal::Var(i), CVal::Int(1)],
            app(label("loop$0"), vec![CVal::Var(i2), CVal::Var(acc2)]),
        ),
    );
    let else_branch = app(CVal::Var(k_ret), vec![CVal::Var(acc)]);
    let cond_fix = call_unit(
        "Ord::lt<i32>",
        "k_cond",
        cond,
        vec![CVal::Var(i), end],
        CExpr::If {
            cond: CVal::Var(cond),
            then_branch: Box::new(then_branch),
            else_branch: Box::new(else_branch),
        },
    );
    CExpr::Fix {
        defs: vec![CFunDef {
            name: "loop$0".to_string(),
            params: vec![i, acc],
            body: cond_fix,
            carried_types: Some(vec![i32_ty(), i32_ty()]),
        }],
        body: Box::new(app(label("loop$0"), vec![CVal::Int(0), CVal::Int(0)])),
    }
}

#[test]
fn a_literal_bounded_for_loop_unrolls_and_carries_state_correctly() {
    let units = vec![ring_add_i32_callee()];
    let (fwd, boundary) = walked(&for_loop_fix(CVal::Int(3)), &units);
    assert!(
        matches!(boundary, CExpr::App { func: CVal::Var(99), .. }),
        "expected unrolling to continue straight into the loop's own exit continuation, got {boundary:?}"
    );
    assert_eq!(const_of(&fwd, 0), Some(3), "0+0, then +1, then +2 must fold to 3");
}

#[test]
fn a_for_loop_with_a_non_literal_bound_is_not_unrolled() {
    let units = vec![ring_add_i32_callee()];
    let (fwd, boundary) = walked(&for_loop_fix(CVal::Var(50)), &units);
    assert!(
        matches!(boundary, CExpr::Fix { .. }),
        "a non-literal bound must bail, leaving the original Fix as the boundary, got {boundary:?}"
    );
    assert!(fwd.env.is_empty(), "nothing should have been translated at all");
}

#[test]
fn a_for_loop_exceeding_the_unroll_cap_is_not_unrolled() {
    let units = vec![ring_add_i32_callee()];
    let (fwd, boundary) = walked(&for_loop_fix(CVal::Int(MAX_UNROLL_ITERATIONS + 1)), &units);
    assert!(
        matches!(boundary, CExpr::Fix { .. }),
        "a too-large bound must bail, leaving the original Fix as the boundary, got {boundary:?}"
    );
    assert!(fwd.env.is_empty(), "nothing should have been translated at all");
}

#[test]
fn a_for_loop_whose_turn_cannot_be_translated_leaves_nothing_behind() {
    let (fwd, boundary) = walked(&for_loop_fix(CVal::Int(3)), &vec![]);
    assert!(
        matches!(boundary, CExpr::Fix { .. }),
        "a turn that calls an unknown unit must leave the loop as it was, got {boundary:?}"
    );
    assert!(fwd.env.is_empty(), "no variable of the loop should stay translated");
    assert!(fwd.nodes.is_empty(), "no term of the loop should stay");
}

fn printing_body() -> CExpr {
    let_prim(
        20,
        i32_ty(),
        PrimOp::Extern { symbol: "print_i32".to_string(), param_types: vec![i32_ty()] },
        vec![CVal::Var(10)],
        app(CVal::Var(11), vec![CVal::Var(20)]),
    )
}

#[test]
fn is_straight_line_rejects_a_letprim_chain_containing_a_real_effect() {
    assert!(
        !is_straight_line(&printing_body()),
        "an Extern effect must not be judged straight-line, no Fix/If needed to reject it"
    );
}

#[test]
fn a_real_call_to_an_effectful_unit_stops_at_the_fix() {
    let callee = CTopLevelFn {
        def: continuation("Print<i32>::print", vec![10, 11], printing_body()),
        param_types: vec![i32_ty()],
        result: i32_ty(),
        k_ret: 11,
        origin: Some(("Print".to_string(), "print".to_string())),
    };
    let expr = call_unit(
        "Print<i32>::print",
        "k$0",
        5,
        vec![CVal::Int(1)],
        app(CVal::Var(99), vec![CVal::Var(5)]),
    );
    let (fwd, boundary) = walked(&expr, &vec![callee]);
    assert!(
        matches!(boundary, CExpr::Fix { .. }),
        "an effectful callee must stop translation at the Fix, got {boundary:?}"
    );
    assert!(fwd.env.is_empty(), "nothing should have been translated at all");
}

#[test]
fn a_body_starting_with_if_translates_nothing() {
    let expr = CExpr::If {
        cond: CVal::Bool(true),
        then_branch: Box::new(app(CVal::Var(9), vec![CVal::Int(1)])),
        else_branch: Box::new(app(CVal::Var(9), vec![CVal::Int(2)])),
    };
    let (fwd, boundary) = walked(&expr, &vec![]);
    assert!(matches!(boundary, CExpr::If { .. }));
    assert!(fwd.env.is_empty());
    assert!(
        fwd.free_vars.is_empty(),
        "nothing was translated, so nothing should have been treated as free either"
    );
}

#[test]
fn a_struct_construction_translates_and_the_boundary_is_the_tail_app() {
    let expr = let_prim(
        0,
        pair_ty(),
        pair_op(),
        vec![CVal::Int(21), CVal::Int(0)],
        app(CVal::Var(99), vec![CVal::Var(0)]),
    );
    let (fwd, boundary) = walked(&expr, &vec![]);
    assert!(
        matches!(boundary, CExpr::App { .. }),
        "expected the bare tail App as the boundary, got {boundary:?}"
    );
    assert!(fwd.env.has(&0), "the struct-construction-bound var must have its own e-class");
}

#[test]
fn a_field_read_after_a_struct_construction_translates_transparently() {
    let expr = let_prim(
        0,
        pair_ty(),
        pair_op(),
        vec![CVal::Int(21), CVal::Int(0)],
        let_prim(
            1,
            i32_ty(),
            field_op("y"),
            vec![CVal::Var(0)],
            app(CVal::Var(99), vec![CVal::Var(1)]),
        ),
    );
    let (fwd, boundary) = walked(&expr, &vec![]);
    assert!(
        matches!(boundary, CExpr::App { .. }),
        "expected the bare tail App as the boundary, got {boundary:?}"
    );
    assert!(
        fwd.env.has(&0) && fwd.env.has(&1),
        "both the construction and the field read must have their own e-class"
    );
    assert_eq!(const_of(&fwd, 1), None, "a field read must not fold to its source literal");
}

#[test]
fn two_structurally_identical_struct_constructions_hashcons_to_the_same_eclass() {
    let args = || vec![CVal::Int(1), CVal::Int(2)];
    let expr = let_prim(
        0,
        pair_ty(),
        pair_op(),
        args(),
        let_prim(1, pair_ty(), pair_op(), args(), app(CVal::Var(99), vec![CVal::Var(1)])),
    );
    let (fwd, _) = walked(&expr, &vec![]);
    let (_, ids) = loaded(&fwd);
    assert_eq!(
        ids[*fwd.env.get(&0).unwrap()],
        ids[*fwd.env.get(&1).unwrap()],
        "two structurally identical constructions must hashcons to the same e-class"
    );
}

#[test]
fn an_array_literal_translates_and_the_boundary_is_the_tail_app() {
    let expr = let_prim(
        0,
        array_ty(),
        PrimOp::Array,
        vec![CVal::Int(1), CVal::Int(2)],
        app(CVal::Var(99), vec![CVal::Var(0)]),
    );
    let (fwd, boundary) = walked(&expr, &vec![]);
    assert!(
        matches!(boundary, CExpr::App { .. }),
        "expected the bare tail App as the boundary, got {boundary:?}"
    );
    assert!(fwd.env.has(&0), "the array-literal-bound var must have its own e-class");
}

#[test]
fn an_array_repeat_translates_and_the_boundary_is_the_tail_app() {
    let expr = let_prim(
        0,
        array_ty(),
        PrimOp::ArrayRepeat,
        vec![CVal::Int(0), CVal::Int(2)],
        app(CVal::Var(99), vec![CVal::Var(0)]),
    );
    let (fwd, boundary) = walked(&expr, &vec![]);
    assert!(
        matches!(boundary, CExpr::App { .. }),
        "expected the bare tail App as the boundary, got {boundary:?}"
    );
    assert!(fwd.env.has(&0), "the array-repeat-bound var must have its own e-class");
}

fn array_then_load(first: u64, second: u64) -> CExpr {
    let_prim(
        0,
        array_ty(),
        PrimOp::Array,
        vec![CVal::Int(first), CVal::Int(second)],
        let_prim(
            1,
            i32_ty(),
            PrimOp::Load { array_ty: array_ty() },
            vec![CVal::Var(0), CVal::Int(0)],
            app(CVal::Var(99), vec![CVal::Var(1)]),
        ),
    )
}

#[test]
fn a_load_after_an_array_literal_translates_transparently() {
    let (fwd, boundary) = walked(&array_then_load(1, 2), &vec![]);
    assert!(
        matches!(boundary, CExpr::App { .. }),
        "expected the bare tail App as the boundary, got {boundary:?}"
    );
    assert!(
        fwd.env.has(&0) && fwd.env.has(&1),
        "both the array literal and the load must have their own e-class"
    );
}

// ---- rebuilding ----

#[test]
fn a_struct_field_segment_round_trips_through_extract_and_rebuild() {
    let expr = let_prim(
        0,
        pair_ty(),
        pair_op(),
        vec![CVal::Int(21), CVal::Int(0)],
        let_prim(
            1,
            i32_ty(),
            field_op("x"),
            vec![CVal::Var(0)],
            app(CVal::Var(99), vec![CVal::Var(1)]),
        ),
    );
    let rebuilt = round_trip(&expr, 1);
    match &rebuilt {
        CExpr::LetPrim { op: PrimOp::Struct(name, fields), cont, .. } => {
            assert_eq!(name, "Pair");
            assert_eq!(fields, &vec!["x".to_string(), "y".to_string()]);
            assert!(
                matches!(cont.as_ref(), CExpr::LetPrim { op: PrimOp::Field { field, .. }, .. } if field == "x"),
                "expected the field read to follow the construction, got {cont:?}"
            );
        }
        other => panic!(
            "expected a LetPrim{{Struct}} at the root of the rebuilt segment, got {other:?}"
        ),
    }
}

#[test]
fn an_array_load_segment_round_trips_through_extract_and_rebuild() {
    let rebuilt = round_trip(&array_then_load(21, 0), 1);
    match &rebuilt {
        CExpr::LetPrim { op: PrimOp::Array, args, cont, .. } => {
            assert_eq!(args.len(), 2);
            assert!(
                matches!(cont.as_ref(), CExpr::LetPrim { op: PrimOp::Load { .. }, .. }),
                "expected the load to follow the construction, got {cont:?}"
            );
        }
        other => panic!(
            "expected a LetPrim{{Array}} at the root of the rebuilt segment, got {other:?}"
        ),
    }
}

fn count_struct_letprims(expr: &CExpr) -> usize {
    match expr {
        CExpr::LetPrim { op, cont, .. } => {
            (if matches!(op, PrimOp::Struct(_, _)) { 1 } else { 0 }) + count_struct_letprims(cont)
        }
        CExpr::App { .. } => 0,
        CExpr::Fix { defs, body } => {
            defs.iter().map(|d| count_struct_letprims(&d.body)).sum::<usize>()
                + count_struct_letprims(body)
        }
        CExpr::If { then_branch, else_branch, .. } => {
            count_struct_letprims(then_branch) + count_struct_letprims(else_branch)
        }
    }
}

#[test]
fn a_shared_field_read_rebuilds_its_own_struct_construction_exactly_once() {
    let expr = let_prim(
        0,
        pair_ty(),
        pair_op(),
        vec![CVal::Int(1), CVal::Int(2)],
        let_prim(
            1,
            i32_ty(),
            field_op("x"),
            vec![CVal::Var(0)],
            let_prim(
                2,
                i32_ty(),
                raw("arith.addi"),
                vec![CVal::Var(1), CVal::Var(1)],
                app(CVal::Var(99), vec![CVal::Var(2)]),
            ),
        ),
    );
    let rebuilt = round_trip(&expr, 2);
    assert_eq!(
        count_struct_letprims(&rebuilt),
        1,
        "the shared struct construction must be rebuilt exactly once -- got {rebuilt:?}"
    );
}

#[test]
fn segment_root_var_picks_the_boundarys_own_referenced_var_even_mid_segment() {
    let expr = let_prim(
        0,
        i32_ty(),
        raw("arith.addi"),
        vec![CVal::Int(2), CVal::Int(3)],
        app(CVal::Var(99), vec![CVal::Var(0)]),
    );
    let (fwd, _) = walked(&expr, &vec![]);
    let boundary = call_unit(
        "Print<i32>::print",
        "k$0",
        50,
        vec![CVal::Var(0)],
        app(CVal::Var(51), vec![CVal::Var(50)]),
    );
    assert_eq!(segment_root_var(&boundary, &fwd.env), Some(0));
}

#[test]
fn segment_root_var_refuses_a_boundary_referencing_two_segment_vars() {
    let expr = let_prim(
        0,
        i32_ty(),
        raw("arith.addi"),
        vec![CVal::Int(2), CVal::Int(3)],
        let_prim(
            1,
            i32_ty(),
            raw("arith.muli"),
            vec![CVal::Var(0), CVal::Int(10)],
            app(CVal::Var(99), vec![CVal::Var(1)]),
        ),
    );
    let (fwd, _) = walked(&expr, &vec![]);
    let boundary = app(CVal::Var(99), vec![CVal::Var(0), CVal::Var(1)]);
    assert_eq!(segment_root_var(&boundary, &fwd.env), None);
}

// ---- projections ----

fn pair_struct_ops() -> Listing<StructOp> {
    let mut ops: Listing<StructOp> = Listing::new();
    ops.note(
        "struct:Pair:x,y".to_string(),
        StructOp {
            name: "Pair".to_string(),
            fields: vec!["x".to_string(), "y".to_string()],
            ty: pair_ty(),
        },
    );
    ops
}

#[test]
fn struct_projection_rewrites_unions_a_field_read_with_its_own_constructor_arg() {
    let mut field_ops: Listing<FieldOp> = Listing::new();
    field_ops.note(
        "field:Pair:y".to_string(),
        FieldOp { struct_ty: pair_ty(), field: "y".to_string(), ty: i32_ty() },
    );
    let rules = struct_projection_rewrites(&pair_struct_ops(), &field_ops);
    assert_eq!(rules.len(), 1, "expected exactly one rule, for the one field actually read");

    let mut egraph = Graph::default();
    let a = egraph.add(Node::free("a"));
    let b = egraph.add(Node::free("b"));
    let s = egraph.add(Node::op("struct:Pair:x,y", vec![a, b]));
    let field_y = egraph.add(Node::op("field:Pair:y", vec![s]));
    assert_ne!(
        egraph.find(field_y),
        egraph.find(b),
        "must not be equivalent before the rule runs"
    );

    let runner = Runner::default().with_egraph(egraph).run(&rules_of(&rules));
    assert_eq!(
        runner.egraph.find(field_y),
        runner.egraph.find(b),
        "field(struct(a,b), y) must union with b"
    );
}

#[test]
fn no_projection_rewrite_is_built_for_a_field_never_read() {
    let rules = struct_projection_rewrites(&pair_struct_ops(), &Listing::new());
    assert!(rules.is_empty());
}

// ---- derivatives ----

fn base_rules() -> Vec<egg::Rewrite<Node, Fold>> {
    let (rules, _) = derivative_rewrites("f32", &Listing::new(), &empty_registry());
    rules_of(&rules)
}

#[test]
fn derivative_of_a_variable_with_respect_to_itself_is_one() {
    let mut egraph = Graph::default();
    let x = egraph.add(Node::free("x"));
    let d = egraph.add(Node::op("derivative", vec![x, x]));
    let runner = Runner::default().with_egraph(egraph).run(&base_rules());
    assert_eq!(extract_best(&runner.egraph, runner.egraph.find(d)), "1");
}

#[test]
fn derivative_of_a_different_free_variable_is_zero() {
    let mut egraph = Graph::default();
    let x = egraph.add(Node::free("x"));
    egraph.analysis.0.known_types.insert("y".to_string(), f32_ty());
    let y = egraph.add(Node::free("y"));
    let d = egraph.add(Node::op("derivative", vec![y, x]));
    let runner = Runner::default().with_egraph(egraph).run(&base_rules());
    assert_eq!(extract_best(&runner.egraph, runner.egraph.find(d)), "0");
}

#[test]
fn derivative_of_a_float_literal_is_zero() {
    let mut egraph = Graph::default();
    let x = egraph.add(Node::free("x"));
    let three = egraph.add(Node::float(3.0));
    let d = egraph.add(Node::op("derivative", vec![three, x]));
    let runner = Runner::default().with_egraph(egraph).run(&base_rules());
    assert_eq!(extract_best(&runner.egraph, runner.egraph.find(d)), "0");
}

#[test]
fn an_unreduced_derivative_markers_own_children_do_not_pollute_free_deps() {
    let mut egraph = Graph::default();
    let w = egraph.add(Node::free("w"));
    let zero = egraph.add(Node::float(0.0));
    let deriv_marker = egraph.add(Node::op("derivative", vec![zero, w]));
    egraph.union(zero, deriv_marker);
    egraph.rebuild();
    assert!(
        egraph[zero].data.free_deps.items.is_empty(),
        "an unreduced marker must not make `zero` depend on `w`, got {:?}",
        egraph[zero].data.free_deps
    );
}

#[test]
fn a_value_equal_but_w_mentioning_representation_does_not_pollute_free_deps() {
    let mut egraph = Graph::default();
    let w = egraph.add(Node::free("w"));
    let zero = egraph.add(Node::float(0.0));
    assert!(
        egraph[zero].data.free_deps.items.is_empty(),
        "a bare literal must start with no recorded dependencies"
    );
    let w_times_zero = egraph.add(Node::op("Ring::mul<f32>", vec![w, zero]));
    assert_eq!(
        egraph[w_times_zero].data.free_deps.items,
        vec!["w".to_string()],
        "w*0.0's own naive bound must mention w before it's unioned with anything"
    );
    egraph.union(zero, w_times_zero);
    egraph.rebuild();
    assert!(
        egraph[zero].data.free_deps.items.is_empty(),
        "unioning must narrow (intersect), not widen, got {:?}",
        egraph[zero].data.free_deps
    );
}

/// `algebra TestRing<T>` with `add`, `mul` and their derivatives.
fn ring_f32_with_derivative_rules() -> Registry {
    let mut ring =
        algebra("TestRing", vec![sig("add", &["a", "b"]), sig("mul", &["a", "b"])]);
    let d = |n: &str| call("d", vec![name(n)]);
    ring.derivative_rules.push(DerivativeRuleDecl {
        method: "add".to_string(),
        params: vec![untyped("a"), untyped("b")],
        body: call("add", vec![d("a"), d("b")]),
    });
    ring.derivative_rules.push(DerivativeRuleDecl {
        method: "mul".to_string(),
        params: vec![untyped("a"), untyped("b")],
        body: call(
            "add",
            vec![
                call("mul", vec![name("a"), d("b")]),
                call("mul", vec![d("a"), name("b")]),
            ],
        ),
    });
    registry_of(vec![ring])
}

fn ring_f32_reached() -> Listing<(String, String)> {
    reached(&[
        ("TestRing::mul<f32>", "TestRing", "mul"),
        ("TestRing::add<f32>", "TestRing", "add"),
    ])
}

fn derivative_of_product(y_known: bool) -> String {
    let (rules, _) =
        derivative_rewrites("f32", &ring_f32_reached(), &ring_f32_with_derivative_rules());
    let mut egraph = Graph::default();
    let x = egraph.add(Node::free("x"));
    if y_known {
        egraph.analysis.0.known_types.insert("y".to_string(), f32_ty());
    }
    let y = egraph.add(Node::free("y"));
    let xy = egraph.add(Node::op("TestRing::mul<f32>", vec![x, y]));
    let d = egraph.add(Node::op("derivative", vec![xy, x]));
    let runner = Runner::default().with_egraph(egraph).run(&rules_of(&rules));
    extract_best(&runner.egraph, runner.egraph.find(d))
}

#[test]
fn derivative_of_a_product_involving_x_does_not_wrongly_collapse_to_zero() {
    let best = derivative_of_product(false);
    assert_ne!(
        best, "0",
        "declared product rule must not be short-circuited by the leaf-zero rule, got {best}"
    );
}

#[test]
fn derivative_of_x_times_y_with_respect_to_x_eliminates_the_derivative_marker() {
    let best = derivative_of_product(true);
    assert!(
        !best.contains("derivative"),
        "expected every `derivative` marker eliminated, got {best}"
    );
    assert!(best.contains('y'), "expected the surviving expression to still reference y, got {best}");
}

#[test]
fn derivative_rewrites_reports_units_the_declared_rules_reference_but_reached_does_not_include() {
    let (_, referenced) = derivative_rewrites(
        "f32",
        &reached(&[("TestRing::mul<f32>", "TestRing", "mul")]),
        &ring_f32_with_derivative_rules(),
    );
    assert!(
        referenced.has_name(&"TestRing::add<f32>".to_string()),
        "expected the product rule's own referenced-unit set to name add, got {referenced:?}"
    );
}

#[test]
fn only_base_rules_are_built_when_nothing_is_declared() {
    let (rules, _) = derivative_rewrites("f32", &Listing::new(), &empty_registry());
    assert_eq!(rules.len(), 2, "expected exactly the two base rules (self, leaf-zero)");
}

/// Saturates every plan and hands the best forms back.
fn derived(
    program: CpsProgram,
    requests: &[DerivativeRequest],
    registry: &Registry,
) -> Result<CpsProgram, Vec<String>> {
    let mut deriver = Deriver::new(program);
    for req in requests {
        if let Some(plan) = deriver.request(req, registry) {
            let (egraph, ids) = loaded(&plan.fwd);
            let runner = Runner::default()
                .with_iter_limit(1000)
                .with_node_limit(1_000_000)
                .with_time_limit(std::time::Duration::from_secs(15))
                .with_egraph(egraph)
                .run(&rules_of(&plan.rules));
            let extractor = Extractor::new(&runner.egraph, FreeOfDerivatives);
            let mut bests: Vec<Vec<CleaveLang>> = Vec::new();
            for id in &plan.derivative_ids {
                bests.push(match id {
                    None => vec![],
                    Some(i) => {
                        nodes_of(&extractor.find_best(runner.egraph.find(ids[*i])).1)
                    }
                });
            }
            assert!(deriver.answer(&plan, &bests));
        }
    }
    deriver.finish()
}

fn fprime_of_f() -> Vec<DerivativeRequest> {
    vec![DerivativeRequest { name: "fprime".to_string(), of: "f".to_string() }]
}

/// A function of one parameter of type `f32`.
fn function(n: &str, params: Vec<CVar>, k_ret: CVar, body: CExpr) -> CTopLevelFn {
    CTopLevelFn {
        def: continuation(n, params, body),
        param_types: vec![f32_ty()],
        result: f32_ty(),
        k_ret,
        origin: None,
    }
}

#[test]
fn the_derivative_of_a_function_that_returns_its_parameter_is_one() {
    let f = function("f", vec![3, 4], 4, app(CVal::Var(4), vec![CVal::Var(3)]));
    let program = CpsProgram { funcs: vec![f] };
    let p = match derived(program, &fprime_of_f(), &empty_registry()) {
        Ok(p) => p,
        Err(errs) => panic!("expected a derivative, got {errs:?}"),
    };
    assert_eq!(p.funcs.len(), 2);
    let fprime = &p.funcs[1];
    assert_eq!(fprime.def.name, "fprime");
    assert_eq!(fprime.result, f32_ty());
    match &fprime.def.body {
        CExpr::App { func: CVal::Var(k), args } => {
            assert_eq!(*k, fprime.k_ret);
            assert_eq!(args.len(), 1);
            assert!(matches!(args[0], CVal::Float(bits) if bits == 1.0f64.to_bits()));
        }
        other => panic!("expected a return of one, got {other:?}"),
    }
}

#[test]
fn synthesize_derivatives_reports_a_clean_error_instead_of_panicking_when_no_rule_reaches_a_node() {
    let registry = registry_of(vec![algebra("Foo", vec![sig("bar", &["x"])])]);
    let mut bar = function(
        "Foo::bar<f32>",
        vec![1, 2],
        2,
        app(CVal::Var(2), vec![CVal::Var(1)]),
    );
    bar.origin = Some(("Foo".to_string(), "bar".to_string()));
    let f = function(
        "f",
        vec![3, 4],
        4,
        call_unit(
            "Foo::bar<f32>",
            "k$0",
            5,
            vec![CVal::Var(3)],
            app(CVal::Var(4), vec![CVal::Var(5)]),
        ),
    );
    let program = CpsProgram { funcs: vec![bar, f] };
    let errs = match derived(program, &fprime_of_f(), &registry) {
        Err(errs) => errs,
        Ok(_) => panic!("expected a real error, not a successfully synthesized fprime"),
    };
    assert_eq!(errs.len(), 1);
    assert!(
        errs[0].contains("Foo::bar<f32>"),
        "expected the error to name the undifferentiable unit, got {errs:?}"
    );
}

#[test]
fn synthesize_derivatives_reports_a_clean_error_instead_of_silently_dropping_the_function_when_the_body_is_not_fully_representable(
) {
    let i: CVar = 6;
    let total: CVar = 7;
    let turn = call_unit(
        "Ring::add<f32>",
        "k1",
        8,
        vec![CVal::Var(total), CVal::Var(3)],
        call_unit(
            "Ring::add<i32>",
            "k2",
            9,
            vec![CVal::Var(i), CVal::Int(1)],
            app(label("loop$0"), vec![CVal::Var(9), CVal::Var(8)]),
        ),
    );
    let counted = call_unit(
        "Ord::lt<i32>",
        "k3",
        10,
        vec![CVal::Var(i), CVal::Int(2000)],
        CExpr::If {
            cond: CVal::Var(10),
            then_branch: Box::new(turn),
            else_branch: Box::new(app(CVal::Var(4), vec![CVal::Var(total)])),
        },
    );
    let body = CExpr::Fix {
        defs: vec![CFunDef {
            name: "loop$0".to_string(),
            params: vec![i, total],
            body: counted,
            carried_types: Some(vec![i32_ty(), f32_ty()]),
        }],
        body: Box::new(app(
            label("loop$0"),
            vec![CVal::Int(0), CVal::Float(0.0f64.to_bits())],
        )),
    };
    let program = CpsProgram { funcs: vec![function("f", vec![3, 4], 4, body)] };
    let errs = match derived(program, &fprime_of_f(), &empty_registry()) {
        Err(errs) => errs,
        Ok(_) => panic!("expected a real error, not a successfully synthesized fprime"),
    };
    assert_eq!(errs.len(), 1);
    assert!(
        errs[0].contains("cannot derive `fprime`"),
        "expected the error to name the request, got {errs:?}"
    );
    assert!(
        errs[0].contains("not fully representable"),
        "expected the error to explain why, got {errs:?}"
    );
}

#[test]
fn a_function_that_branches_before_it_returns_has_no_derivative() {
    let body = let_prim(
        5,
        f32_ty(),
        raw("arith.mulf"),
        vec![CVal::Var(3), CVal::Var(3)],
        CExpr::If {
            cond: CVal::Bool(true),
            then_branch: Box::new(app(CVal::Var(4), vec![CVal::Var(5)])),
            else_branch: Box::new(app(CVal::Var(4), vec![CVal::Var(5)])),
        },
    );
    let program = CpsProgram { funcs: vec![function("f", vec![3, 4], 4, body)] };
    let errs = match derived(program, &fprime_of_f(), &ring_f32_with_derivative_rules()) {
        Err(errs) => errs,
        Ok(_) => panic!("expected an error: the body does not reach its own return"),
    };
    assert_eq!(errs.len(), 1);
    assert!(errs[0].contains("not fully representable"), "got {errs:?}");
}

#[test]
fn a_derivative_is_added_after_the_other_functions() {
    let registry = ring_f32_with_derivative_rules();
    let unit = |n: &str, method: &str| {
        let mut u = function(
            n,
            vec![1, 2, 3],
            3,
            let_prim(
                4,
                f32_ty(),
                raw("arith.mulf"),
                vec![CVal::Var(1), CVal::Var(2)],
                app(CVal::Var(3), vec![CVal::Var(4)]),
            ),
        );
        u.param_types = vec![f32_ty(), f32_ty()];
        u.origin = Some(("TestRing".to_string(), method.to_string()));
        u
    };
    let f = function(
        "f",
        vec![20, 21],
        21,
        call_unit(
            "TestRing::mul<f32>",
            "k$0",
            22,
            vec![CVal::Var(20), CVal::Var(20)],
            app(CVal::Var(21), vec![CVal::Var(22)]),
        ),
    );
    let program = CpsProgram {
        funcs: vec![unit("TestRing::mul<f32>", "mul"), unit("TestRing::add<f32>", "add"), f],
    };
    let out = match derived(program, &fprime_of_f(), &registry) {
        Ok(out) => out,
        Err(errs) => panic!("{errs:?}"),
    };
    assert_eq!(out.funcs.len(), 4);
    let fprime = &out.funcs[3];
    assert_eq!(fprime.def.name, "fprime");
    assert_eq!(fprime.def.params.len(), 2);
    assert!(fprime.def.params[0] > 22, "the parameters are fresh");
    assert_eq!(fprime.result, f32_ty());
    assert!(matches!(fprime.def.body, CExpr::Fix { .. }));
}
