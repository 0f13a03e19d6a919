//! Type inference.

use cleave::ast::{
    Block, ElseBranch, Expr, ExprKind, Field, FileId, FnDecl, FnSig, GenericArg, GenericParam,
    NodeId, Param, Path, Span, Stmt, StmtKind, Type, TypeKind,
};
use cleave::const_eval::{eval_binop, ConstValue};
use cleave::errors::{Diagnostic, TypeError, TypeErrorKind};
use cleave::infer_state::Infer;
use cleave::mutability::check_mutability;
use cleave::registry::{AlgebraEntry, ImplEntry, InherentEntry, Registry, StructEntry};
use cleave::subst::Subst;
use cleave::table::Table;
use cleave::ty::{Ty, TyVar};
use cleave::types::substitute;
use cleave::unify::{occurs_in, unify, UnifyError};

// ---- building programs ----

fn at(start: usize) -> Span {
    Span { file: FileId(0), start, end: start + 1 }
}

fn expr_at(start: usize, kind: ExprKind) -> Expr {
    Expr { id: NodeId(start as u32), span: at(start), kind }
}

fn path(n: &str) -> Path {
    Path { segments: n.split("::").map(|s| s.to_string()).collect() }
}

fn name(start: usize, n: &str) -> Expr {
    expr_at(start, ExprKind::Path(path(n)))
}

fn number(start: usize, n: &str) -> Expr {
    expr_at(start, ExprKind::NumberLit { text: n.to_string(), suffix: None })
}

fn truth(start: usize, b: bool) -> Expr {
    expr_at(start, ExprKind::BoolLit(b))
}

fn call(start: usize, f: &str, args: Vec<Expr>) -> Expr {
    expr_at(start, ExprKind::Call(path(f), vec![], args, vec![]))
}

fn lambda(start: usize, params: &[&str], tail: Expr) -> Expr {
    expr_at(
        start,
        ExprKind::Lambda {
            params: params.iter().map(|p| untyped(p)).collect(),
            ret: None,
            body: block(vec![], tail),
        },
    )
}

fn ty(n: &str) -> Type {
    Type { id: NodeId(0), span: at(0), kind: TypeKind::Path(path(n), vec![]) }
}

fn untyped(n: &str) -> Param {
    Param { name: n.to_string(), ty: None, mutable: false }
}

fn typed(n: &str, t: &str) -> Param {
    Param { name: n.to_string(), ty: Some(ty(t)), mutable: false }
}

fn stmt(start: usize, kind: StmtKind) -> Stmt {
    Stmt { id: NodeId(1000 + start as u32), span: at(start), kind }
}

fn bind(start: usize, mutable: bool, n: &str, value: Expr) -> Stmt {
    stmt(start, StmtKind::Let { mutable, name: n.to_string(), ty: None, value })
}

fn assign(start: usize, target: Expr, value: Expr) -> Stmt {
    stmt(start, StmtKind::Assign { target, value })
}

fn block(stmts: Vec<Stmt>, tail: Expr) -> Block {
    Block { stmts, tail: Some(Box::new(tail)) }
}

fn function(n: &str, params: Vec<Param>, body: Block) -> FnDecl {
    FnDecl {
        name: n.to_string(),
        attrs: vec![],
        is_extern: false,
        extern_symbol: None,
        is_export: false,
        export_symbol: None,
        generics: vec![],
        params,
        ret: None,
        body: Some(body),
        derivative_of: None,
    }
}

fn generic(n: &str) -> GenericParam {
    GenericParam::Type { name: n.to_string(), bounds: vec![], variadic: false }
}

fn nothing() -> Registry {
    Registry { algebras: vec![], structs: vec![], impls: vec![], inherent: vec![] }
}

fn sig(n: &str, params: Vec<Param>, ret: &str) -> FnSig {
    FnSig { name: n.to_string(), params, ret: Some(ty(ret)) }
}

fn algebra(n: &str, generics: &[&str], fns: Vec<FnSig>, candidates: &[&str]) -> AlgebraEntry {
    AlgebraEntry {
        name: n.to_string(),
        generics: generics.iter().map(|g| generic(g)).collect(),
        bounds: vec![],
        fns,
        axioms: vec![],
        derivative_rules: vec![],
        candidates: candidates.iter().map(|c| c.to_string()).collect(),
    }
}

fn ring(n: &str) -> AlgebraEntry {
    algebra(n, &["T"], vec![sig("add", vec![typed("a", "T"), typed("b", "T")], "T")], &["i32"])
}

fn impl_for(algebra: &str, targets: &[&str]) -> ImplEntry {
    ImplEntry {
        algebra: algebra.to_string(),
        generics: vec![],
        targets: targets.iter().map(|t| ty(t)).collect(),
        named: if targets.len() == 1 { Some(targets[0].to_string()) } else { None },
    }
}

fn with_ring() -> Registry {
    Registry { algebras: vec![ring("Ring")], impls: vec![impl_for("Ring", &["i32"])], ..nothing() }
}

fn point(generics: Vec<GenericParam>) -> Registry {
    Registry {
        structs: vec![StructEntry {
            name: "Point".to_string(),
            generics,
            fields: vec![
                Field { name: "x".to_string(), ty: ty("i32") },
                Field { name: "y".to_string(), ty: ty("i32") },
            ],
        }],
        ..nothing()
    }
}

fn point_lit(start: usize, fields: Vec<(&str, Expr)>) -> Expr {
    expr_at(
        start,
        ExprKind::StructLit(
            path("Point"),
            vec![],
            fields.into_iter().map(|(n, e)| (n.to_string(), e)).collect(),
        ),
    )
}

fn infer(registry: &Registry, f: &FnDecl) -> Result<Ty, TypeError> {
    Infer::new(registry).infer_fn(f)
}

fn con(n: &str) -> Ty {
    Ty::Con(n.to_string())
}

fn kind_of(r: Result<Ty, TypeError>) -> TypeErrorKind {
    match r {
        Ok(t) => panic!("expected an error, got {t:?}"),
        Err(e) => e.kind,
    }
}

// ---- what is inferred ----

#[test]
fn a_number_is_an_i32_by_default() {
    let f = function("f", vec![], block(vec![], number(1, "16")));
    assert_eq!(infer(&nothing(), &f), Ok(con("i32")));
}

#[test]
fn a_number_with_a_point_is_an_f32_by_default() {
    let f = function("f", vec![], block(vec![], number(1, "1.5")));
    assert_eq!(infer(&nothing(), &f), Ok(con("f32")));
}

fn complex() -> Ty {
    Ty::App("Complex".to_string(), vec![con("f32")])
}

#[test]
fn a_complex_number_decides_the_type_whichever_comes_first() {
    let imaginary = |start| {
        expr_at(start, ExprKind::ImaginaryLit { text: "7.5".to_string(), suffix: None })
    };
    for elems in [vec![number(2, "5.0"), imaginary(3)], vec![imaginary(2), number(3, "5.0")]] {
        let f = function("f", vec![], block(vec![], expr_at(1, ExprKind::ArrayLit(elems))));
        let registry = nothing();
        let mut infer = Infer::new(&registry);
        let found = infer.infer_fn(&f);
        let size = Ty::Const(ConstValue::Int(2));
        assert_eq!(found, Ok(Ty::Array(Box::new(complex()), Box::new(size))));
        assert_eq!(infer.node_types.get(&2), Some(&complex()));
        assert_eq!(infer.node_types.get(&3), Some(&complex()));
    }
}

#[test]
fn the_types_of_the_nodes_of_an_accepted_function_fit_together() {
    let registry = nothing();
    let branches = expr_at(
        10,
        ExprKind::If {
            cond: Box::new(truth(11, true)),
            then_branch: block(vec![], number(12, "1")),
            else_branch: Some(Box::new(ElseBranch::Block(block(vec![], name(13, "x"))))),
        },
    );
    let elements = expr_at(20, ExprKind::ArrayLit(vec![name(21, "x"), branches]));
    let body = block(
        vec![bind(1, true, "x", number(2, "2.5")), assign(3, name(4, "x"), number(5, "1.5"))],
        elements,
    );
    let f = function("f", vec![], body);
    let mut infer = Infer::new(&registry);
    let found = infer.infer_fn(&f).unwrap();
    let f32s = con("f32");
    let two = Ty::Const(ConstValue::Int(2));
    assert_eq!(found, Ty::Array(Box::new(con("f32")), Box::new(two)));
    assert_eq!(infer.node_types.get(&20), Some(&found));
    for node in [2, 4, 5, 10, 12, 13, 21] {
        assert_eq!(infer.node_types.get(&node), Some(&f32s));
    }
    assert_eq!(infer.node_types.get(&11), Some(&con("bool")));

    let crossed = expr_at(
        10,
        ExprKind::If {
            cond: Box::new(truth(11, true)),
            then_branch: block(vec![], truth(12, false)),
            else_branch: Some(Box::new(ElseBranch::Block(block(vec![], name(13, "x"))))),
        },
    );
    let g = function("g", vec![typed("x", "f32")], block(vec![], crossed));
    assert!(matches!(kind_of(Infer::new(&registry).infer_fn(&g)), TypeErrorKind::Unify(_)));
}

#[test]
fn what_a_function_declares_of_itself_holds() {
    let registry = nothing();
    let declared = |body: Expr| FnDecl {
        ret: Some(ty("bool")),
        ..function("f", vec![typed("a", "i32")], block(vec![], body))
    };
    let mut accepted = Infer::new(&registry);
    assert_eq!(accepted.infer_fn(&declared(truth(1, true))), Ok(con("bool")));
    assert_eq!(accepted.param_types, vec![con("i32")]);
    let refused = infer(&registry, &declared(name(1, "a")));
    assert!(matches!(kind_of(refused), TypeErrorKind::Unify(_)));
}

#[test]
fn what_leaves_a_loop_has_the_type_of_the_loop() {
    let leaving = |first: Expr, second: Expr| {
        let stmts = vec![
            stmt(2, StmtKind::Break(Some(first))),
            stmt(3, StmtKind::Break(Some(second))),
        ];
        let kind = ExprKind::Loop { body: Block { stmts, tail: None } };
        function("f", vec![], block(vec![], expr_at(1, kind)))
    };
    assert_eq!(infer(&nothing(), &leaving(truth(4, true), truth(5, false))), Ok(con("bool")));
    let crossed = leaving(truth(4, true), number(5, "1.5"));
    let registry = Registry {
        algebras: vec![algebra("Float", &["T"], vec![], &["f32"])],
        impls: vec![impl_for("Float", &["f32"])],
        ..nothing()
    };
    assert_eq!(
        kind_of(infer(&registry, &crossed)),
        TypeErrorKind::MissingImpl { algebra: "Float".to_string(), ty: "bool".to_string() }
    );
}

#[test]
fn a_loop_that_runs_while_something_holds_has_no_value() {
    let body = Block { stmts: vec![], tail: Some(Box::new(number(3, "1"))) };
    let kind = ExprKind::While { cond: Box::new(truth(2, true)), body };
    let f = function("f", vec![], block(vec![], expr_at(1, kind)));
    assert_eq!(infer(&nothing(), &f), Ok(con("()")));
}

#[test]
fn an_operator_takes_its_type_from_what_it_is_applied_to() {
    let registry = with_ring();
    let f = function(
        "f",
        vec![typed("a", "i32")],
        block(vec![], call(1, "add", vec![name(2, "a"), number(3, "1")])),
    );
    let mut inference = Infer::new(&registry);
    assert_eq!(inference.infer_fn(&f), Ok(con("i32")));
    assert_eq!(inference.param_types, vec![con("i32")]);
    assert_eq!(inference.node_types.get(&3), Some(&con("i32")));
}

#[test]
fn a_lambda_bound_by_let_can_be_used_at_two_types() {
    let f = function(
        "f",
        vec![],
        block(
            vec![
                bind(1, false, "id", lambda(2, &["x"], name(3, "x"))),
                stmt(4, StmtKind::Expr(call(5, "id", vec![number(6, "1")]))),
            ],
            call(7, "id", vec![truth(8, true)]),
        ),
    );
    assert_eq!(infer(&nothing(), &f), Ok(con("bool")));
}

#[test]
fn a_lambda_bound_by_let_mut_has_one_type() {
    let f = function(
        "f",
        vec![],
        block(
            vec![
                bind(1, true, "id", lambda(2, &["x"], name(3, "x"))),
                stmt(4, StmtKind::Expr(call(5, "id", vec![name(6, "b")]))),
            ],
            call(7, "id", vec![truth(8, true)]),
        ),
    );
    let mut with_param = f;
    with_param.params = vec![typed("b", "i32")];
    assert_eq!(
        kind_of(infer(&nothing(), &with_param)),
        TypeErrorKind::Unify(UnifyError::Mismatch(con("i32"), con("bool")))
    );
}

#[test]
fn a_function_may_call_itself() {
    let f = function(
        "f",
        vec![typed("a", "i32")],
        block(
            vec![stmt(1, StmtKind::Expr(call(2, "f", vec![name(3, "a")])))],
            name(4, "a"),
        ),
    );
    assert_eq!(infer(&nothing(), &f), Ok(con("i32")));
}

#[test]
fn a_tuple_of_types_is_an_application() {
    let t = Ty::App("Pair".to_string(), vec![con("i32"), Ty::Var(TyVar(3))]);
    assert_eq!(t.to_text(), "Pair<i32, 't3>");
    let a = Ty::Array(Box::new(con("f64")), Box::new(Ty::Const(ConstValue::Int(3))));
    assert_eq!(a.to_text(), "[f64; 3]");
    assert_eq!(con("i32").to_text(), "i32");
}

// ---- what is refused ----

#[test]
fn an_unknown_name_is_refused_where_it_stands() {
    let f = function("f", vec![], block(vec![], name(7, "x")));
    match infer(&nothing(), &f) {
        Err(e) => {
            assert_eq!(e.span, at(7));
            assert_eq!(e.kind, TypeErrorKind::UnknownName("x".to_string()));
            assert_eq!(e.to_text(), "unknown identifier `x`");
            assert_eq!(
                Diagnostic::of(&e),
                Diagnostic { message: "unknown identifier `x`".to_string(), span: at(7) }
            );
        }
        Ok(t) => panic!("expected an error, got {t:?}"),
    }
}

#[test]
fn a_call_with_too_many_arguments_is_refused() {
    let f = function(
        "f",
        vec![],
        block(
            vec![bind(1, false, "id", lambda(2, &["x"], name(3, "x")))],
            call(4, "id", vec![truth(5, true), truth(6, true)]),
        ),
    );
    assert_eq!(
        kind_of(infer(&nothing(), &f)),
        TypeErrorKind::ArityMismatch { name: "id".to_string(), expected: 1, found: 2 }
    );
}

#[test]
fn a_value_that_is_no_function_is_not_callable() {
    let f = function(
        "f",
        vec![],
        block(vec![bind(1, false, "b", truth(2, true))], call(3, "b", vec![truth(4, true)])),
    );
    assert_eq!(kind_of(infer(&nothing(), &f)), TypeErrorKind::NotCallable(con("bool")));
}

#[test]
fn a_name_that_two_algebras_declare_is_ambiguous() {
    let registry = Registry { algebras: vec![ring("Ring"), ring("Group")], ..nothing() };
    let f = function(
        "f",
        vec![typed("a", "i32")],
        block(vec![], call(1, "add", vec![name(2, "a"), name(3, "a")])),
    );
    assert_eq!(
        kind_of(infer(&registry, &f)),
        TypeErrorKind::AmbiguousOperator {
            name: "add".to_string(),
            candidates: vec!["Ring".to_string(), "Group".to_string()],
        }
    );
}

#[test]
fn a_type_without_an_impl_is_refused() {
    let registry = with_ring();
    let f = function(
        "f",
        vec![],
        block(vec![], call(1, "add", vec![truth(2, true), truth(3, false)])),
    );
    let e = kind_of(infer(&registry, &f));
    assert_eq!(
        e,
        TypeErrorKind::MissingImpl { algebra: "Ring".to_string(), ty: "bool".to_string() }
    );
    let text = TypeError { span: at(1), kind: e }.to_text();
    assert_eq!(text, "no `impl Ring<bool>`");
}

#[test]
fn a_call_that_nothing_declares_leaves_the_type_open() {
    let f = function("f", vec![], block(vec![], call(1, "nowhere", vec![truth(2, true)])));
    assert_eq!(
        kind_of(infer(&nothing(), &f)),
        TypeErrorKind::Unresolved("<unresolved-call:nowhere>".to_string())
    );
}

#[test]
fn structs_are_checked_field_by_field() {
    let registry = point(vec![]);
    let ok = function(
        "f",
        vec![],
        block(vec![], point_lit(1, vec![("x", number(2, "1")), ("y", number(3, "2"))])),
    );
    assert_eq!(infer(&registry, &ok), Ok(con("Point")));

    let missing = function("f", vec![], block(vec![], point_lit(1, vec![("x", number(2, "1"))])));
    assert_eq!(
        kind_of(infer(&registry, &missing)),
        TypeErrorKind::MissingField { struct_name: "Point".to_string(), field: "y".to_string() }
    );

    let twice = function(
        "f",
        vec![],
        block(vec![], point_lit(1, vec![("x", number(2, "1")), ("x", number(3, "2"))])),
    );
    assert_eq!(
        kind_of(infer(&registry, &twice)),
        TypeErrorKind::DuplicateField { struct_name: "Point".to_string(), field: "x".to_string() }
    );

    let unknown = function("f", vec![], block(vec![], point_lit(1, vec![("z", number(2, "1"))])));
    assert_eq!(
        kind_of(infer(&registry, &unknown)),
        TypeErrorKind::NoSuchField { struct_name: "Point".to_string(), field: "z".to_string() }
    );

    let undeclared = function("f", vec![], block(vec![], point_lit(1, vec![])));
    assert_eq!(
        kind_of(infer(&nothing(), &undeclared)),
        TypeErrorKind::UnknownStruct("Point".to_string())
    );
}

#[test]
fn a_variadic_struct_needs_its_generics() {
    let registry = point(vec![
        generic("A"),
        GenericParam::Type { name: "Rest".to_string(), bounds: vec![], variadic: true },
    ]);
    let f = function("f", vec![], block(vec![], point_lit(1, vec![])));
    assert_eq!(
        kind_of(infer(&registry, &f)),
        TypeErrorKind::VariadicStructNeedsTurbofish {
            struct_name: "Point".to_string(),
            min_generics: 1,
        }
    );
}

#[test]
fn a_method_is_looked_up_on_the_struct() {
    let mut registry = point(vec![]);
    let method_call = |n: &str| {
        function(
            "f",
            vec![typed("p", "Point")],
            block(
                vec![],
                expr_at(
                    1,
                    ExprKind::MethodCall(Box::new(name(2, "p")), n.to_string(), vec![]),
                ),
            ),
        )
    };
    assert_eq!(
        kind_of(infer(&registry, &method_call("len"))),
        TypeErrorKind::NoSuchMethod { struct_name: "Point".to_string(), method: "len".to_string() }
    );
    let mut len = function("len", vec![untyped("self")], block(vec![], number(9, "2")));
    len.ret = Some(ty("i32"));
    registry.inherent.push(InherentEntry {
        struct_name: "Point".to_string(),
        method: len,
        generics: vec![],
        target: ty("Point"),
    });
    assert_eq!(infer(&registry, &method_call("len")), Ok(con("i32")));
}

#[test]
fn a_method_that_the_algebra_lacks_is_refused() {
    let registry = with_ring();
    let f = function(
        "f",
        vec![typed("a", "i32")],
        block(vec![], call(1, "Ring::mul", vec![name(2, "a"), name(3, "a")])),
    );
    assert_eq!(
        kind_of(infer(&registry, &f)),
        TypeErrorKind::UnknownAlgebraMethod {
            algebra: "Ring".to_string(),
            method: "mul".to_string(),
        }
    );
}

#[test]
fn an_algebra_is_no_type() {
    let registry = with_ring();
    let f = function("f", vec![typed("a", "Ring")], block(vec![], name(1, "a")));
    assert_eq!(
        kind_of(infer(&registry, &f)),
        TypeErrorKind::TypeNameIsAnAlgebra { name: "Ring".to_string() }
    );
}

#[test]
fn a_size_is_not_divided_by_zero() {
    let size = call(5, "div", vec![number(6, "4"), number(7, "0")]);
    let array = Type {
        id: NodeId(0),
        span: at(0),
        kind: TypeKind::Array(Box::new(ty("i32")), Box::new(size)),
    };
    let mut f = function("f", vec![untyped("a")], block(vec![], name(1, "a")));
    f.params[0].ty = Some(array);
    assert_eq!(kind_of(infer(&nothing(), &f)), TypeErrorKind::ConstDivByZero { dividend: 4 });
}

#[test]
fn break_needs_a_loop() {
    let f = function(
        "f",
        vec![],
        block(vec![stmt(1, StmtKind::Break(None))], truth(2, true)),
    );
    assert_eq!(kind_of(infer(&nothing(), &f)), TypeErrorKind::BreakOutsideLoop);
}

#[test]
fn a_type_that_holds_itself_is_refused() {
    let f = function(
        "f",
        vec![untyped("x")],
        block(vec![], call(1, "f", vec![name(2, "f")])),
    );
    match kind_of(infer(&nothing(), &f)) {
        TypeErrorKind::Unify(UnifyError::Occurs(_, _)) => {}
        other => panic!("expected an infinite type, got {other:?}"),
    }
}

#[test]
fn a_parameter_of_unknown_type_is_not_callable() {
    let f = function(
        "f",
        vec![],
        block(
            vec![bind(1, false, "w", lambda(2, &["x"], call(3, "x", vec![name(4, "x")])))],
            truth(5, true),
        ),
    );
    match kind_of(infer(&nothing(), &f)) {
        TypeErrorKind::NotCallable(Ty::Var(_)) => {}
        other => panic!("expected a value that is not callable, got {other:?}"),
    }
}

#[test]
fn a_generic_that_no_type_fits_is_refused() {
    let alg = |n: &str, f: &str, c: &str| {
        algebra(n, &["T"], vec![sig(f, vec![typed("a", "T")], "T")], &[c])
    };
    let registry =
        Registry { algebras: vec![alg("A", "fa", "i32"), alg("B", "fb", "bool")], ..nothing() };
    let body = call(3, "fa", vec![call(4, "fb", vec![name(5, "x")])]);
    let f = function(
        "f",
        vec![],
        block(vec![bind(1, false, "w", lambda(2, &["x"], body))], truth(6, true)),
    );
    assert_eq!(
        kind_of(infer(&registry, &f)),
        TypeErrorKind::UnsatisfiableScheme { algebras: vec!["A".to_string(), "B".to_string()] }
    );
}

#[test]
fn an_algebra_of_several_bounds_has_an_impl_if_each_bound_has_one() {
    let with_bounds = |n: &str, bounds: &[&str]| AlgebraEntry {
        bounds: bounds.iter().map(|b| b.to_string()).collect(),
        ..algebra(n, &["T"], vec![], &[])
    };
    let bounds = ["Add", "Mul"];
    let declared = |impls: Vec<ImplEntry>| Registry {
        algebras: vec![
            with_bounds("Add", &[]),
            with_bounds("Mul", &[]),
            with_bounds("Int", &bounds),
            with_bounds("Both", &bounds),
        ],
        impls,
        ..nothing()
    };
    let f = function("f", vec![], block(vec![], number(1, "16")));
    let each = vec![impl_for("Add", &["i32"]), impl_for("Mul", &["i32"])];
    assert_eq!(infer(&declared(each), &f), Ok(con("i32")));
    assert_eq!(infer(&declared(vec![impl_for("Both", &["i32"])]), &f), Ok(con("i32")));
    assert_eq!(
        kind_of(infer(&declared(vec![impl_for("Add", &["i32"])]), &f)),
        TypeErrorKind::MissingImpl { algebra: "Int".to_string(), ty: "i32".to_string() }
    );
}

#[test]
fn a_result_that_two_impls_fix_differently_is_ambiguous() {
    let registry = Registry {
        algebras: vec![algebra(
            "Conv",
            &["A", "B"],
            vec![sig("conv", vec![typed("a", "A")], "B")],
            &[],
        )],
        impls: vec![impl_for("Conv", &["i32", "f32"]), impl_for("Conv", &["i32", "f64"])],
        ..nothing()
    };
    let f = function(
        "f",
        vec![typed("a", "i32")],
        block(
            vec![stmt(1, StmtKind::Expr(call(2, "conv", vec![name(3, "a")])))],
            truth(4, true),
        ),
    );
    assert_eq!(
        kind_of(infer(&registry, &f)),
        TypeErrorKind::AmbiguousDispatch {
            algebra: "Conv".to_string(),
            candidates: vec!["Conv<i32, f32>".to_string(), "Conv<i32, f64>".to_string()],
        }
    );
}

#[test]
fn an_impl_that_does_not_fit_leaves_nothing_behind() {
    let registry = Registry {
        algebras: vec![algebra(
            "Conv",
            &["B", "A"],
            vec![sig("conv", vec![typed("a", "A")], "B")],
            &[],
        )],
        impls: vec![impl_for("Conv", &["f32", "bool"]), impl_for("Conv", &["f64", "i32"])],
        ..nothing()
    };
    let f = function(
        "f",
        vec![typed("a", "i32")],
        block(vec![], call(2, "conv", vec![name(3, "a")])),
    );
    assert_eq!(infer(&registry, &f), Ok(con("f64")));
}

#[test]
fn a_generic_can_be_pinned_in_the_call() {
    let registry = Registry {
        algebras: vec![algebra(
            "Conv",
            &["A", "B"],
            vec![sig("conv", vec![typed("a", "A")], "B")],
            &[],
        )],
        impls: vec![impl_for("Conv", &["i32", "f32"]), impl_for("Conv", &["i32", "f64"])],
        ..nothing()
    };
    let pinned = ExprKind::Call(
        path("conv"),
        vec![GenericArg::Type(ty("i32")), GenericArg::Type(ty("f64"))],
        vec![name(3, "a")],
        vec![],
    );
    let f = function("f", vec![typed("a", "i32")], block(vec![], expr_at(2, pinned)));
    assert_eq!(infer(&registry, &f), Ok(con("f64")));
}

#[test]
fn impls_that_fit_one_type_overlap() {
    let mut open = impl_for("Ring", &["T"]);
    open.generics = vec![generic("T")];
    open.named = None;
    let registry = Registry {
        algebras: vec![ring("Ring")],
        impls: vec![impl_for("Ring", &["i32"]), open],
        ..nothing()
    };
    let errors = Infer::new(&registry).check_no_overlapping_impls();
    assert_eq!(errors.len(), 1);
    assert_eq!(
        errors[0].kind,
        TypeErrorKind::OverlappingImpls {
            algebra: "Ring".to_string(),
            a: "i32".to_string(),
            b: "T".to_string(),
        }
    );
    let apart = Registry {
        algebras: vec![ring("Ring")],
        impls: vec![impl_for("Ring", &["i32"]), impl_for("Ring", &["f32"])],
        ..nothing()
    };
    assert!(Infer::new(&apart).check_no_overlapping_impls().is_empty());
}

#[test]
fn the_methods_of_an_impl_are_those_of_the_algebra() {
    let registry = with_ring();
    let add = function(
        "add",
        vec![untyped("a"), untyped("b")],
        block(vec![], name(1, "a")),
    );
    assert_eq!(
        Infer::new(&registry).infer_impl_fn("Ring", &ty("i32"), &add, at(0)),
        Ok(con("i32"))
    );

    let sub = function("sub", vec![untyped("a")], block(vec![], name(1, "a")));
    assert_eq!(
        kind_of(Infer::new(&registry).infer_impl_fn("Ring", &ty("i32"), &sub, at(0))),
        TypeErrorKind::NotDeclaredByAlgebra { algebra: "Ring".to_string(), name: "sub".to_string() }
    );

    let mut bodiless = function("add", vec![untyped("a"), untyped("b")], block(vec![], name(1, "a")));
    bodiless.body = None;
    assert_eq!(
        kind_of(Infer::new(&registry).infer_impl_fn("Ring", &ty("i32"), &bodiless, at(0))),
        TypeErrorKind::MissingIntrinsicAttribute { name: "add".to_string() }
    );
}

#[test]
fn a_method_of_a_struct_needs_a_body() {
    let registry = point(vec![]);
    let mut f = function("len", vec![untyped("self")], block(vec![], number(1, "2")));
    assert_eq!(
        Infer::new(&registry).infer_inherent_impl_fn_generic(&Table::new(), &[], &ty("Point"), &f, at(0)),
        Ok(con("i32"))
    );
    f.body = None;
    assert_eq!(
        kind_of(Infer::new(&registry).infer_inherent_impl_fn_generic(&Table::new(), &[], &ty("Point"), &f, at(0))),
        TypeErrorKind::MissingFnBody { name: "len".to_string() }
    );
}

// ---- assignments ----

#[test]
fn only_mutable_names_are_assigned_to() {
    let body = |mutable: bool| {
        function(
            "f",
            vec![],
            block(
                vec![
                    bind(1, mutable, "a", number(2, "1")),
                    assign(3, name(4, "a"), number(5, "2")),
                ],
                name(6, "a"),
            ),
        )
    };
    assert_eq!(check_mutability(&body(true)), Ok(()));
    match check_mutability(&body(false)) {
        Err(e) => {
            assert_eq!(e.span, at(3));
            assert_eq!(e.kind, TypeErrorKind::AssignToImmutable { name: "a".to_string() });
        }
        Ok(_) => panic!("expected an error"),
    }
}

#[test]
fn no_parameter_is_assigned_to() {
    let assigned = |mutable: bool, stmts: Vec<Stmt>| {
        let p = Param { mutable, ..untyped("a") };
        check_mutability(&function("f", vec![p], block(stmts, name(6, "a"))))
    };
    for mutable in [false, true] {
        match assigned(mutable, vec![assign(3, name(4, "a"), number(5, "2"))]) {
            Err(e) => {
                assert_eq!(e.span, at(3));
                assert_eq!(e.kind, TypeErrorKind::AssignToImmutable { name: "a".to_string() });
            }
            Ok(_) => panic!("expected an error"),
        }
        let bound = bind(1, true, "a", number(2, "1"));
        let again = assign(3, name(4, "a"), number(5, "2"));
        assert_eq!(assigned(mutable, vec![bound, again]), Ok(()));
    }
}

#[test]
fn a_field_of_an_immutable_name_is_not_assigned_to_and_an_unknown_name_may_be() {
    let target = expr_at(4, ExprKind::FieldAccess(Box::new(name(5, "p")), "x".to_string()));
    let f = function(
        "f",
        vec![typed("p", "Point")],
        block(vec![assign(3, target, number(6, "2"))], truth(7, true)),
    );
    assert!(check_mutability(&f).is_err());
    let g = function(
        "g",
        vec![],
        block(vec![assign(3, name(4, "elsewhere"), number(6, "2"))], truth(7, true)),
    );
    assert_eq!(check_mutability(&g), Ok(()));
}

// ---- unification ----

#[test]
fn unification_makes_two_types_the_same() {
    let pair = |a: Ty, b: Ty| Ty::App("Pair".to_string(), vec![a, b]);
    let mut s = Subst::new();
    let left = pair(Ty::Var(TyVar(0)), Ty::Fn(vec![Ty::Var(TyVar(1))], Box::new(con("bool"))));
    let right = pair(con("i32"), Ty::Fn(vec![Ty::Var(TyVar(0))], Box::new(Ty::Var(TyVar(2)))));
    assert_eq!(unify(&mut s, &left, &right), Ok(()));
    let same = pair(con("i32"), Ty::Fn(vec![con("i32")], Box::new(con("bool"))));
    assert_eq!(s.apply(&left), same);
    assert_eq!(s.apply(&right), same);
    assert_eq!(s.apply(&s.apply(&left)), same, "applying again changes nothing");
}

#[test]
fn unification_fails_on_different_names_and_on_a_type_inside_itself() {
    let mut s = Subst::new();
    assert_eq!(
        unify(&mut s, &con("i32"), &con("f32")),
        Err(UnifyError::Mismatch(con("i32"), con("f32")))
    );
    let v = Ty::Var(TyVar(0));
    let list = Ty::App("List".to_string(), vec![Ty::Var(TyVar(0))]);
    assert!(occurs_in(&list, 0));
    match unify(&mut s, &v, &list) {
        Err(e) => {
            assert_eq!(e.to_text(), "infinite type: `'t0` occurs in `List<'t0>`");
        }
        Ok(_) => panic!("expected an infinite type"),
    }
}

#[test]
fn a_variable_that_is_merged_into_a_constant_s_place_has_its_width() {
    let mut s = Subst::new();
    let var = |n| Ty::Var(TyVar(n));
    s.set_const_width(1, con("i64"));
    assert_eq!(unify(&mut s, &var(0), &var(1)), Ok(()));
    assert_eq!(s.const_width(0), Some(con("i64")));
    assert_eq!(s.const_width(1), Some(con("i64")));
    assert_eq!(unify(&mut s, &var(2), &var(0)), Ok(()));
    assert_eq!(s.const_width(2), Some(con("i64")));
    assert_eq!(s.const_width(3), None);
}

#[test]
fn a_pack_that_the_arguments_in_front_have_bound_is_not_bound_anew() {
    let app = |n: &str, args: Vec<Ty>| Ty::App(n.to_string(), args);
    let pack = || Ty::Pack(TyVar(0));
    let left = app("P", vec![app("Q", vec![pack()]), pack()]);
    let mut s = Subst::new();
    let other = app("P", vec![app("Q", vec![con("i32")]), con("f32")]);
    assert!(unify(&mut s, &left, &other).is_err());
    let mut s = Subst::new();
    let same = app("P", vec![app("Q", vec![con("i32")]), con("i32")]);
    assert_eq!(unify(&mut s, &left, &same), Ok(()));
    assert_eq!(s.apply(&left), same);
    assert_eq!(s.apply(&s.apply(&left)), same);
}

#[test]
fn a_computed_constant_is_put_in_place_once_and_for_all() {
    let mut s = Subst::new();
    let var = |n| Ty::Var(TyVar(n));
    let int = |n| Ty::Const(ConstValue::Int(n));
    let sum = Ty::ConstExpr("add".to_string(), Box::new(var(0)), Box::new(var(1)));
    let array = Ty::Array(Box::new(con("f32")), Box::new(sum));
    assert_eq!(unify(&mut s, &var(0), &int(2)), Ok(()));
    let half = s.apply(&array);
    assert_eq!(s.apply(&half), half);
    assert_eq!(unify(&mut s, &var(1), &int(3)), Ok(()));
    let whole = Ty::Array(Box::new(con("f32")), Box::new(int(5)));
    assert_eq!(s.apply(&array), whole);
    let mut m: Table<u32, Ty> = Table::new();
    m.insert(0, int(2));
    m.insert(1, int(3));
    assert_eq!(substitute(&array, &m), whole);
}

#[test]
fn what_is_bound_stays_bound_when_unification_fails() {
    let mut s = Subst::new();
    let var = |n| Ty::Var(TyVar(n));
    assert_eq!(unify(&mut s, &var(0), &con("i32")), Ok(()));
    let left = Ty::Fn(vec![var(1), var(0)], Box::new(con("bool")));
    let right = Ty::Fn(vec![con("f32"), con("u8")], Box::new(con("bool")));
    assert!(unify(&mut s, &left, &right).is_err());
    assert_eq!(s.apply(&var(0)), con("i32"));
    assert_eq!(s.apply(&var(1)), con("f32"));
}

#[test]
fn unification_binds_no_more_than_it_must() {
    let mut s = Subst::new();
    let var = |n| Ty::Var(TyVar(n));
    let left = Ty::Fn(vec![var(0), var(1)], Box::new(var(0)));
    let right = Ty::Fn(vec![var(2), con("bool")], Box::new(var(3)));
    assert!(unify(&mut s, &left, &right).is_ok());
    let open = s.apply(&var(0));
    assert!(matches!(open, Ty::Var(_)), "nothing fixes the first parameter");
    assert_eq!(s.apply(&var(2)), open);
    assert_eq!(s.apply(&var(3)), open);
    assert_eq!(s.apply(&var(1)), con("bool"));
}

#[test]
fn a_constant_agrees_with_a_type_that_it_can_have() {
    let mut s = Subst::new();
    assert_eq!(unify(&mut s, &Ty::Const(ConstValue::Int(3)), &con("i32")), Ok(()));
    assert!(unify(&mut s, &Ty::Const(ConstValue::Int(3)), &con("bool")).is_err());
    assert!(unify(
        &mut s,
        &Ty::Const(ConstValue::Int(3)),
        &Ty::Const(ConstValue::Int(4))
    )
    .is_err());
}

#[test]
fn a_pack_takes_the_rest_of_the_types() {
    let mut s = Subst::new();
    let open = Ty::App("T".to_string(), vec![con("i32"), Ty::Pack(TyVar(5))]);
    let known = Ty::App("T".to_string(), vec![con("i32"), con("bool"), con("f32")]);
    assert_eq!(unify(&mut s, &open, &known), Ok(()));
    assert_eq!(s.apply(&open), known);
}

#[test]
fn constants_are_computed_without_overflow() {
    let int = |n: u64| ConstValue::Int(n);
    assert_eq!(eval_binop("add", int(2), int(3)), Some(int(5)));
    assert_eq!(eval_binop("sub", int(2), int(3)), Some(int(u64::MAX)));
    assert_eq!(eval_binop("mul", int(7), int(6)), Some(int(42)));
    assert_eq!(eval_binop("div", int(7), int(2)), Some(int(3)));
    assert_eq!(eval_binop("div", int(7), int(0)), None);
    assert_eq!(eval_binop("pow", int(7), int(2)), None);
}

#[test]
fn messages_name_what_went_wrong() {
    let text = |kind: TypeErrorKind| TypeError { span: at(0), kind }.to_text();
    assert_eq!(
        text(TypeErrorKind::ArityMismatch { name: "f".to_string(), expected: 2, found: 1 }),
        "`f` expects 2 argument(s), found 1"
    );
    assert_eq!(
        text(TypeErrorKind::Unify(UnifyError::Mismatch(con("i32"), con("f32")))),
        "type mismatch: expected `i32`, found `f32`"
    );
    assert!(text(TypeErrorKind::Unify(UnifyError::Mismatch(con("i32"), con("()"))))
        .starts_with("type mismatch: expected `i32`, found `()` (note: `()` usually means"));
    assert_eq!(
        text(TypeErrorKind::ConstDivByZero { dividend: 4 }),
        "division by zero in a const-generic expression: `4 / 0`"
    );
    let inner = TypeError { span: at(0), kind: TypeErrorKind::BreakOutsideLoop };
    assert_eq!(
        text(TypeErrorKind::GenericFnInstantiationFailed {
            name: "g".to_string(),
            tys: "i32".to_string(),
            inner: Box::new(inner),
        }),
        "`g` cannot be specialized for (i32): `break` outside a loop"
    );
}
