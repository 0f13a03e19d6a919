//! Programs in continuation-passing style.

use cleave::const_eval::ConstValue;
use cleave::cps::{CExpr, CFunDef, CTopLevelFn, CVal, CVar, CpsProgram, PrimOp};
use cleave::escape::escaping_struct_vars;
use cleave::forward::Forward;
use cleave::fresh::FreshVars;
use cleave::lang::{
    abstract_op_name, CleaveLang, ConstantFold, DerivativeFreeCost, FoldData, DERIVATIVE_PENALTY,
};
use cleave::listing::{Listing, NameSet};
use cleave::rebuild::{max_cvar_in_program, rebuild_segment, substitute_var};
use cleave::rename::alpha_rename;
use cleave::shapes::{is_transparent_chain, recognize_loop, recognize_real_call};
use cleave::table::Table;
use cleave::text_parts::{concrete_type_of, denotes_float, split_top_level_commas};
use cleave::ty::{Ty, TyVar};
use cleave::zero::build_zero;

fn i32_ty() -> Ty {
    Ty::Con("i32".to_string())
}

fn pair_ty() -> Ty {
    Ty::Con("Pair".to_string())
}

fn let_prim(var: CVar, ty: Ty, op: PrimOp, args: Vec<CVal>, cont: CExpr) -> CExpr {
    CExpr::LetPrim { var, ty, op, args, cont: Box::new(cont) }
}

fn pair(var: CVar, cont: CExpr) -> CExpr {
    let_prim(
        var,
        pair_ty(),
        PrimOp::Struct("Pair".to_string(), vec!["x".to_string()]),
        vec![CVal::Int(1)],
        cont,
    )
}

fn read(var: CVar, from: CVar, cont: CExpr) -> CExpr {
    let_prim(
        var,
        i32_ty(),
        PrimOp::Field { struct_ty: pair_ty(), field: "x".to_string() },
        vec![CVal::Var(from)],
        cont,
    )
}

fn app(func: CVal, args: Vec<CVal>) -> CExpr {
    CExpr::App { func, args }
}

fn label(l: &str) -> CVal {
    CVal::Label(l.to_string())
}

fn continuation(n: &str, params: Vec<CVar>, body: CExpr) -> CFunDef {
    CFunDef { name: n.to_string(), params, body, carried_types: None }
}

fn program(body: CExpr) -> CpsProgram {
    CpsProgram {
        funcs: vec![CTopLevelFn {
            def: continuation("f", vec![1, 2], body),
            param_types: vec![i32_ty()],
            result: i32_ty(),
            k_ret: 2,
            origin: None,
        }],
    }
}

// ---- escaping ----

#[test]
fn a_struct_that_is_only_read_does_not_escape() {
    let p = program(pair(10, read(11, 10, app(CVal::Var(2), vec![CVal::Var(11)]))));
    assert!(escaping_struct_vars(&p).is_empty());
}

#[test]
fn a_struct_that_is_passed_on_escapes() {
    let p = program(pair(10, app(CVal::Var(2), vec![CVal::Var(10)])));
    let found = escaping_struct_vars(&p);
    assert_eq!(found.len(), 1);
    assert!(found.contains(&10));
}

#[test]
fn a_struct_that_a_continuation_uses_escapes_at_the_jump_to_it() {
    let rest = read(12, 10, app(CVal::Var(2), vec![CVal::Var(12)]));
    let body = pair(
        10,
        CExpr::Fix {
            defs: vec![continuation("k", vec![11], rest)],
            body: Box::new(app(label("g"), vec![CVal::Int(1), label("k")])),
        },
    );
    assert!(escaping_struct_vars(&program(body)).contains(&10));
}

#[test]
fn a_struct_that_is_made_after_the_jump_does_not_escape_by_it() {
    let inner = pair(20, read(21, 20, app(CVal::Var(2), vec![CVal::Var(21)])));
    let body = CExpr::Fix {
        defs: vec![continuation("k", vec![11], inner)],
        body: Box::new(app(label("g"), vec![CVal::Int(1), label("k")])),
    };
    assert!(escaping_struct_vars(&program(body)).is_empty());
}

#[test]
fn both_branches_of_a_choice_count() {
    let body = pair(
        10,
        CExpr::If {
            cond: CVal::Bool(true),
            then_branch: Box::new(app(CVal::Var(2), vec![CVal::Int(0)])),
            else_branch: Box::new(app(CVal::Var(2), vec![CVal::Var(10)])),
        },
    );
    assert!(escaping_struct_vars(&program(body)).contains(&10));
}

// ---- renaming and replacing ----

#[test]
fn renaming_gives_every_binding_a_fresh_variable() {
    let body = pair(10, read(11, 10, app(CVal::Var(2), vec![CVal::Var(11), CVal::Var(7)])));
    let mut map: Table<CVar, CVar> = Table::new();
    let mut fresh = FreshVars::starting_at(100);
    let renamed = alpha_rename(&body, &mut map, &mut fresh);
    let expected = pair(
        100,
        read(101, 100, app(CVal::Var(2), vec![CVal::Var(101), CVal::Var(7)])),
    );
    assert_eq!(renamed, expected);
    assert_eq!(fresh.upcoming_var, 102);
    assert_eq!(map.get(&11), Some(&101));
}

#[test]
fn a_replaced_variable_is_gone() {
    let body = read(11, 10, app(CVal::Var(10), vec![CVal::Var(10), CVal::Var(7)]));
    let replaced = substitute_var(&body, 10, &CVal::Int(5));
    let expected = let_prim(
        11,
        i32_ty(),
        PrimOp::Field { struct_ty: pair_ty(), field: "x".to_string() },
        vec![CVal::Int(5)],
        app(CVal::Int(5), vec![CVal::Int(5), CVal::Var(7)]),
    );
    assert_eq!(replaced, expected);
}

#[test]
fn the_largest_bound_variable_of_a_program_is_found() {
    let body = CExpr::Fix {
        defs: vec![continuation("k", vec![40], pair(33, app(CVal::Var(99), vec![])))],
        body: Box::new(app(label("k"), vec![CVal::Int(0)])),
    };
    assert_eq!(max_cvar_in_program(&program(body).funcs), 40);
    assert_eq!(max_cvar_in_program(&vec![]), 0);
}

// ---- shapes ----

#[test]
fn a_call_is_one_continuation_that_is_handed_on_last() {
    let defs = vec![continuation("k", vec![5], app(CVal::Var(2), vec![CVal::Var(5)]))];
    let body = app(label("g"), vec![CVal::Int(1), label("k")]);
    let call = recognize_real_call(&defs, &body).expect("a call");
    assert_eq!(call.result_var, 5);
    assert_eq!(call.unit_name, "g");
    assert_eq!(call.args.len(), 2);
    let other = app(label("g"), vec![label("k"), CVal::Int(1)]);
    assert!(recognize_real_call(&defs, &other).is_none());
    assert!(recognize_loop(&defs, &body).is_none());
}

#[test]
fn a_function_that_calls_itself_is_not_seen_through() {
    let body = CExpr::Fix {
        defs: vec![continuation("k", vec![5], app(CVal::Var(2), vec![CVal::Var(5)]))],
        body: Box::new(app(label("f"), vec![CVal::Int(1), label("k")])),
    };
    let p = program(body);
    assert!(!is_transparent_chain(&p.funcs[0].def.body, &p.funcs, &NameSet::new()));
}

// ---- what is known of terms ----

fn known(const_int: Option<u64>, deps: &[&str], own_ty: Option<Ty>) -> FoldData {
    let mut free_deps = NameSet::new();
    for d in deps {
        free_deps.add_name(&d.to_string());
    }
    FoldData { const_int, free_deps, own_ty }
}

fn fold() -> ConstantFold {
    ConstantFold { known_types: Table::new() }
}

#[test]
fn the_abstract_operation_is_the_method_without_its_types() {
    let name = |s: &str| abstract_op_name(s);
    assert_eq!(name("Ring::add<i32>"), Some("add".to_string()));
    assert_eq!(name("arith.addi:i32:[]"), Some("add".to_string()));
    assert_eq!(name("arith.mulf:f32:[]"), Some("mul".to_string()));
    assert_eq!(name("arith.subi:i32:[]"), None);
    assert_eq!(name("derivative"), None);
}

#[test]
fn merging_keeps_what_both_allow() {
    let mut to = known(None, &["a", "b"], None);
    let changed = fold().merge(&mut to, known(Some(4), &["b", "c"], Some(i32_ty())));
    assert_eq!(changed, (true, true));
    assert_eq!(to.const_int, Some(4));
    assert_eq!(to.free_deps.items, vec!["b".to_string()]);
    assert_eq!(to.own_ty, Some(i32_ty()));

    let mut same = known(Some(1), &["a"], Some(i32_ty()));
    assert_eq!(
        fold().merge(&mut same, known(Some(1), &["a"], Some(i32_ty()))),
        (false, false)
    );

    let mut other = known(None, &[], Some(i32_ty()));
    assert_eq!(fold().merge(&mut other, known(None, &[], Some(pair_ty()))), (true, true));
    assert_eq!(other.own_ty, None);
}

#[test]
fn a_node_depends_on_what_its_children_depend_on() {
    let mut f = fold();
    f.known_types.insert("Ring::mul<i32>".to_string(), i32_ty());
    let node = CleaveLang::Op("Ring::mul<i32>".to_string(), vec![0, 1]);
    let made = f.make(&node, &vec![known(Some(6), &["a"], None), known(Some(7), &["b"], None)]);
    assert_eq!(made.const_int, Some(42));
    assert_eq!(made.free_deps.items.len(), 2);
    assert_eq!(made.own_ty, Some(i32_ty()));
    let free = f.make(&CleaveLang::Free("z".to_string()), &vec![]);
    assert_eq!(free.free_deps.items, vec!["z".to_string()]);
}

#[test]
fn a_marker_of_a_derivative_costs_more_than_any_small_term() {
    let marker = CleaveLang::Op("derivative".to_string(), vec![0, 1]);
    let other = CleaveLang::Op("Ring::add<i32>".to_string(), vec![0, 1]);
    assert_eq!(DerivativeFreeCost.cost(&other, &vec![1, 1]), 3);
    assert_eq!(DerivativeFreeCost.cost(&marker, &vec![1, 1]), 3 + DERIVATIVE_PENALTY);
    assert_eq!(DerivativeFreeCost.cost(&other, &vec![usize::MAX, 1]), usize::MAX);
}

// ---- symbols ----

#[test]
fn the_symbol_of_a_machine_operation_holds_its_attributes() {
    let op = PrimOp::RawMlirOp {
        op: "arith.cmpi".to_string(),
        attrs: vec![("predicate".to_string(), "slt".to_string())],
    };
    let expr = let_prim(
        0,
        i32_ty(),
        op,
        vec![CVal::Int(1), CVal::Int(2)],
        app(CVal::Var(9), vec![CVal::Var(0)]),
    );
    let mut fwd = Forward::default();
    let boundary = fwd.walk(&expr, &vec![], &mut FreshVars::new());
    let symbol = "arith.cmpi:i32:[(\"predicate\", \"slt\")]";
    assert!(matches!(&fwd.nodes[2], CleaveLang::Op(s, _) if s == symbol));
    assert!(fwd.raw_ops.find(symbol).is_some());
    assert!(matches!(boundary, CExpr::App { .. }));
}

#[test]
fn children_stand_before_their_parents() {
    let expr = pair(0, read(1, 0, app(CVal::Var(9), vec![CVal::Var(1)])));
    let mut fwd = Forward::default();
    let boundary = fwd.walk(&expr, &vec![], &mut FreshVars::new());
    for (i, n) in fwd.nodes.iter().enumerate() {
        if let CleaveLang::Op(_, children) = n {
            assert!(children.iter().all(|c| *c < i));
        }
    }
    let root = *fwd.env.get(&1).unwrap();
    let rebuilt =
        rebuild_segment(&fwd.nodes, root, 1, &boundary, &fwd, &mut FreshVars::starting_at(50));
    assert_eq!(rebuilt, Some(pair(50, read(51, 50, app(CVal::Var(9), vec![CVal::Var(51)])))));
    let unknown = vec![CleaveLang::Op("nothing".to_string(), vec![])];
    assert_eq!(
        rebuild_segment(&unknown, 0, 1, &boundary, &fwd, &mut FreshVars::new()),
        None
    );
}

// ---- texts and zeros ----

#[test]
fn texts_are_taken_apart_at_their_top_level() {
    assert_eq!(concrete_type_of("Ring::add<Complex<f32>>"), Some("Complex<f32>"));
    assert_eq!(concrete_type_of("main"), None);
    assert_eq!(
        split_top_level_commas("i32, Pair<f32, f64>"),
        vec!["i32".to_string(), "Pair<f32, f64>".to_string()]
    );
    assert_eq!(
        split_top_level_commas("(i32) -> f32, bool"),
        vec!["(i32) -> f32".to_string(), "bool".to_string()]
    );
    assert_eq!(
        split_top_level_commas("Pair<(i32, f32) -> bool, u8>, [f32; 2]"),
        vec!["Pair<(i32, f32) -> bool, u8>".to_string(), "[f32; 2]".to_string()]
    );
    assert!(denotes_float("1.5"));
    assert!(!denotes_float("one"));
}

#[test]
fn a_zero_has_the_shape_of_its_type() {
    let none: Table<String, String> = Table::new();
    let z = build_zero(&Ty::Con("f32".to_string()), &none).expect("a zero");
    assert_eq!(z.nodes, vec![CleaveLang::Float(0.0f64.to_bits())]);
    let n = build_zero(&i32_ty(), &none).expect("a zero");
    assert_eq!(n.nodes, vec![CleaveLang::Int(0)]);
    let size = |n: u64| Box::new(Ty::Const(ConstValue::Int(n)));
    let pair = build_zero(&Ty::Array(Box::new(i32_ty()), size(2)), &none).expect("a zero");
    assert_eq!(
        pair.nodes,
        vec![CleaveLang::Int(0), CleaveLang::Op("array:[i32; 2]:2".to_string(), vec![0, 0])]
    );
    assert!(build_zero(&Ty::Var(TyVar(0)), &none).is_none());
    assert!(build_zero(&Ty::Con("Pair".to_string()), &none).is_none());
    assert!(build_zero(&Ty::Con("bool".to_string()), &none).is_none());
}

#[test]
fn a_list_keeps_the_first_entry_that_is_noted() {
    let mut l: Listing<Ty> = Listing::new();
    l.note("a".to_string(), i32_ty());
    l.note("a".to_string(), pair_ty());
    assert_eq!(l.find("a"), Some(&i32_ty()));
    l.put("a".to_string(), pair_ty());
    assert_eq!(l.find("a"), Some(&pair_ty()));
    assert!(!l.has("b"));
}

#[test]
fn labels_count_up() {
    let mut fresh = FreshVars::new();
    assert_eq!(fresh.label("k"), "k$0");
    assert_eq!(fresh.label("k"), "k$1");
    assert_eq!(fresh.var(), 0);
}
