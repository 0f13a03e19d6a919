//! Parse trees into syntax trees.

use cleave::ast::{
    AlgebraItemKind, Expr, ExprKind, FileId, GenericParam, ItemKind, NodeId, NodeIdGen, Span,
    StmtKind, Type, TypeKind,
};
use cleave::infer_state::Infer;
use cleave::lower::{split_type_suffix, Lowerer};
use cleave::registry::Registry;
use cleave::tree::{Rule, Tree};
use cleave::ty::Ty;

fn tree(rule: Rule, text: &str, children: Vec<Tree>) -> Tree {
    Tree { rule, text: text.to_string(), start: 0, end: text.len(), children }
}

fn leaf(rule: Rule, text: &str) -> Tree {
    tree(rule, text, vec![])
}

/// An operand as it stands below the levels of binary operators.
fn unary(primary: Tree) -> Tree {
    tree(Rule::Unary, "", vec![tree(Rule::Postfix, "", vec![primary])])
}

fn postfix(primary: Tree, ops: Vec<Tree>) -> Tree {
    let mut parts = vec![primary];
    parts.extend(ops);
    tree(Rule::Unary, "", vec![tree(Rule::Postfix, "", parts)])
}

fn number(n: &str) -> Tree {
    tree(
        Rule::Primary,
        n,
        vec![tree(Rule::Literal, n, vec![leaf(Rule::NumericLit, n)])],
    )
}

fn variable(n: &str) -> Tree {
    tree(Rule::Primary, n, vec![tree(Rule::Path, n, vec![leaf(Rule::Ident, n)])])
}

fn additive(parts: Vec<Tree>) -> Tree {
    tree(Rule::Additive, "", parts)
}

fn times(parts: Vec<Tree>) -> Tree {
    tree(Rule::Multiplicative, "", parts)
}

fn op(text: &str) -> Tree {
    leaf(Rule::Other, text)
}

/// The expression that an additive term is.
fn expr_of(t: Tree) -> Tree {
    tree(
        Rule::Expr,
        "",
        vec![tree(
            Rule::Implication,
            "",
            vec![tree(Rule::Logical, "", vec![tree(Rule::Comparison, "", vec![t])])],
        )],
    )
}

fn single(u: Tree) -> Tree {
    expr_of(additive(vec![times(vec![u])]))
}

fn lowerer() -> Lowerer {
    Lowerer::new(FileId(3))
}

fn called(e: &Expr) -> (&str, &Vec<Expr>) {
    match &e.kind {
        ExprKind::Call(p, _, args, _) => (p.segments[0].as_str(), args),
        other => panic!("expected a call, got {other:?}"),
    }
}

fn is_number(e: &Expr, n: &str) -> bool {
    matches!(&e.kind, ExprKind::NumberLit { text, suffix: None } if text == n)
}

fn named_type(n: &str) -> Tree {
    tree(Rule::Type, n, vec![tree(Rule::Path, n, vec![leaf(Rule::Ident, n)])])
}

fn written_name(t: &Type) -> &str {
    match &t.kind {
        TypeKind::Path(p, _) => p.segments[0].as_str(),
        other => panic!("expected a name, got {other:?}"),
    }
}

#[test]
fn operators_are_calls_grouped_from_the_left() {
    // 1 - 2 + 3 * 4
    let t = expr_of(additive(vec![
        times(vec![unary(number("1"))]),
        op("-"),
        times(vec![unary(number("2"))]),
        op("+"),
        times(vec![unary(number("3")), op("*"), unary(number("4"))]),
    ]));
    let e = lowerer().lower_expr(&t).expect("an expression");
    let (add, args) = called(&e);
    assert_eq!(add, "add");
    let (sub, left) = called(&args[0]);
    assert_eq!(sub, "sub");
    assert!(is_number(&left[0], "1") && is_number(&left[1], "2"));
    let (mul, right) = called(&args[1]);
    assert_eq!(mul, "mul");
    assert!(is_number(&right[0], "3") && is_number(&right[1], "4"));
    assert_eq!(e.span.file, FileId(3));
}

#[test]
fn nodes_are_numbered_parts_before_wholes() {
    let t = expr_of(additive(vec![
        times(vec![unary(number("1"))]),
        op("+"),
        times(vec![unary(number("2"))]),
    ]));
    let mut l = lowerer();
    let e = l.lower_expr(&t).expect("an expression");
    let (_, args) = called(&e);
    assert_eq!((args[0].id, args[1].id, e.id), (NodeId(0), NodeId(1), NodeId(2)));
    let mut next = Lowerer::with_ids(FileId(4), l.into_ids());
    let again = next.lower_expr(&t).expect("an expression");
    let (_, more) = called(&again);
    assert_eq!((more[0].id, again.id), (NodeId(3), NodeId(5)));
    assert_eq!(again.span.file, FileId(4));
}

#[test]
fn an_unknown_operator_is_no_expression() {
    let t = expr_of(additive(vec![
        times(vec![unary(number("1"))]),
        op("%"),
        times(vec![unary(number("2"))]),
    ]));
    assert!(lowerer().lower_expr(&t).is_none());
    assert!(lowerer().lower_expr(&leaf(Rule::Block, "")).is_none());
}

#[test]
fn a_minus_before_an_operand_negates_it() {
    let t = single(tree(
        Rule::Unary,
        "-1",
        vec![leaf(Rule::UnaryOp, "-"), unary(number("1"))],
    ));
    let e = lowerer().lower_expr(&t).expect("an expression");
    let (neg, args) = called(&e);
    assert_eq!(neg, "neg");
    assert!(is_number(&args[0], "1"));
}

#[test]
fn a_conversion_is_a_method_without_arguments() {
    let to = tree(
        Rule::PostfixOp,
        ".to()",
        vec![leaf(Rule::Ident, "to"), leaf(Rule::CallArgs, "()")],
    );
    let len = tree(
        Rule::PostfixOp,
        ".len()",
        vec![leaf(Rule::Ident, "len"), leaf(Rule::CallArgs, "()")],
    );
    let field = tree(Rule::PostfixOp, ".x", vec![leaf(Rule::Ident, "x")]);
    let t = single(postfix(variable("a"), vec![field, len, to]));
    let e = lowerer().lower_expr(&t).expect("an expression");
    let (convert, args) = called(&e);
    assert_eq!(convert, "convert");
    match &args[0].kind {
        ExprKind::MethodCall(base, n, given) => {
            assert_eq!(n, "len");
            assert!(given.is_empty());
            assert!(matches!(&base.kind, ExprKind::FieldAccess(_, f) if f == "x"));
        }
        other => panic!("expected a method call, got {other:?}"),
    }
}

#[test]
fn an_expression_that_is_called_is_bound_first() {
    let args = tree(Rule::CallArgs, "()", vec![]);
    let t = single(postfix(
        variable("f"),
        vec![tree(Rule::PostfixOp, "()", vec![args])],
    ));
    let e = lowerer().lower_expr(&t).expect("an expression");
    match &e.kind {
        ExprKind::Block(b) => {
            assert_eq!(b.stmts.len(), 1);
            match &b.stmts[0].kind {
                StmtKind::Let { mutable, name, .. } => {
                    assert!(!*mutable);
                    assert_eq!(name, "<iife#0>");
                }
                other => panic!("expected a let, got {other:?}"),
            }
            let tail = b.tail.as_ref().expect("a tail");
            assert_eq!(called(tail).0, "<iife#0>");
        }
        other => panic!("expected a block, got {other:?}"),
    }
}

#[test]
fn a_number_may_carry_its_type() {
    let mut l = lowerer();
    let e = l.lower_numeric_lit(&leaf(Rule::NumericLit, "3:u8"));
    assert!(matches!(
        &e.kind,
        ExprKind::NumberLit { text, suffix: Some(s) } if text == "3" && s == "u8"
    ));
    assert_eq!(split_type_suffix("3"), ("3".to_string(), None));
    assert_eq!(split_type_suffix("3:i8"), ("3".to_string(), Some("i8".to_string())));
    let i = l.lower_imaginary_lit(&leaf(Rule::ImaginaryLit, "2.5i")).expect("a number");
    assert!(matches!(&i.kind, ExprKind::ImaginaryLit { text, suffix: None } if text == "2.5"));
    assert!(matches!(l.lower_bool_lit(&leaf(Rule::BoolLit, "true")).kind, ExprKind::BoolLit(true)));
}

#[test]
fn a_string_is_an_array_of_bytes() {
    let e = lowerer().lower_string_lit(&leaf(Rule::StringLit, "\"hé\"")).expect("a string");
    match &e.kind {
        ExprKind::ArrayLit(items) => {
            let texts: Vec<(String, String)> = items
                .iter()
                .map(|i| match &i.kind {
                    ExprKind::NumberLit { text, suffix: Some(s) } => (text.clone(), s.clone()),
                    other => panic!("expected a number, got {other:?}"),
                })
                .collect();
            let bytes: Vec<&str> = texts.iter().map(|t| t.0.as_str()).collect();
            assert_eq!(bytes, vec!["104", "195", "169"]);
            assert!(texts.iter().all(|t| t.1 == "i8"));
        }
        other => panic!("expected an array, got {other:?}"),
    }
    assert!(lowerer().lower_string_lit(&leaf(Rule::StringLit, "\"")).is_none());
}

#[test]
fn an_array_of_copies_has_nodes_of_its_own() {
    let body = tree(
        Rule::ArrayRepeat,
        "1; 3",
        vec![single(unary(number("1"))), leaf(Rule::NumericLit, "3")],
    );
    let e = lowerer()
        .lower_array_lit(&tree(Rule::ArrayLit, "[1; 3]", vec![body]))
        .expect("an array");
    match &e.kind {
        ExprKind::ArrayLit(items) => {
            assert_eq!(items.iter().map(|i| i.id.0).collect::<Vec<u32>>(), vec![0, 1, 2]);
        }
        other => panic!("expected an array, got {other:?}"),
    }
    assert_eq!(e.id, NodeId(3));
}

#[test]
fn several_sizes_are_arrays_of_arrays() {
    let dim = |n: &str| tree(Rule::ArrayDim, n, vec![single(unary(number(n)))]);
    let t = tree(
        Rule::Type,
        "[f64; 3, 4]",
        vec![tree(Rule::ArrayType, "[f64; 3, 4]", vec![named_type("f64"), dim("3"), dim("4")])],
    );
    let ty = lowerer().lower_type(&t).expect("a type");
    match &ty.kind {
        TypeKind::Array(inner, outer_size) => {
            assert!(is_number(outer_size, "3"));
            match &inner.kind {
                TypeKind::Array(elem, size) => {
                    assert!(is_number(size, "4"));
                    assert_eq!(written_name(elem), "f64");
                }
                other => panic!("expected an array, got {other:?}"),
            }
        }
        other => panic!("expected an array, got {other:?}"),
    }
}

#[test]
fn a_tuple_is_a_struct_of_its_length() {
    let t = tree(
        Rule::TupleLit,
        "(1, 2)",
        vec![single(unary(number("1"))), single(unary(number("2")))],
    );
    let e = lowerer().lower_tuple_lit(&t).expect("a tuple");
    match &e.kind {
        ExprKind::StructLit(p, _, fields) => {
            assert_eq!(p.segments, vec!["__Tuple2".to_string()]);
            assert_eq!(fields[0].0, "0");
            assert_eq!(fields[1].0, "1");
        }
        other => panic!("expected a struct, got {other:?}"),
    }
    let ty = lowerer()
        .lower_tuple_type(&tree(Rule::TupleType, "", vec![named_type("i32"), named_type("f32")]))
        .expect("a type");
    assert_eq!(written_name(&ty), "__Tuple2");
}

fn block(parts: Vec<Tree>) -> Tree {
    tree(Rule::Block, "", parts)
}

#[test]
fn a_loop_over_a_range_has_two_bounds() {
    let range = tree(
        Rule::ForExpr,
        "",
        vec![
            leaf(Rule::Ident, "i"),
            additive(vec![times(vec![unary(number("0"))])]),
            additive(vec![times(vec![unary(number("9"))])]),
            block(vec![]),
        ],
    );
    let e = lowerer().lower_for_expr(&range).expect("a loop");
    assert!(matches!(&e.kind, ExprKind::For { var, .. } if var == "i"));
    let over = tree(
        Rule::ForExpr,
        "",
        vec![
            leaf(Rule::Ident, "x"),
            additive(vec![times(vec![unary(variable("xs"))])]),
            block(vec![]),
        ],
    );
    let e = lowerer().lower_for_expr(&over).expect("a loop");
    assert!(matches!(&e.kind, ExprKind::ForIn { var, .. } if var == "x"));
}

#[test]
fn a_block_has_statements_and_a_value() {
    let bind = tree(
        Rule::Stmt,
        "",
        vec![tree(
            Rule::LetStmt,
            "",
            vec![
                leaf(Rule::MutKw, "mut"),
                leaf(Rule::Ident, "a"),
                named_type("i32"),
                single(unary(number("1"))),
            ],
        )],
    );
    let stop = tree(Rule::Stmt, "", vec![leaf(Rule::BreakStmt, "break")]);
    let b = lowerer()
        .lower_block(&block(vec![bind, stop, single(unary(variable("a")))]))
        .expect("a block");
    assert_eq!(b.stmts.len(), 2);
    assert!(matches!(&b.stmts[0].kind, StmtKind::Let { mutable: true, name, ty: Some(_), .. } if name == "a"));
    assert!(matches!(&b.stmts[1].kind, StmtKind::Break(None)));
    assert!(b.tail.is_some());
}

#[test]
fn a_program_is_its_items() {
    let params = tree(
        Rule::ParamList,
        "",
        vec![tree(Rule::Param, "", vec![leaf(Rule::Ident, "x"), named_type("i32")])],
    );
    let generics = tree(
        Rule::GenericParams,
        "",
        vec![
            tree(
                Rule::GenericParam,
                "",
                vec![
                    leaf(Rule::Ident, "T"),
                    tree(Rule::BoundList, "", vec![leaf(Rule::Ident, "Ring")]),
                ],
            ),
            tree(Rule::GenericParam, "", vec![leaf(Rule::Ident, "N"), named_type("i32")]),
        ],
    );
    let f = tree(
        Rule::FnDecl,
        "",
        vec![
            tree(
                Rule::Attribute,
                "",
                vec![leaf(Rule::Ident, "inline"), leaf(Rule::Ident, "always")],
            ),
            leaf(Rule::ExportKw, "export"),
            leaf(Rule::Ident, "f"),
            generics,
            params,
            named_type("i32"),
            block(vec![single(unary(variable("x")))]),
        ],
    );
    let derive = tree(
        Rule::DeriveDecl,
        "",
        vec![leaf(Rule::Ident, "fprime"), leaf(Rule::Ident, "f")],
    );
    let item = |inner: Tree| tree(Rule::Item, "", vec![inner]);
    let program = tree(
        Rule::Program,
        "",
        vec![item(f), item(derive), leaf(Rule::Other, "")],
    );
    let p = lowerer().lower_program(&program).expect("a program");
    assert_eq!(p.items.len(), 2);
    match &p.items[0].kind {
        ItemKind::Fn(d) => {
            assert_eq!(d.name, "f");
            assert!(d.is_export && !d.is_extern);
            assert_eq!(d.attrs[0].args, vec!["always".to_string()]);
            assert!(matches!(&d.generics[0], GenericParam::Type { name, bounds, variadic: false } if name == "T" && bounds.len() == 1));
            assert!(matches!(&d.generics[1], GenericParam::Const { name, .. } if name == "N"));
            assert_eq!(d.params[0].name, "x");
            assert!(d.ret.is_some() && d.body.is_some());
        }
        other => panic!("expected a function, got {other:?}"),
    }
    match &p.items[1].kind {
        ItemKind::Fn(d) => {
            assert_eq!(d.name, "fprime");
            assert_eq!(d.derivative_of, Some("f".to_string()));
            assert!(d.body.is_none());
        }
        other => panic!("expected a function, got {other:?}"),
    }
    assert!(lowerer().lower_program(&leaf(Rule::Block, "")).is_none());
}

#[test]
fn an_algebra_declares_functions_laws_and_derivatives() {
    let two = || {
        tree(
            Rule::ParamList,
            "",
            vec![
                tree(Rule::Param, "", vec![leaf(Rule::Ident, "a")]),
                tree(Rule::Param, "", vec![leaf(Rule::Ident, "b")]),
            ],
        )
    };
    let member = |inner: Tree| tree(Rule::AlgebraItem, "", vec![inner]);
    let t = tree(
        Rule::AlgebraDecl,
        "",
        vec![
            leaf(Rule::Ident, "Ring"),
            tree(
                Rule::GenericParams,
                "",
                vec![tree(Rule::GenericParam, "", vec![leaf(Rule::Ident, "T")])],
            ),
            tree(Rule::BoundList, "", vec![leaf(Rule::Ident, "Num")]),
            member(tree(Rule::FnSig, "", vec![leaf(Rule::Ident, "add"), two(), named_type("T")])),
            member(tree(
                Rule::AxiomDecl,
                "",
                vec![leaf(Rule::Ident, "comm"), two(), single(unary(variable("a")))],
            )),
            member(tree(
                Rule::DerivativeRuleDecl,
                "",
                vec![leaf(Rule::Ident, "add"), two(), single(unary(variable("b")))],
            )),
        ],
    );
    let d = lowerer().lower_algebra_decl(&t).expect("an algebra");
    assert_eq!(d.name, "Ring");
    assert_eq!(d.bounds, vec!["Num".to_string()]);
    assert_eq!(d.items.len(), 3);
    assert!(matches!(&d.items[0].kind, AlgebraItemKind::FnSig(s) if s.name == "add" && s.params.len() == 2));
    assert!(matches!(&d.items[1].kind, AlgebraItemKind::Axiom(x) if x.name == "comm"));
    assert!(matches!(&d.items[2].kind, AlgebraItemKind::DerivativeRule(x) if x.method == "add"));
}

#[test]
fn every_node_of_two_files_has_a_number_of_its_own() {
    let t = expr_of(additive(vec![
        times(vec![unary(number("1")), op("*"), unary(number("2"))]),
        op("+"),
        times(vec![unary(variable("x"))]),
    ]));
    let mut ids: Vec<u32> = Vec::new();
    let mut source = NodeIdGen::default();
    for file in 0..2u32 {
        let mut l = Lowerer::with_ids(FileId(file), source);
        let e = l.lower_expr(&t).expect("an expression");
        collect(&e, &mut ids);
        source = l.into_ids();
    }
    let count = ids.len();
    assert_eq!(count, 10);
    ids.sort();
    ids.dedup();
    assert_eq!(ids.len(), count);
}

fn collect(e: &Expr, out: &mut Vec<u32>) {
    out.push(e.id.0);
    if let ExprKind::Call(_, _, args, _) = &e.kind {
        for a in args {
            collect(a, out);
        }
    }
}

#[test]
fn a_span_goes_from_the_first_operand_to_the_last() {
    let mut left = number("1");
    left.start = 4;
    left.children[0].children[0].start = 4;
    left.children[0].children[0].end = 5;
    let mut right = number("2");
    right.children[0].children[0].start = 8;
    right.children[0].children[0].end = 9;
    let t = expr_of(additive(vec![
        times(vec![unary(left)]),
        op("+"),
        times(vec![unary(right)]),
    ]));
    let e = lowerer().lower_expr(&t).expect("an expression");
    assert_eq!(e.span, Span { file: FileId(3), start: 4, end: 9 });
}

#[test]
fn copies_and_bytes_take_a_number_each() {
    let copies = tree(
        Rule::ArrayRepeat,
        "1; 3",
        vec![single(unary(number("1"))), leaf(Rule::NumericLit, "3")],
    );
    let mut l = lowerer();
    let first = l
        .lower_array_lit(&tree(Rule::ArrayLit, "[1; 3]", vec![copies]))
        .expect("an array");
    let second = l.lower_string_lit(&leaf(Rule::StringLit, "\"hé\"")).expect("a string");
    let mut ids: Vec<u32> = Vec::new();
    for e in [&first, &second] {
        if let ExprKind::ArrayLit(items) = &e.kind {
            ids.extend(items.iter().map(|i| i.id.0));
        }
        ids.push(e.id.0);
    }
    assert_eq!(ids, (0..8).collect::<Vec<u32>>());
    assert_eq!(l.into_ids().next(), NodeId(8));
}

/// `fn name(x: i32) -> i32 { x }`.
fn identity(name: &str) -> Tree {
    let params = tree(
        Rule::ParamList,
        "",
        vec![tree(Rule::Param, "", vec![leaf(Rule::Ident, "x"), named_type("i32")])],
    );
    let decl = tree(
        Rule::FnDecl,
        "",
        vec![
            leaf(Rule::Ident, name),
            params,
            named_type("i32"),
            block(vec![single(unary(variable("x")))]),
        ],
    );
    tree(Rule::Item, "", vec![decl])
}

#[test]
fn files_take_numbers_one_after_the_other() {
    let program = tree(
        Rule::Program,
        "",
        vec![identity("f"), leaf(Rule::Other, ""), identity("g")],
    );
    let mut source = NodeIdGen::default();
    let mut items: Vec<(String, u32)> = Vec::new();
    let mut values: Vec<u32> = Vec::new();
    for file in 0..2u32 {
        let mut l = Lowerer::with_ids(FileId(file), source);
        let p = l.lower_program(&program).expect("a program");
        for i in &p.items {
            match &i.kind {
                ItemKind::Fn(d) => {
                    items.push((d.name.clone(), i.id.0));
                    let body = d.body.as_ref().expect("a body");
                    values.push(body.tail.as_ref().expect("a value").id.0);
                }
                other => panic!("expected a function, got {other:?}"),
            }
        }
        source = l.into_ids();
    }
    let names: Vec<&str> = items.iter().map(|i| i.0.as_str()).collect();
    assert_eq!(names, vec!["f", "g", "f", "g"]);
    assert_eq!(items.iter().map(|i| i.1).collect::<Vec<u32>>(), vec![3, 7, 11, 15]);
    assert_eq!(values, vec![2, 6, 10, 14]);
    assert_eq!(source.next(), NodeId(16));
}

#[test]
fn a_lowered_function_that_is_accepted_is_typed_at_its_numbers() {
    let program = tree(Rule::Program, "", vec![identity("f"), identity("g")]);
    let p = lowerer().lower_program(&program).expect("a program");
    let registry = Registry::new();
    for (item, value) in p.items.iter().zip([2u32, 6]) {
        match &item.kind {
            ItemKind::Fn(d) => {
                let mut infer = Infer::new(&registry);
                assert!(infer.infer_fn(d).is_ok());
                assert_eq!(infer.node_types.get(&value), Some(&Ty::Con("i32".to_string())));
            }
            other => panic!("expected a function, got {other:?}"),
        }
    }
}
