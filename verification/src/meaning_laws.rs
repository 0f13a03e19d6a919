//! Lowering keeps what expressions mean.

use vstd::prelude::*;

use crate::ast::{FileId, Span};
use crate::ast_views::{BlockV, ExprKindV, ExprV, GenericArgV, StmtKindV, StmtV};
use crate::lower_specs::{
    call_of, copies, expr_node, low_args, low_binary, low_binding, low_block, low_block_parts,
    low_bytes, low_call_args, low_copies, low_expr, low_exprs, low_fold, low_for, low_inits, low_let,
    low_literal, low_op, low_operand, low_ops, low_postfix, low_primary, low_stmt, low_struct_lit,
    low_tuple_lit, low_turbofish, low_type, low_unary, low_while, numbered, op_name, span_of, suffix_of,
    ArgsV, BindingV, LowV,
};
use crate::meaning::{
    does, fits, mean_block, mean_expr, mean_exprs, mean_inits, mean_kind, mean_stmt, mean_stmts,
    number_parts, placed, read_arg, read_args, read_block, read_brackets, read_bytes, read_chain,
    read_expr, read_exprs, read_init, read_inits, read_let, read_lets, read_level, read_literal,
    read_op, read_operand, read_ops, read_postfix, read_primary, read_struct, read_unary,
    tightness, written_path, Names, World,
};
use crate::meaning_parts::{lemma_array, lemma_call, lemma_if, lemma_lets};
use crate::numerals::{lemma_parsed, numeral};
use crate::text::{before_char, decimal, lemma_place_of, place_of};
use crate::tree::{is_at, texts_of, Rule, Tree};

verus! {

// ---- operators ----

/// The function that an operator becomes is what the operator is.
pub proof fn lemma_operator_named<T>(w: World<T>, level: nat, op: Seq<char>)
    requires
        fits(w),
        tightness(op) == Some(level),
    ensures
        op_name(level, op) matches Some(name) && does(w, name, op),
{
}

/// Operators of one level become different functions.
pub proof fn lemma_operators_apart(level: nat, a: Seq<char>, b: Seq<char>)
    requires
        op_name(level, a) is Some,
        op_name(level, a) == op_name(level, b),
    ensures
        a == b,
{
    reveal_strlit("le");
    reveal_strlit("ge");
    reveal_strlit("eq");
    reveal_strlit("neq");
    reveal_strlit("lt");
    reveal_strlit("gt");
    reveal_strlit("add");
    reveal_strlit("sub");
    reveal_strlit("mul");
    reveal_strlit("div");
    assert("le"@[0] == 'l' && "le"@[1] == 'e' && "ge"@[0] == 'g' && "ge"@[1] == 'e');
    assert("eq"@[0] == 'e' && "lt"@[0] == 'l' && "lt"@[1] == 't');
    assert("gt"@[0] == 'g' && "gt"@[1] == 't' && "neq"@.len() == 3);
    assert("add"@[0] == 'a' && "sub"@[0] == 's' && "mul"@[0] == 'm' && "div"@[0] == 'd');
}

/// Whether a comparison holds, as it is written.
pub open spec fn compared(op: Seq<char>, a: int, b: int) -> Option<bool> {
    if op == "<"@ {
        Some(a < b)
    } else if op == ">"@ {
        Some(a > b)
    } else if op == "<="@ {
        Some(a <= b)
    } else if op == ">="@ {
        Some(a >= b)
    } else if op == "=="@ {
        Some(a == b)
    } else if op == "!="@ {
        Some(a != b)
    } else {
        None
    }
}

/// Whether a comparison holds, by the name of its function.
pub open spec fn ordered(name: Seq<char>, a: int, b: int) -> Option<bool> {
    if name == "lt"@ {
        Some(a < b)
    } else if name == "gt"@ {
        Some(a > b)
    } else if name == "le"@ {
        Some(a <= b)
    } else if name == "ge"@ {
        Some(a >= b)
    } else if name == "eq"@ {
        Some(a == b)
    } else if name == "neq"@ {
        Some(a != b)
    } else {
        None
    }
}

/// A comparison becomes the function that holds of the same numbers. No other text is a
/// comparison.
pub proof fn lemma_comparisons(op: Seq<char>, a: int, b: int)
    ensures
        match op_name(2, op) {
            Some(name) => compared(op, a, b) is Some && ordered(name, a, b) == compared(op, a, b),
            None => compared(op, a, b) is None,
        },
{
    reveal_strlit("le");
    reveal_strlit("ge");
    reveal_strlit("eq");
    reveal_strlit("neq");
    reveal_strlit("lt");
    reveal_strlit("gt");
    reveal_strlit("<");
    reveal_strlit(">");
    reveal_strlit("<=");
    reveal_strlit(">=");
    reveal_strlit("==");
    reveal_strlit("!=");
    assert("le"@[0] == 'l' && "le"@[1] == 'e' && "ge"@[0] == 'g' && "ge"@[1] == 'e');
    assert("eq"@[0] == 'e' && "lt"@[0] == 'l' && "lt"@[1] == 't');
    assert("gt"@[0] == 'g' && "gt"@[1] == 't' && "neq"@.len() == 3);
    assert("<"@[0] == '<' && ">"@[0] == '>' && "<="@[0] == '<' && ">="@[0] == '>');
    assert("=="@[0] == '=' && "!="@[0] == '!');
    assert("<"@.len() == 1 && ">"@.len() == 1 && "<="@.len() == 2 && ">="@.len() == 2);
    assert("=="@.len() == 2 && "!="@.len() == 2);
    assert("le"@.len() == 2 && "ge"@.len() == 2 && "eq"@.len() == 2 && "lt"@.len() == 2);
    assert("gt"@.len() == 2);
}

// ---- what is kept ----

/// Whether an expression means what was read, where something was.
pub open spec fn kept<T>(
    w: World<T>,
    low: Option<LowV<ExprV>>,
    want: Option<T>,
    env: Names<T>,
    typed: bool,
) -> bool {
    want is Some && (typed ==> low is Some) ==> low is Some && mean_expr(w, low->0.value, env)
        == want
}

pub open spec fn kept_all<T>(
    w: World<T>,
    low: Option<LowV<Seq<ExprV>>>,
    want: Option<Seq<T>>,
    env: Names<T>,
    typed: bool,
) -> bool {
    want is Some && (typed ==> low is Some) ==> low is Some && mean_exprs(
        w,
        low->0.value,
        low->0.value.len(),
        env,
    ) == want
}

pub open spec fn kept_args<T>(
    w: World<T>,
    low: Option<LowV<ArgsV>>,
    want: Option<Seq<T>>,
    env: Names<T>,
    typed: bool,
) -> bool {
    want is Some && (typed ==> low is Some) ==> low is Some && low->0.value.attrs.len() == 0
        && mean_exprs(w, low->0.value.args, low->0.value.args.len(), env) == want
        && low->0.value.args.len() == want->0.len()
}

pub open spec fn kept_block<T>(
    w: World<T>,
    low: Option<LowV<BlockV>>,
    want: Option<T>,
    env: Names<T>,
    typed: bool,
) -> bool {
    want is Some && (typed ==> low is Some) ==> low is Some && mean_block(w, low->0.value, env)
        == want
}

proof fn lemma_front<T>(w: World<T>, a: Seq<ExprV>, b: Seq<ExprV>, n: nat, env: Names<T>)
    requires
        n <= a.len(),
        n <= b.len(),
        forall|i: int| 0 <= i < n ==> a[i] == b[i],
    ensures
        mean_exprs(w, a, n, env) == mean_exprs(w, b, n, env),
        mean_exprs(w, a, n, env) matches Some(vs) ==> vs.len() == n,
    decreases n,
{
    if n > 0 {
        lemma_front(w, a, b, (n - 1) as nat, env);
    }
}

proof fn lemma_push<T>(w: World<T>, es: Seq<ExprV>, e: ExprV, env: Names<T>)
    ensures
        mean_exprs(w, es.push(e), es.len() + 1, env) == (match (
            mean_exprs(w, es, es.len(), env),
            mean_expr(w, e, env),
        ) {
            (Some(vs), Some(v)) => Some(vs.push(v)),
            _ => None,
        }),
        mean_exprs(w, es, es.len(), env) matches Some(vs) ==> vs.len() == es.len(),
{
    lemma_front(w, es, es.push(e), es.len(), env);
}

proof fn lemma_one<T>(w: World<T>, e: ExprV, env: Names<T>)
    ensures
        mean_expr(w, e, env) matches Some(v) ==> mean_exprs(w, seq![e], 1, env) == Some(seq![v]),
{
    let none = Seq::<ExprV>::empty();
    assert(none.push(e) =~= seq![e]);
    lemma_push(w, none, e, env);
    if let Some(v) = mean_expr(w, e, env) {
        assert(Seq::<T>::empty().push(v) =~= seq![v]);
    }
}

proof fn lemma_two<T>(w: World<T>, a: ExprV, b: ExprV, env: Names<T>)
    ensures
        mean_expr(w, a, env) matches Some(x) ==> (mean_expr(w, b, env) matches Some(y)
            ==> mean_exprs(w, seq![a, b], 2, env) == Some(seq![x, y])),
{
    lemma_one(w, a, env);
    assert(seq![a].push(b) =~= seq![a, b]);
    lemma_push(w, seq![a], b, env);
    if let Some(x) = mean_expr(w, a, env) {
        if let Some(y) = mean_expr(w, b, env) {
            assert(seq![x].push(y) =~= seq![x, y]);
        }
    }
}

proof fn lemma_inits_front<T>(
    w: World<T>,
    a: Seq<(Seq<char>, ExprV)>,
    b: Seq<(Seq<char>, ExprV)>,
    n: nat,
    env: Names<T>,
)
    requires
        n <= a.len(),
        n <= b.len(),
        forall|i: int| 0 <= i < n ==> a[i] == b[i],
    ensures
        mean_inits(w, a, n, env) == mean_inits(w, b, n, env),
    decreases n,
{
    if n > 0 {
        lemma_inits_front(w, a, b, (n - 1) as nat, env);
    }
}

// ---- numbers ----

proof fn lemma_number_parts(text: Seq<char>)
    ensures
        before_char(text, ':') == number_parts(text).0,
        suffix_of(text) == number_parts(text).1,
{
    lemma_place_of(text, ':', 0);
    text.index_of_first_ensures(':');
    let p = place_of(text, ':', 0);
    if text.contains(':') {
        let i = text.index_of_first(':')->0;
        assert(p < text.len()) by {
            if p == text.len() {
                assert(text[i] != ':');
            }
        }
        assert(p == i) by {
            if p < i {
                assert(text[p as int] != ':');
            }
            if i < p {
                assert(text[i] != ':');
            }
        }
        assert(text.subrange(0, p as int) =~= text.take(i));
        assert(text.subrange(p as int + 1, text.len() as int) =~= text.skip(i + 1));
    } else {
        if p < text.len() {
            assert(text.contains(text[p as int]));
        }
        assert(text.subrange(0, p as int) =~= text);
    }
}

pub proof fn lemma_copies(text: Seq<char>)
    ensures
        numeral(number_parts(text).0) matches Some(n) ==> n <= usize::MAX ==> copies(text)
            == Some(n as usize),
{
    lemma_number_parts(text);
    let s = number_parts(text).0;
    lemma_parsed(s);
    if numeral(s) is Some {
        assert(crate::numerals::digit_of(s[0]) is Some);
        assert(s[0] != '+');
    }
}

proof fn lemma_bytes<T>(w: World<T>, bytes: Seq<u8>, n: nat, span: Span, id: u32, env: Names<T>)
    requires
        n <= bytes.len(),
    ensures
        ({
            let items = low_bytes(bytes, n, span, id).value;
            items.len() == n && mean_exprs(w, items, n, env) == Some(read_bytes(w, bytes.take(n as int)))
        }),
    decreases n,
{
    if n == 0 {
        assert(read_bytes(w, bytes.take(0)) =~= Seq::<T>::empty());
    } else {
        lemma_bytes(w, bytes, (n - 1) as nat, span, id, env);
        let before = low_bytes(bytes, (n - 1) as nat, span, id);
        let e = expr_node(
            ExprKindV::NumberLit { text: decimal(bytes[n - 1] as nat), suffix: Some("i8"@) },
            span,
            before.next,
        ).value;
        lemma_push(w, before.value, e, env);
        let v = (w.literal)(decimal(bytes[n - 1] as nat), Some("i8"@));
        assert(mean_expr(w, e, env) == Some(v));
        assert(read_bytes(w, bytes.take(n - 1)).push(v) =~= read_bytes(w, bytes.take(n as int)));
    }
}

proof fn lemma_literal<T>(w: World<T>, t: Tree, f: FileId, id: u32, env: Names<T>, typed: bool)
    ensures
        kept(w, low_literal(t, f, id), read_literal(w, t), env, typed),
{
    if t.children@.len() > 0 {
        let inner = t.children@[0];
        let text = inner.text@;
        match inner.rule {
            Rule::NumericLit => lemma_number_parts(text),
            Rule::ImaginaryLit => {
                if text.len() > 0 {
                    assert(text.drop_last() =~= text.take(text.len() - 1));
                }
            },
            Rule::StringLit => {
                if text.len() >= 2 {
                    let bytes = vstd::utf8::encode_utf8(text.subrange(1, text.len() - 1));
                    lemma_bytes(w, bytes, bytes.len(), span_of(inner, f), id, env);
                    assert(bytes.take(bytes.len() as int) =~= bytes);
                }
            },
            _ => {},
        }
    }
}

// ---- expressions ----

/// An expression means, as a syntax tree, what it means as it is written: operators are what
/// they are written as and group as they bind, operands, arguments and branches stay in their
/// places, and names are what the last binding before them says. Where no types are written,
/// there is a syntax tree.
pub proof fn lemma_meaning_is_kept<T>(
    w: World<T>,
    t: Tree,
    f: FileId,
    id: u32,
    env: Names<T>,
    typed: bool,
)
    requires
        fits(w),
    ensures
        kept(w, low_expr(t, f, id), read_expr(w, t, env, typed), env, typed),
    decreases t, 0nat,
{
    if t.rule == Rule::Expr && t.children@.len() > 0 {
        lemma_level(w, t.children@[0], 0, f, id, env, typed);
    }
}

proof fn lemma_level<T>(
    w: World<T>,
    t: Tree,
    level: nat,
    f: FileId,
    id: u32,
    env: Names<T>,
    typed: bool,
)
    requires
        fits(w),
        level <= 4,
    ensures
        kept(w, low_binary(t, level, f, id), read_level(w, t, level, env, typed), env, typed),
    decreases t, 0nat,
{
    let len = t.children@.len();
    if len % 2 == 1 {
        let n = ((len - 1) / 2) as nat;
        assert(((len + 1) / 2) as nat == n + 1);
        lemma_chain(w, t.children, level, n, f, id, env, typed);
    }
}

proof fn lemma_chain<T>(
    w: World<T>,
    children: Vec<Tree>,
    level: nat,
    n: nat,
    f: FileId,
    id: u32,
    env: Names<T>,
    typed: bool,
)
    requires
        fits(w),
        level <= 4,
    ensures
        kept(
            w,
            low_fold(children, level, n + 1, f, id),
            read_chain(w, children, level, n, env, typed),
            env,
            typed,
        ),
    decreases children, n,
{
    if 2 * n >= children@.len() {
    } else if n == 0 {
        lemma_operand(w, children@[0], level, f, id, env, typed);
    } else {
        let m = (n - 1) as nat;
        assert((n + 1 - 1) as nat == n && m + 1 == n);
        lemma_chain(w, children, level, m, f, id, env, typed);
        let low = low_fold(children, level, n, f, id);
        if low is Some {
            let acc = low->0;
            assert(2 * (n + 1) - 2 == 2 * n);
            assert(2 * (n + 1) - 3 == 2 * n - 1);
            lemma_operand(w, children@[2 * n as int], level, f, acc.next, env, typed);
            let op = children@[2 * n - 1].text@;
            if tightness(op) == Some(level) {
                lemma_operator_named(w, level, op);
                if let Some(rhs) = low_operand(children@[2 * n as int], level, f, acc.next) {
                    lemma_two(w, acc.value, rhs.value, env);
                    let name = op_name(level, op)->0;
                    let args = seq![acc.value, rhs.value];
                    assert(mean_kind(w, call_of(name, args), env) == (match mean_exprs(
                        w,
                        args,
                        2,
                        env,
                    ) {
                        Some(vs) => Some((w.call)(seq![name], vs)),
                        None => None,
                    }));
                    if let Some(a) = read_chain(w, children, level, m, env, typed) {
                        if let Some(b) = read_operand(
                            w,
                            children@[2 * n as int],
                            level,
                            env,
                            typed,
                        ) {
                            assert((w.operator)(op, a, b) == (w.call)(seq![name], seq![a, b]));
                        }
                    }
                }
            }
        }
    }
}

proof fn lemma_operand<T>(
    w: World<T>,
    t: Tree,
    level: nat,
    f: FileId,
    id: u32,
    env: Names<T>,
    typed: bool,
)
    requires
        fits(w),
        level <= 4,
    ensures
        kept(w, low_operand(t, level, f, id), read_operand(w, t, level, env, typed), env, typed),
    decreases t, 1nat,
{
    if level < 4 {
        lemma_level(w, t, level + 1, f, id, env, typed);
    } else {
        lemma_unary(w, t, f, id, env, typed);
    }
}

proof fn lemma_unary<T>(w: World<T>, t: Tree, f: FileId, id: u32, env: Names<T>, typed: bool)
    requires
        fits(w),
    ensures
        kept(w, low_unary(t, f, id), read_unary(w, t, env, typed), env, typed),
    decreases t, 0nat,
{
    if is_at(t.children, 0, Rule::UnaryOp) {
        if t.children@.len() > 1 {
            let op = t.children@[0].text@;
            lemma_unary(w, t.children@[1], f, id, env, typed);
            if let Some(operand) = low_unary(t.children@[1], f, id) {
                lemma_one(w, operand.value, env);
                let name = if op == "-"@ {
                    "neg"@
                } else {
                    "not"@
                };
                let args = seq![operand.value];
                assert(mean_kind(w, call_of(name, args), env) == (match mean_exprs(
                    w,
                    args,
                    1,
                    env,
                ) {
                    Some(vs) => Some((w.call)(seq![name], vs)),
                    None => None,
                }));
                if let Some(v) = read_unary(w, t.children@[1], env, typed) {
                    assert((w.call)(seq!["neg"@], seq![v]) == (w.prefix)("-"@, v));
                    assert((w.call)(seq!["not"@], seq![v]) == (w.prefix)("not"@, v));
                }
            }
        }
    } else if is_at(t.children, 0, Rule::Postfix) {
        lemma_postfix(w, t.children@[0], f, id, env, typed);
    }
}

proof fn lemma_postfix<T>(w: World<T>, t: Tree, f: FileId, id: u32, env: Names<T>, typed: bool)
    requires
        fits(w),
    ensures
        kept(w, low_postfix(t, f, id), read_postfix(w, t, env, typed), env, typed),
    decreases t, 0nat,
{
    if t.children@.len() > 0 {
        lemma_primary(w, t.children@[0], f, id, env, typed);
        if let Some(base) = low_primary(t.children@[0], f, id) {
            if let Some(v) = read_primary(w, t.children@[0], env, typed) {
                lemma_ops(w, t.children, t.children@.len(), f, base, v, env, typed);
            }
        }
    }
}

proof fn lemma_ops<T>(
    w: World<T>,
    children: Vec<Tree>,
    n: nat,
    f: FileId,
    base: LowV<ExprV>,
    v: T,
    env: Names<T>,
    typed: bool,
)
    requires
        fits(w),
        mean_expr(w, base.value, env) == Some(v),
    ensures
        kept(
            w,
            low_ops(children, n, f, base),
            read_ops(w, children, n, v, env, typed),
            env,
            typed,
        ),
    decreases children, n,
{
    if !(n <= 1 || n > children@.len()) {
        lemma_ops(w, children, (n - 1) as nat, f, base, v, env, typed);
        if let Some(acc) = low_ops(children, (n - 1) as nat, f, base) {
            if let Some(x) = read_ops(w, children, (n - 1) as nat, v, env, typed) {
                lemma_op(w, acc.value, x, children@[n - 1], f, acc.next, env, typed);
            }
        }
    }
}

proof fn lemma_op<T>(
    w: World<T>,
    base: ExprV,
    v: T,
    t: Tree,
    f: FileId,
    id: u32,
    env: Names<T>,
    typed: bool,
)
    requires
        fits(w),
        mean_expr(w, base, env) == Some(v),
    ensures
        kept(w, low_op(base, t, f, id), read_op(w, v, t, env, typed), env, typed),
    decreases t, 0nat,
{
    if is_at(t.children, 0, Rule::Ident) || is_at(t.children, 0, Rule::TupleIndex) {
        if t.children@.len() > 1 {
            lemma_brackets(w, t.children@[1], f, id, env, typed);
            lemma_one(w, base, env);
            let args = seq![base];
            assert(mean_kind(w, call_of("convert"@, args), env) == (match mean_exprs(
                w,
                args,
                1,
                env,
            ) {
                Some(vs) => Some((w.call)(seq!["convert"@], vs)),
                None => None,
            }));
        }
    } else if is_at(t.children, 0, Rule::Expr) {
        lemma_exprs(w, t.children, t.children@.len(), f, id, env, typed);
    }
}

proof fn lemma_brackets<T>(w: World<T>, t: Tree, f: FileId, id: u32, env: Names<T>, typed: bool)
    requires
        fits(w),
    ensures
        kept_args(w, low_call_args(t, f, id), read_brackets(w, t, env, typed), env, typed),
    decreases t, 0nat,
{
    if t.children@.len() > 0 {
        let list = t.children@[0].children;
        lemma_args(w, list, list@.len(), f, id, env, typed);
    }
}

pub proof fn lemma_exprs<T>(
    w: World<T>,
    children: Vec<Tree>,
    n: nat,
    f: FileId,
    id: u32,
    env: Names<T>,
    typed: bool,
)
    requires
        fits(w),
    ensures
        kept_all(
            w,
            low_exprs(children, 0, n, f, id),
            read_exprs(w, children, n, env, typed),
            env,
            typed,
        ),
    decreases children, n,
{
    if !(n == 0 || n > children@.len()) {
        lemma_exprs(w, children, (n - 1) as nat, f, id, env, typed);
        if let Some(before) = low_exprs(children, 0, (n - 1) as nat, f, id) {
            lemma_meaning_is_kept(w, children@[n - 1], f, before.next, env, typed);
            if let Some(e) = low_expr(children@[n - 1], f, before.next) {
                lemma_push(w, before.value, e.value, env);
            }
        }
    }
}

pub proof fn lemma_args<T>(
    w: World<T>,
    children: Vec<Tree>,
    n: nat,
    f: FileId,
    id: u32,
    env: Names<T>,
    typed: bool,
)
    requires
        fits(w),
    ensures
        kept_args(
            w,
            low_args(children, n, f, id),
            read_args(w, children, n, env, typed),
            env,
            typed,
        ),
    decreases children, n,
{
    if !(n == 0 || n > children@.len()) {
        lemma_args(w, children, (n - 1) as nat, f, id, env, typed);
        let arg = children@[n - 1];
        if let Some(before) = low_args(children, (n - 1) as nat, f, id) {
            if is_at(arg.children, 0, Rule::Expr) {
                lemma_arg(w, arg, f, before.next, env, typed);
                if let Some(e) = low_expr(arg.children@[0], f, before.next) {
                    lemma_push(w, before.value.args, e.value, env);
                }
            }
        }
    }
}

proof fn lemma_arg<T>(w: World<T>, t: Tree, f: FileId, id: u32, env: Names<T>, typed: bool)
    requires
        fits(w),
        is_at(t.children, 0, Rule::Expr),
    ensures
        kept(w, low_expr(t.children@[0], f, id), read_arg(w, t, env, typed), env, typed),
    decreases t, 0nat,
{
    lemma_meaning_is_kept(w, t.children@[0], f, id, env, typed);
}

pub proof fn lemma_path(t: Tree)
    ensures
        texts_of(t.children, 0) == written_path(t),
{
    assert(texts_of(t.children, 0) =~= written_path(t));
}

proof fn lemma_primary<T>(w: World<T>, t: Tree, f: FileId, id: u32, env: Names<T>, typed: bool)
    requires
        fits(w),
    ensures
        kept(w, low_primary(t, f, id), read_primary(w, t, env, typed), env, typed),
    decreases t, 0nat,
{
    if t.children@.len() > 0 {
        let inner = t.children@[0];
        match inner.rule {
            Rule::Literal => lemma_literal(w, inner, f, id, env, typed),
            Rule::Path => lemma_path(inner),
            Rule::Expr => lemma_meaning_is_kept(w, inner, f, id, env, typed),
            Rule::IfExpr => lemma_if(w, inner, f, id, env, typed),
            Rule::Block => lemma_block(w, inner, f, id, env, typed),
            Rule::CallExpr => lemma_call(w, inner, f, id, env, typed),
            Rule::StructLit => lemma_struct(w, inner, f, id, env, typed),
            Rule::TupleLit => lemma_tuple(w, inner, f, id, env, typed),
            Rule::ArrayLit => lemma_array(w, inner, f, id, env, typed),
            _ => {},
        }
    }
}

proof fn lemma_tuple<T>(w: World<T>, t: Tree, f: FileId, id: u32, env: Names<T>, typed: bool)
    requires
        fits(w),
    ensures
        kept(
            w,
            low_tuple_lit(t, f, id),
            match read_exprs(w, t.children, t.children@.len(), env, typed) {
                Some(vs) => Some((w.tuple)(vs)),
                None => None,
            },
            env,
            typed,
        ),
    decreases t, 0nat,
{
    lemma_exprs(w, t.children, t.children@.len(), f, id, env, typed);
    if let Some(items) = low_exprs(t.children, 0, t.children@.len(), f, id) {
        lemma_numbered(w, items.value, items.value.len(), env);
        if let Some(vs) = read_exprs(w, t.children, t.children@.len(), env, typed) {
            lemma_front(w, items.value, items.value, items.value.len(), env);
            assert(placed(vs).take(vs.len() as int) =~= placed(vs));
            assert((w.build)(seq!["__Tuple"@ + decimal(vs.len())], placed(vs)) == (w.tuple)(vs));
        }
    }
}

proof fn lemma_numbered<T>(w: World<T>, items: Seq<ExprV>, n: nat, env: Names<T>)
    requires
        n <= items.len(),
    ensures
        mean_exprs(w, items, n, env) matches Some(vs) ==> vs.len() == n && mean_inits(
            w,
            numbered(items),
            n,
            env,
        ) == Some(placed(vs)),
    decreases n,
{
    if n == 0 {
        assert(placed(Seq::<T>::empty()) =~= Seq::<(Seq<char>, T)>::empty());
    } else {
        lemma_numbered(w, items, (n - 1) as nat, env);
        if let Some(vs) = mean_exprs(w, items, n, env) {
            assert(vs.len() > 0);
            let before = mean_exprs(w, items, (n - 1) as nat, env)->0;
            let v = mean_expr(w, items[n - 1], env)->0;
            assert(vs == before.push(v));
            assert(placed(before).push((decimal((n - 1) as nat), v)) =~= placed(vs));
        }
    }
}

proof fn lemma_struct_means<T>(
    w: World<T>,
    path: Seq<Seq<char>>,
    inits: Seq<(Seq<char>, ExprV)>,
    env: Names<T>,
)
    ensures
        mean_inits(w, inits, inits.len(), env) matches Some(vs) ==> mean_kind(
            w,
            ExprKindV::StructLit(path, Seq::empty(), inits),
            env,
        ) == Some((w.build)(path, vs)),
{
}

proof fn lemma_struct<T>(w: World<T>, t: Tree, f: FileId, id: u32, env: Names<T>, typed: bool)
    requires
        fits(w),
    ensures
        kept(w, low_struct_lit(t, f, id), read_struct(w, t, env, typed), env, typed),
    decreases t, 0nat,
{
    if !(t.children@.len() == 0 || is_at(t.children, 1, Rule::Turbofish)) {
        lemma_path(t.children@[0]);
        let generics = low_turbofish(t.children, 1, f, id);
        assert(generics == Some(LowV { value: Seq::<GenericArgV>::empty(), next: id }));
        let path = written_path(t.children@[0]);
        if t.children@.len() > 1 {
            let list = t.children@[1].children;
            lemma_inits(w, list, list@.len(), f, id, env, typed);
            if let Some(inits) = low_inits(list, list@.len(), f, id) {
                let kind = ExprKindV::StructLit(path, Seq::empty(), inits.value);
                assert(low_struct_lit(t, f, id) == Some(
                    expr_node(kind, span_of(t, f), inits.next),
                ));
                lemma_struct_means(w, path, inits.value, env);
            }
        } else {
            lemma_struct_means(w, path, Seq::empty(), env);
        }
    }
}

proof fn lemma_inits<T>(
    w: World<T>,
    children: Vec<Tree>,
    n: nat,
    f: FileId,
    id: u32,
    env: Names<T>,
    typed: bool,
)
    requires
        fits(w),
    ensures
        ({
            let low = low_inits(children, n, f, id);
            let want = read_inits(w, children, n, env, typed);
            want is Some && (typed ==> low is Some) ==> low is Some && mean_inits(
                w,
                low->0.value,
                low->0.value.len(),
                env,
            ) == want
        }),
    decreases children, n,
{
    if !(n == 0 || n > children@.len()) {
        lemma_inits(w, children, (n - 1) as nat, f, id, env, typed);
        let init = children@[n - 1];
        if let Some(before) = low_inits(children, (n - 1) as nat, f, id) {
            if init.children@.len() >= 2 {
                lemma_init(w, init, f, before.next, env, typed);
                if let Some(e) = low_expr(init.children@[1], f, before.next) {
                    let one = (init.children@[0].text@, e.value);
                    let all = before.value.push(one);
                    let k = before.value.len();
                    lemma_inits_front(w, before.value, all, k, env);
                    assert(all[k as int] == one);
                    assert(all.len() == k + 1);
                    assert(mean_inits(w, all, k + 1, env) == (match (
                        mean_inits(w, all, k, env),
                        mean_expr(w, all[k as int].1, env),
                    ) {
                        (Some(vs), Some(v)) => Some(vs.push((all[k as int].0, v))),
                        _ => None,
                    }));
                    assert(low_inits(children, n, f, id) == Some(LowV { value: all, next: e.next }));
                }
            }
        }
    }
}

proof fn lemma_init<T>(w: World<T>, t: Tree, f: FileId, id: u32, env: Names<T>, typed: bool)
    requires
        fits(w),
        t.children@.len() >= 2,
    ensures
        kept(w, low_expr(t.children@[1], f, id), read_init(w, t, env, typed), env, typed),
    decreases t, 0nat,
{
    lemma_meaning_is_kept(w, t.children@[1], f, id, env, typed);
}

pub proof fn lemma_many<T>(
    w: World<T>,
    t: Tree,
    n: nat,
    f: FileId,
    id: u32,
    env: Names<T>,
    typed: bool,
)
    requires
        fits(w),
    ensures
        kept_all(
            w,
            low_copies(t, n, f, id),
            match read_expr(w, t, env, typed) {
                Some(v) => Some(Seq::new(n, |i: int| v)),
                None => None,
            },
            env,
            typed,
        ),
    decreases t, n + 1,
{
    if let Some(v) = read_expr(w, t, env, typed) {
        if n == 0 {
            assert(Seq::new(n, |i: int| v) =~= Seq::empty());
        } else {
            lemma_many(w, t, (n - 1) as nat, f, id, env, typed);
            if let Some(before) = low_copies(t, (n - 1) as nat, f, id) {
                lemma_meaning_is_kept(w, t, f, before.next, env, typed);
                if let Some(e) = low_expr(t, f, before.next) {
                    lemma_push(w, before.value, e.value, env);
                    assert(Seq::new((n - 1) as nat, |i: int| v).push(v) =~= Seq::new(
                        n,
                        |i: int| v,
                    ));
                }
            }
        }
    }
}

// ---- blocks ----

pub proof fn lemma_block<T>(w: World<T>, t: Tree, f: FileId, id: u32, env: Names<T>, typed: bool)
    requires
        fits(w),
    ensures
        kept_block(w, low_block(t, f, id), read_block(w, t, env, typed), env, typed),
    decreases t, 0nat,
{
    let n = t.children@.len();
    if n > 0 && t.children@[n - 1].rule == Rule::Expr {
        lemma_lets(w, t.children, (n - 1) as nat, f, id, env, typed);
        if let Some(inner) = read_lets(w, t.children, (n - 1) as nat, env, typed) {
            if let Some(before) = low_block_parts(t.children, (n - 1) as nat, f, id) {
                lemma_meaning_is_kept(w, t.children@[n - 1], f, before.next, inner, typed);
            }
        }
    } else {
        lemma_lets(w, t.children, n, f, id, env, typed);
    }
}

pub proof fn lemma_stmts_front<T>(
    w: World<T>,
    a: Seq<StmtV>,
    b: Seq<StmtV>,
    n: nat,
    env: Names<T>,
)
    requires
        n <= a.len(),
        n <= b.len(),
        forall|i: int| 0 <= i < n ==> a[i] == b[i],
    ensures
        mean_stmts(w, a, n, env) == mean_stmts(w, b, n, env),
    decreases n,
{
    if n > 0 {
        lemma_stmts_front(w, a, b, (n - 1) as nat, env);
    }
}

pub proof fn lemma_let<T>(w: World<T>, t: Tree, f: FileId, id: u32, env: Names<T>, typed: bool)
    requires
        fits(w),
    ensures
        ({
            let low = low_stmt(t, f, id);
            let want = read_let(w, t, env, typed);
            want is Some && (typed ==> low is Some) ==> low is Some && mean_stmt(
                w,
                low->0.value,
                env,
            ) == want
        }),
    decreases t, 0nat,
{
    if read_let(w, t, env, typed) is Some {
        let inner = t.children@[0];
        let parts = inner.children;
        let i: int = if is_at(parts, 0, Rule::MutKw) {
            1
        } else {
            0
        };
        let k: int = if typed && is_at(parts, i + 1, Rule::Type) {
            i + 2
        } else {
            i + 1
        };
        let b0 = BindingV { mutable: false, name: None, ty: None, value: None };
        let b1 = BindingV { mutable: i == 1, ..b0 };
        assert(low_binding(parts, 0, true, f, id) == Some(LowV { value: b0, next: id }));
        assert(low_binding(parts, i as nat, true, f, id) == Some(LowV { value: b1, next: id })) by {
            if i == 1 {
                lemma_binding_step(parts, 1, f, id);
            }
        }
        lemma_binding_step(parts, (i + 1) as nat, f, id);
        let name = parts@[i].text@;
        let b2 = BindingV { name: Some(name), ..b1 };
        assert(low_binding(parts, (i + 1) as nat, true, f, id) == Some(
            LowV { value: b2, next: id },
        ));
        if k == i + 2 {
            lemma_binding_step(parts, (i + 2) as nat, f, id);
        }
        lemma_binding_step(parts, (k + 1) as nat, f, id);
        let before = low_binding(parts, k as nat, true, f, id);
        if let Some(b) = before {
            assert(b.value.name == Some(name));
            lemma_meaning_is_kept(w, parts@[k], f, b.next, env, typed);
            let low = low_binding(parts, (k + 1) as nat, true, f, id);
            if let Some(r) = low {
                assert(low_let(inner, f, id) == Some(
                    LowV {
                        value: StmtKindV::Let {
                            mutable: r.value.mutable,
                            name,
                            ty: r.value.ty,
                            value: r.value.value->0,
                        },
                        next: r.next,
                    },
                ));
            }
        }
    }
}

/// One more part of a binding.
proof fn lemma_binding_step(parts: Vec<Tree>, n: nat, f: FileId, id: u32)
    requires
        0 < n <= parts@.len(),
    ensures
        low_binding(parts, n, true, f, id) == (match low_binding(
            parts,
            (n - 1) as nat,
            true,
            f,
            id,
        ) {
            None => None,
            Some(before) => {
                let p = parts@[n - 1];
                match p.rule {
                    Rule::MutKw => Some(
                        LowV {
                            value: BindingV { mutable: true, ..before.value },
                            next: before.next,
                        },
                    ),
                    Rule::Ident => if before.value.name is None {
                        Some(
                            LowV {
                                value: BindingV { name: Some(p.text@), ..before.value },
                                next: before.next,
                            },
                        )
                    } else {
                        Some(before)
                    },
                    Rule::Type => match low_type(p, f, before.next) {
                        None => None,
                        Some(ty) => Some(
                            LowV {
                                value: BindingV { ty: Some(ty.value), ..before.value },
                                next: ty.next,
                            },
                        ),
                    },
                    Rule::Expr => match low_expr(p, f, before.next) {
                        None => None,
                        Some(e) => Some(
                            LowV {
                                value: BindingV { value: Some(e.value), ..before.value },
                                next: e.next,
                            },
                        ),
                    },
                    _ => Some(before),
                }
            },
        }),
{
}

// ---- loops ----

/// A loop over a range goes from what is written first to what is written second, and a loop
/// with a condition goes on while what is written as the condition holds.
pub proof fn lemma_loop_heads<T>(
    w: World<T>,
    t: Tree,
    f: FileId,
    id: u32,
    env: Names<T>,
    typed: bool,
)
    requires
        fits(w),
    ensures
        low_for(t, f, id) matches Some(r) ==> match r.value.kind {
            ExprKindV::For { var, start, end, .. } => {
                &&& t.children@[2].rule == Rule::Additive
                &&& var == t.children@[0].text@
                &&& read_level(w, t.children@[1], 3, env, typed) is Some ==> mean_expr(
                    w,
                    *start,
                    env,
                ) == read_level(w, t.children@[1], 3, env, typed)
                &&& read_level(w, t.children@[2], 3, env, typed) is Some ==> mean_expr(
                    w,
                    *end,
                    env,
                ) == read_level(w, t.children@[2], 3, env, typed)
            },
            ExprKindV::ForIn { var, iter, .. } => {
                &&& t.children@[2].rule != Rule::Additive
                &&& var == t.children@[0].text@
                &&& read_level(w, t.children@[1], 3, env, typed) is Some ==> mean_expr(
                    w,
                    *iter,
                    env,
                ) == read_level(w, t.children@[1], 3, env, typed)
            },
            _ => false,
        },
        low_while(t, f, id) matches Some(r) ==> (r.value.kind matches ExprKindV::While { cond, .. }
            && (read_expr(w, t.children@[0], env, typed) is Some ==> mean_expr(w, *cond, env)
            == read_expr(w, t.children@[0], env, typed))),
{
    if t.children@.len() >= 3 {
        lemma_level(w, t.children@[1], 3, f, id, env, typed);
        if let Some(first) = low_binary(t.children@[1], 3, f, id) {
            lemma_level(w, t.children@[2], 3, f, first.next, env, typed);
        }
    }
    if t.children@.len() >= 2 {
        lemma_meaning_is_kept(w, t.children@[0], f, id, env, typed);
    }
}

} // verus!
