//! Parse trees into expressions, types and blocks.

use vstd::prelude::*;

use crate::ast::{
    tuple_struct_name, Block, ElseBranch, Expr, ExprKind, FileId, GenericArg, NodeId, NodeIdGen,
    Param, Path, Span, Stmt, StmtKind, Type, TypeKind,
};
use crate::ast_views::{
    group_ast, lemma_expr_path, opt_boxed, opt_else, opt_expr, opt_type, BlockV, GenericArgV,
};
use crate::infer_types::path_text;
use crate::lang::{opt_text, text_before_char};
use crate::lower_specs::{
    call_of, copies, expr_node, low_args, low_args_at, low_array_lit, low_array_type, low_assign,
    low_binary, low_binding, low_block, low_block_parts, low_bool, low_bytes, low_call,
    low_call_args, low_copies, low_count, low_dim, low_dims, low_else, low_expr, low_exprs,
    low_fn_type, low_fold, low_for, low_generic_arg, low_generic_args, low_if, low_imaginary,
    low_inits, low_lambda, low_let, low_literal, low_loop, low_numeric, low_op, low_operand,
    low_ops, low_param, low_params, low_params_at, low_postfix, low_primary, low_stmt, low_string,
    low_struct_lit, low_target, low_tuple_lit, low_tuple_type, low_turbofish, low_type,
    low_type_at, low_types, low_unary, low_while, nested_type, numbered, op_name, span_from,
    span_of, stmt_node, suffix_of, type_args, type_node, unquoted, ArgsV, BindingV, LowV,
    ADDITIVE_LEVEL, LAST_LEVEL,
};
use crate::table::{group_views, views};
use crate::text;
use crate::text::decimal;
use crate::tree::{child_texts, stands_at, Rule, Tree};

verus! {

broadcast use {group_views, group_ast};

/// Makes the syntax tree of a file, with a number for each node.
pub struct Lowerer {
    pub file: FileId,
    pub ids: NodeIdGen,
}

/// Whether a part was made as it is to be.
pub open spec fn made<T: View>(r: Option<T>, low: Lowerer, want: Option<LowV<T::V>>) -> bool {
    match r {
        Some(x) => want matches Some(w) && w.value == x@ && w.next == low.ids.upcoming,
        None => want is None,
    }
}

/// Whether parts were made as they are to be.
pub open spec fn made_all<T: View>(
    r: Option<Vec<T>>,
    low: Lowerer,
    want: Option<LowV<Seq<T::V>>>,
) -> bool {
    match r {
        Some(x) => want matches Some(w) && w.value == views(x@) && w.next == low.ids.upcoming,
        None => want is None,
    }
}

/// Arguments by position, and attributes by name.
pub struct Args {
    pub args: Vec<Expr>,
    pub attrs: Vec<(String, String)>,
}

impl View for Args {
    type V = ArgsV;

    open spec fn view(&self) -> ArgsV {
        ArgsV { args: views(self.args@), attrs: views(self.attrs@) }
    }
}

/// The parts of a binding that have been seen.
pub struct Binding {
    pub mutable: bool,
    pub name: Option<String>,
    pub ty: Option<Type>,
    pub value: Option<Expr>,
}

impl View for Binding {
    type V = BindingV;

    open spec fn view(&self) -> BindingV {
        BindingV {
            mutable: self.mutable,
            name: opt_text(self.name),
            ty: opt_type(self.ty),
            value: opt_expr(self.value),
        }
    }
}

/// The function that an operator stands for.
fn find_op_name(level: u8, op: &str) -> (r: Option<String>)
    ensures
        opt_text(r) == op_name(level as nat, op@),
{
    if level == 0 {
        if text::same(op, "implies") {
            Some("implies".to_owned())
        } else {
            None
        }
    } else if level == 1 {
        if text::same(op, "and") || text::same(op, "or") || text::same(op, "xor") {
            Some(op.to_owned())
        } else {
            None
        }
    } else if level == 2 {
        if text::same(op, "<=") {
            Some("le".to_owned())
        } else if text::same(op, ">=") {
            Some("ge".to_owned())
        } else if text::same(op, "==") {
            Some("eq".to_owned())
        } else if text::same(op, "!=") {
            Some("neq".to_owned())
        } else if text::same(op, "<") {
            Some("lt".to_owned())
        } else if text::same(op, ">") {
            Some("gt".to_owned())
        } else {
            None
        }
    } else if level == 3 {
        if text::same(op, "+") {
            Some("add".to_owned())
        } else if text::same(op, "-") {
            Some("sub".to_owned())
        } else {
            None
        }
    } else {
        if text::same(op, "*") {
            Some("mul".to_owned())
        } else if text::same(op, "/") {
            Some("div".to_owned())
        } else {
            None
        }
    }
}

/// The number and the type that may follow it after a colon.
pub fn split_type_suffix(s: &str) -> (r: (String, Option<String>))
    ensures
        r.0@ == text::before_char(s@, ':'),
        opt_text(r.1) == suffix_of(s@),
{
    let chars: Vec<char> = text::chars_of(s);
    let i: usize = text::find_char(&chars, ':', 0);
    let number: String = s.substring_char(0, i).to_owned();
    if i < chars.len() {
        let suffix: String = s.substring_char(i + 1, chars.len()).to_owned();
        (number, Some(suffix))
    } else {
        (number, None)
    }
}

/// The number of copies that a literal asks for.
fn count_copies(s: &str) -> (r: Option<usize>)
    ensures
        r == copies(s@),
{
    let number: String = text_before_char(s, ':');
    match text::parse_u64(number.as_str()) {
        Some(n) => if n <= usize::MAX as u64 {
            Some(n as usize)
        } else {
            None
        },
        None => None,
    }
}

/// A text without its first and its last character.
fn strip_quotes(s: &String) -> (r: Option<String>)
    ensures
        match r {
            Some(t) => s@.len() >= 2 && t@ == unquoted(s@),
            None => s@.len() < 2,
        },
{
    let n: usize = s.as_str().unicode_len();
    if n < 2 {
        return None;
    }
    Some(s.as_str().substring_char(1, n - 1).to_owned())
}

/// A path of one name.
fn path_of(name: String) -> (r: Path)
    ensures
        views(r.segments@) == seq![name@],
{
    let p: Path = Path::single(name);
    assert(views(p.segments@) =~= seq![name@]);
    p
}

/// A call of a named function without generics and attributes.
fn call_kind(name: String, args: Vec<Expr>) -> (r: ExprKind)
    ensures
        r@ == call_of(name@, views(args@)),
{
    ExprKind::Call(path_of(name), Vec::new(), args, Vec::new())
}

impl Lowerer {
    /// Numbers start at zero.
    pub fn new(file: FileId) -> (r: Self)
        ensures
            r.file == file,
            r.ids.upcoming == 0,
    {
        Lowerer { file, ids: NodeIdGen::default() }
    }

    /// Numbers go on from where they were left.
    pub fn with_ids(file: FileId, ids: NodeIdGen) -> (r: Self)
        ensures
            r.file == file,
            r.ids == ids,
    {
        Lowerer { file, ids }
    }

    /// Where the numbers are left.
    pub fn into_ids(self) -> (r: NodeIdGen)
        ensures
            r == self.ids,
    {
        self.ids
    }

    /// The range of the source that a tree covers.
    pub fn span_of(&self, t: &Tree) -> (r: Span)
        ensures
            r == span_of(*t, self.file),
    {
        Span { file: self.file, start: t.start, end: t.end }
    }

    /// The range from the start of one to the end of another.
    pub fn join(&self, a: Span, b: Span) -> (r: Span)
        ensures
            r == span_from(self.file, a, b),
    {
        Span { file: self.file, start: a.start, end: b.end }
    }

    /// An expression node with the next number.
    pub fn wrap_expr(&mut self, span: Span, kind: ExprKind) -> (r: Expr)
        ensures
            ({
                let n = expr_node(kind@, span, old(self).ids.upcoming);
                r@ == n.value && final(self).ids.upcoming == n.next
            }),
            final(self).file == old(self).file,
    {
        let id: NodeId = self.ids.next();
        Expr { id, span, kind }
    }

    /// A type node with the next number.
    pub fn wrap_type(&mut self, span: Span, kind: TypeKind) -> (r: Type)
        ensures
            ({
                let n = type_node(kind@, span, old(self).ids.upcoming);
                r@ == n.value && final(self).ids.upcoming == n.next
            }),
            final(self).file == old(self).file,
    {
        let id: NodeId = self.ids.next();
        Type { id, span, kind }
    }

    /// A statement node with the next number.
    pub fn wrap_stmt(&mut self, span: Span, kind: StmtKind) -> (r: Stmt)
        ensures
            ({
                let n = stmt_node(kind@, span, old(self).ids.upcoming);
                r@ == n.value && final(self).ids.upcoming == n.next
            }),
            final(self).file == old(self).file,
    {
        let id: NodeId = self.ids.next();
        Stmt { id, span, kind }
    }

    /// The path that a tree spells.
    pub fn lower_path(&self, t: &Tree) -> (r: Path)
        ensures
            views(r.segments@) == crate::tree::texts_of(t.children, 0),
    {
        Path { segments: child_texts(&t.children, 0) }
    }

    /// An expression.
    pub fn lower_expr(&mut self, t: &Tree) -> (r: Option<Expr>)
        ensures
            made(r, *final(self), low_expr(*t, old(self).file, old(self).ids.upcoming)),
            final(self).file == old(self).file,
        decreases t, 0nat,
    {
        if t.rule != Rule::Expr || t.children.len() == 0 {
            return None;
        }
        self.lower_binary(&t.children[0], 0)
    }

    /// Operands and the operators between them.
    pub fn lower_binary(&mut self, t: &Tree, level: u8) -> (r: Option<Expr>)
        ensures
            made(
                r,
                *final(self),
                low_binary(*t, level as nat, old(self).file, old(self).ids.upcoming),
            ),
            final(self).file == old(self).file,
        decreases t, 0nat,
    {
        let len: usize = t.children.len();
        if len % 2 == 0 {
            return None;
        }
        self.fold_binary(&t.children, level)
    }

    fn lower_operand(&mut self, t: &Tree, level: u8) -> (r: Option<Expr>)
        ensures
            made(
                r,
                *final(self),
                low_operand(*t, level as nat, old(self).file, old(self).ids.upcoming),
            ),
            final(self).file == old(self).file,
        decreases t, 1nat,
    {
        if level >= LAST_LEVEL {
            self.lower_unary(t)
        } else {
            self.lower_binary(t, level + 1)
        }
    }

    /// Groups operands from the left.
    fn fold_binary(&mut self, children: &Vec<Tree>, level: u8) -> (r: Option<Expr>)
        requires
            children@.len() % 2 == 1,
        ensures
            made(
                r,
                *final(self),
                low_fold(
                    *children,
                    level as nat,
                    ((children@.len() + 1) / 2) as nat,
                    old(self).file,
                    old(self).ids.upcoming,
                ),
            ),
            final(self).file == old(self).file,
        decreases children, 0nat,
    {
        let ghost f = self.file;
        let ghost id = self.ids.upcoming;
        let mut acc: Option<Expr> = self.lower_operand(&children[0], level);
        let mut i: usize = 1;
        while i < children.len()
            invariant
                1 <= i <= children@.len(),
                i % 2 == 1,
                children@.len() % 2 == 1,
                self.file == f,
                made(
                    acc,
                    *self,
                    low_fold(*children, level as nat, ((i + 1) / 2) as nat, f, id),
                ),
            decreases children.len() - i,
        {
            let mut next: Option<Expr> = None;
            let ghost n: nat = ((i + 1) / 2) as nat;
            assert(2 * (n + 1) - 2 == i + 1);
            if let Some(lhs) = acc {
                if let Some(rhs) = self.lower_operand(&children[i + 1], level) {
                    if let Some(name) = find_op_name(level, children[i].text.as_str()) {
                        let span: Span = self.join(lhs.span, rhs.span);
                        proof {
                            lemma_expr_path(lhs);
                            lemma_expr_path(rhs);
                        }
                        let mut args: Vec<Expr> = Vec::new();
                        args.push(lhs);
                        args.push(rhs);
                        assert(views(args@) =~= seq![lhs@, rhs@]);
                        next = Some(self.wrap_expr(span, call_kind(name, args)));
                    }
                }
            }
            acc = next;
            i = i + 2;
        }
        acc
    }

    /// An operator before an operand, or an operand with what follows it.
    pub fn lower_unary(&mut self, t: &Tree) -> (r: Option<Expr>)
        ensures
            made(r, *final(self), low_unary(*t, old(self).file, old(self).ids.upcoming)),
            final(self).file == old(self).file,
        decreases t, 0nat,
    {
        if stands_at(&t.children, 0, Rule::UnaryOp) {
            let op = t.children[0].text.as_str();
            let minus: bool = text::same(op, "-");
            if t.children.len() < 2 || (!minus && !text::same(op, "not")) {
                return None;
            }
            match self.lower_unary(&t.children[1]) {
                None => None,
                Some(operand) => {
                    let name: String = if minus { "neg".to_owned() } else { "not".to_owned() };
                    let mut args: Vec<Expr> = Vec::new();
                    args.push(operand);
                    assert(views(args@) =~= seq![operand@]);
                    let span: Span = self.span_of(t);
                    Some(self.wrap_expr(span, call_kind(name, args)))
                },
            }
        } else if stands_at(&t.children, 0, Rule::Postfix) {
            self.lower_postfix(&t.children[0])
        } else {
            None
        }
    }

    /// An operand with the accesses and calls that follow it.
    pub fn lower_postfix(&mut self, t: &Tree) -> (r: Option<Expr>)
        ensures
            made(r, *final(self), low_postfix(*t, old(self).file, old(self).ids.upcoming)),
            final(self).file == old(self).file,
        decreases t, 0nat,
    {
        if t.children.len() == 0 {
            return None;
        }
        match self.lower_primary(&t.children[0]) {
            None => None,
            Some(base) => self.fold_ops(base, &t.children),
        }
    }

    fn fold_ops(&mut self, base: Expr, children: &Vec<Tree>) -> (r: Option<Expr>)
        requires
            children@.len() > 0,
        ensures
            made(
                r,
                *final(self),
                low_ops(
                    *children,
                    children@.len(),
                    old(self).file,
                    LowV { value: base@, next: old(self).ids.upcoming },
                ),
            ),
            final(self).file == old(self).file,
        decreases children, 0nat,
    {
        let ghost f = self.file;
        let ghost start = LowV { value: base@, next: self.ids.upcoming };
        let mut acc: Option<Expr> = Some(base);
        let mut i: usize = 1;
        while i < children.len()
            invariant
                1 <= i <= children@.len(),
                self.file == f,
                made(acc, *self, low_ops(*children, i as nat, f, start)),
            decreases children.len() - i,
        {
            let mut next: Option<Expr> = None;
            if let Some(e) = acc {
                next = self.lower_postfix_op(e, &children[i]);
            }
            acc = next;
            i = i + 1;
        }
        acc
    }

    /// A base with one access or call.
    #[verifier::rlimit(40)]
    pub fn lower_postfix_op(&mut self, base: Expr, t: &Tree) -> (r: Option<Expr>)
        ensures
            made(r, *final(self), low_op(base@, *t, old(self).file, old(self).ids.upcoming)),
            final(self).file == old(self).file,
        decreases t, 0nat,
    {
        proof {
            lemma_expr_path(base);
        }
        let op_span: Span = self.span_of(t);
        let span: Span = self.join(base.span, op_span);
        if stands_at(&t.children, 0, Rule::Ident) || stands_at(&t.children, 0, Rule::TupleIndex) {
            let name: String = t.children[0].text.clone();
            if t.children.len() > 1 {
                match self.lower_call_args(&t.children[1]) {
                    None => None,
                    Some(a) => if text::same(name.as_str(), "to") && a.args.len() == 0 {
                        let mut args: Vec<Expr> = Vec::new();
                        args.push(base);
                        assert(views(args@) =~= seq![base@]);
                        Some(self.wrap_expr(span, call_kind("convert".to_owned(), args)))
                    } else {
                        Some(
                            self.wrap_expr(
                                span,
                                ExprKind::MethodCall(Box::new(base), name, a.args),
                            ),
                        )
                    },
                }
            } else {
                Some(self.wrap_expr(span, ExprKind::FieldAccess(Box::new(base), name)))
            }
        } else if stands_at(&t.children, 0, Rule::Expr) {
            match self.lower_exprs(&t.children, 0) {
                None => None,
                Some(indices) => Some(
                    self.wrap_expr(span, ExprKind::Index(Box::new(base), indices)),
                ),
            }
        } else if stands_at(&t.children, 0, Rule::CallArgs) {
            match self.lower_call_args(&t.children[0]) {
                None => None,
                Some(a) => {
                    let base_span: Span = base.span;
                    let number: u32 = base.id.0;
                    let digits: String = text::decimal_text(number as u64);
                    let name: String = text::glued3("<iife#", digits.as_str(), ">");
                    let bind: Stmt = self.wrap_stmt(
                        base_span,
                        StmtKind::Let {
                            mutable: false,
                            name: name.clone(),
                            ty: None,
                            value: base,
                        },
                    );
                    let call: Expr = self.wrap_expr(
                        span,
                        ExprKind::Call(path_of(name), Vec::new(), a.args, a.attrs),
                    );
                    let mut stmts: Vec<Stmt> = Vec::new();
                    stmts.push(bind);
                    assert(views(stmts@) =~= seq![bind@]);
                    Some(
                        self.wrap_expr(
                            span,
                            ExprKind::Block(Block { stmts, tail: Some(Box::new(call)) }),
                        ),
                    )
                },
            }
        } else {
            None
        }
    }

    /// The expressions from a place on.
    pub fn lower_exprs(&mut self, children: &Vec<Tree>, from: usize) -> (r: Option<Vec<Expr>>)
        requires
            from <= children@.len(),
        ensures
            made_all(
                r,
                *final(self),
                low_exprs(
                    *children,
                    from as nat,
                    children@.len(),
                    old(self).file,
                    old(self).ids.upcoming,
                ),
            ),
            final(self).file == old(self).file,
        decreases children, 0nat,
    {
        let ghost f = self.file;
        let ghost id = self.ids.upcoming;
        let mut out: Vec<Expr> = Vec::new();
        let mut fine: bool = true;
        let mut i: usize = from;
        while i < children.len()
            invariant
                from <= i <= children@.len(),
                self.file == f,
                match low_exprs(*children, from as nat, i as nat, f, id) {
                    Some(w) => fine && w.value == views(out@) && w.next == self.ids.upcoming,
                    None => !fine,
                },
            decreases children.len() - i,
        {
            if fine {
                match self.lower_expr(&children[i]) {
                    Some(e) => {
                        out.push(e);
                    },
                    None => {
                        fine = false;
                    },
                }
            }
            i = i + 1;
        }
        if fine {
            Some(out)
        } else {
            None
        }
    }

    /// Positional arguments and attributes, which may be mixed.
    pub fn lower_arg_list(&mut self, children: &Vec<Tree>) -> (r: Option<Args>)
        ensures
            made(
                r,
                *final(self),
                low_args(
                    *children,
                    children@.len(),
                    old(self).file,
                    old(self).ids.upcoming,
                ),
            ),
            final(self).file == old(self).file,
        decreases children, 0nat,
    {
        let ghost f = self.file;
        let ghost id = self.ids.upcoming;
        let mut args: Vec<Expr> = Vec::new();
        let mut attrs: Vec<(String, String)> = Vec::new();
        let mut fine: bool = true;
        let mut i: usize = 0;
        while i < children.len()
            invariant
                i <= children@.len(),
                self.file == f,
                match low_args(*children, i as nat, f, id) {
                    Some(w) => fine && w.value == (ArgsV {
                        args: views(args@),
                        attrs: views(attrs@),
                    }) && w.next == self.ids.upcoming,
                    None => !fine,
                },
            decreases children.len() - i,
        {
            if fine {
                let arg = &children[i];
                if arg.children.len() == 0 {
                    fine = false;
                } else if arg.children[0].rule == Rule::MlirAttr {
                    let parts = &arg.children[0].children;
                    if parts.len() < 2 {
                        fine = false;
                    } else {
                        match strip_quotes(&parts[1].text) {
                            None => {
                                fine = false;
                            },
                            Some(value) => {
                                attrs.push((parts[0].text.clone(), value));
                            },
                        }
                    }
                } else {
                    match self.lower_expr(&arg.children[0]) {
                        Some(e) => {
                            args.push(e);
                        },
                        None => {
                            fine = false;
                        },
                    }
                }
            }
            i = i + 1;
        }
        if fine {
            Some(Args { args, attrs })
        } else {
            None
        }
    }

    fn no_args(&self) -> (r: Option<Args>)
        ensures
            made(
                r,
                *self,
                Some(
                    LowV {
                        value: ArgsV { args: Seq::empty(), attrs: Seq::empty() },
                        next: self.ids.upcoming,
                    },
                ),
            ),
    {
        Some(Args { args: Vec::new(), attrs: Vec::new() })
    }

    fn lower_call_args(&mut self, t: &Tree) -> (r: Option<Args>)
        ensures
            made(r, *final(self), low_call_args(*t, old(self).file, old(self).ids.upcoming)),
            final(self).file == old(self).file,
        decreases t, 0nat,
    {
        if t.children.len() == 0 {
            return self.no_args();
        }
        self.lower_arg_list(&t.children[0].children)
    }

    /// An operand.
    #[verifier::rlimit(40)]
    pub fn lower_primary(&mut self, t: &Tree) -> (r: Option<Expr>)
        ensures
            made(r, *final(self), low_primary(*t, old(self).file, old(self).ids.upcoming)),
            final(self).file == old(self).file,
        decreases t, 0nat,
    {
        if t.children.len() == 0 {
            return None;
        }
        let span: Span = self.span_of(t);
        let inner = &t.children[0];
        match inner.rule {
            Rule::IfExpr => self.lower_if_expr(inner),
            Rule::WhileExpr => self.lower_while_expr(inner),
            Rule::ForExpr => self.lower_for_expr(inner),
            Rule::LoopExpr => self.lower_loop_expr(inner),
            Rule::ArrayLit => self.lower_array_lit(inner),
            Rule::LambdaExpr => self.lower_lambda_expr(inner),
            Rule::StructLit => self.lower_struct_lit(inner),
            Rule::TupleLit => self.lower_tuple_lit(inner),
            Rule::CallExpr => self.lower_call_expr(inner),
            Rule::Literal => self.lower_literal(inner),
            Rule::Path => {
                let path: Path = self.lower_path(inner);
                Some(self.wrap_expr(span, ExprKind::Path(path)))
            },
            Rule::Expr => self.lower_expr(inner),
            Rule::Block => match self.lower_block(inner) {
                None => None,
                Some(b) => Some(self.wrap_expr(span, ExprKind::Block(b))),
            },
            _ => None,
        }
    }

    /// A function without a name.
    #[verifier::rlimit(40)]
    pub fn lower_lambda_expr(&mut self, t: &Tree) -> (r: Option<Expr>)
        ensures
            made(r, *final(self), low_lambda(*t, old(self).file, old(self).ids.upcoming)),
            final(self).file == old(self).file,
        decreases t, 0nat,
    {
        let span: Span = self.span_of(t);
        let params: Vec<Param> = match self.lower_params_at(&t.children, 0) {
            Some(params) => params,
            None => {
                return None;
            },
        };
        let i: usize = if stands_at(&t.children, 0, Rule::ParamList) { 1 } else { 0 };
        let mut ret: Option<Type> = None;
        if !self.lower_type_at(&t.children, i, &mut ret) {
            return None;
        }
        let k: usize = if stands_at(&t.children, i, Rule::Type) { i + 1 } else { i };
        if k >= t.children.len() {
            return None;
        }
        match self.lower_block(&t.children[k]) {
            None => None,
            Some(body) => Some(self.wrap_expr(span, ExprKind::Lambda { params, ret, body })),
        }
    }

    /// The parameters at a place, which may be none.
    pub fn lower_params_at(&mut self, children: &Vec<Tree>, i: usize) -> (r: Option<Vec<Param>>)
        ensures
            made_all(
                r,
                *final(self),
                low_params_at(*children, i as nat, old(self).file, old(self).ids.upcoming),
            ),
            final(self).file == old(self).file,
        decreases children, children@.len() + 1,
    {
        if stands_at(children, i, Rule::ParamList) {
            self.lower_param_list(&children[i].children)
        } else {
            Some(Vec::new())
        }
    }

    /// The type at a place, which may be none. Says whether there is no error.
    pub fn lower_type_at(&mut self, children: &Vec<Tree>, i: usize, out: &mut Option<Type>) -> (r:
        bool)
        ensures
            match low_type_at(*children, i as nat, old(self).file, old(self).ids.upcoming) {
                Some(w) => r && opt_type(*final(out)) == w.value && final(self).ids.upcoming
                    == w.next,
                None => !r,
            },
            final(self).file == old(self).file,
        decreases children, children@.len() + 1,
    {
        if stands_at(children, i, Rule::Type) {
            match self.lower_type(&children[i]) {
                None => false,
                Some(ty) => {
                    *out = Some(ty);
                    true
                },
            }
        } else {
            *out = None;
            true
        }
    }

    /// A call by name.
    #[verifier::rlimit(40)]
    pub fn lower_call_expr(&mut self, t: &Tree) -> (r: Option<Expr>)
        ensures
            made(r, *final(self), low_call(*t, old(self).file, old(self).ids.upcoming)),
            final(self).file == old(self).file,
        decreases t, 0nat,
    {
        if t.children.len() == 0 {
            return None;
        }
        let span: Span = self.span_of(t);
        let path: Path = self.lower_path(&t.children[0]);
        let generics: Vec<GenericArg> = match self.lower_optional_turbofish(&t.children, 1) {
            Some(generics) => generics,
            None => {
                return None;
            },
        };
        let i: usize = if stands_at(&t.children, 1, Rule::Turbofish) { 2 } else { 1 };
        let a: Args = match self.lower_args_at(&t.children, i) {
            Some(a) => a,
            None => {
                return None;
            },
        };
        Some(self.wrap_expr(span, ExprKind::Call(path, generics, a.args, a.attrs)))
    }

    fn lower_args_at(&mut self, children: &Vec<Tree>, i: usize) -> (r: Option<Args>)
        ensures
            made(
                r,
                *final(self),
                low_args_at(*children, i as nat, old(self).file, old(self).ids.upcoming),
            ),
            final(self).file == old(self).file,
        decreases children, children@.len() + 1,
    {
        if i >= children.len() {
            return self.no_args();
        }
        self.lower_arg_list(&children[i].children)
    }

    /// The explicit generics at a place, which may be none.
    pub fn lower_optional_turbofish(&mut self, children: &Vec<Tree>, i: usize) -> (r: Option<
        Vec<GenericArg>,
    >)
        ensures
            made_all(
                r,
                *final(self),
                low_turbofish(*children, i as nat, old(self).file, old(self).ids.upcoming),
            ),
            final(self).file == old(self).file,
        decreases children, children@.len() + 1,
    {
        if stands_at(children, i, Rule::Turbofish) {
            self.lower_generic_args(&children[i].children, 0)
        } else {
            Some(Vec::new())
        }
    }

    /// The generics from a place on.
    pub fn lower_generic_args(&mut self, children: &Vec<Tree>, from: usize) -> (r: Option<
        Vec<GenericArg>,
    >)
        requires
            from <= children@.len(),
        ensures
            made_all(
                r,
                *final(self),
                low_generic_args(
                    *children,
                    from as nat,
                    children@.len(),
                    old(self).file,
                    old(self).ids.upcoming,
                ),
            ),
            final(self).file == old(self).file,
        decreases children, 0nat,
    {
        let ghost f = self.file;
        let ghost id = self.ids.upcoming;
        let mut out: Vec<GenericArg> = Vec::new();
        let mut fine: bool = true;
        let mut i: usize = from;
        while i < children.len()
            invariant
                from <= i <= children@.len(),
                self.file == f,
                match low_generic_args(*children, from as nat, i as nat, f, id) {
                    Some(w) => fine && w.value == views(out@) && w.next == self.ids.upcoming,
                    None => !fine,
                },
            decreases children.len() - i,
        {
            if fine {
                match self.lower_generic_arg(&children[i]) {
                    Some(a) => {
                        out.push(a);
                    },
                    None => {
                        fine = false;
                    },
                }
            }
            i = i + 1;
        }
        if fine {
            Some(out)
        } else {
            None
        }
    }

    /// A generic: a type, or a literal.
    pub fn lower_generic_arg(&mut self, t: &Tree) -> (r: Option<GenericArg>)
        ensures
            made(r, *final(self), low_generic_arg(*t, old(self).file, old(self).ids.upcoming)),
            final(self).file == old(self).file,
        decreases t, 0nat,
    {
        if stands_at(&t.children, 0, Rule::Type) {
            match self.lower_type(&t.children[0]) {
                None => None,
                Some(ty) => Some(GenericArg::Type(ty)),
            }
        } else if stands_at(&t.children, 0, Rule::NumericLit) {
            Some(GenericArg::Const(self.lower_numeric_lit(&t.children[0])))
        } else if stands_at(&t.children, 0, Rule::BoolLit) {
            Some(GenericArg::Const(self.lower_bool_lit(&t.children[0])))
        } else {
            None
        }
    }

    /// The construction of a struct.
    #[verifier::rlimit(40)]
    pub fn lower_struct_lit(&mut self, t: &Tree) -> (r: Option<Expr>)
        ensures
            made(r, *final(self), low_struct_lit(*t, old(self).file, old(self).ids.upcoming)),
            final(self).file == old(self).file,
        decreases t, 0nat,
    {
        if t.children.len() == 0 {
            return None;
        }
        let span: Span = self.span_of(t);
        let path: Path = self.lower_path(&t.children[0]);
        let generics: Vec<GenericArg> = match self.lower_optional_turbofish(&t.children, 1) {
            Some(generics) => generics,
            None => {
                return None;
            },
        };
        let i: usize = if stands_at(&t.children, 1, Rule::Turbofish) { 2 } else { 1 };
        let fields: Vec<(String, Expr)> = if i < t.children.len() {
            match self.lower_field_init_list(&t.children[i].children) {
                Some(fields) => fields,
                None => {
                    return None;
                },
            }
        } else {
            Vec::new()
        };
        Some(self.wrap_expr(span, ExprKind::StructLit(path, generics, fields)))
    }

    /// The fields of the construction of a struct.
    pub fn lower_field_init_list(&mut self, children: &Vec<Tree>) -> (r: Option<
        Vec<(String, Expr)>,
    >)
        ensures
            made_all(
                r,
                *final(self),
                low_inits(
                    *children,
                    children@.len(),
                    old(self).file,
                    old(self).ids.upcoming,
                ),
            ),
            final(self).file == old(self).file,
        decreases children, 0nat,
    {
        let ghost f = self.file;
        let ghost id = self.ids.upcoming;
        let mut out: Vec<(String, Expr)> = Vec::new();
        let mut fine: bool = true;
        let mut i: usize = 0;
        while i < children.len()
            invariant
                i <= children@.len(),
                self.file == f,
                match low_inits(*children, i as nat, f, id) {
                    Some(w) => fine && w.value == views(out@) && w.next == self.ids.upcoming,
                    None => !fine,
                },
            decreases children.len() - i,
        {
            if fine {
                let init = &children[i];
                if init.children.len() < 2 {
                    fine = false;
                } else {
                    match self.lower_expr(&init.children[1]) {
                        Some(e) => {
                            out.push((init.children[0].text.clone(), e));
                        },
                        None => {
                            fine = false;
                        },
                    }
                }
            }
            i = i + 1;
        }
        if fine {
            Some(out)
        } else {
            None
        }
    }

    /// A tuple.
    pub fn lower_tuple_lit(&mut self, t: &Tree) -> (r: Option<Expr>)
        ensures
            made(r, *final(self), low_tuple_lit(*t, old(self).file, old(self).ids.upcoming)),
            final(self).file == old(self).file,
        decreases t, 0nat,
    {
        let span: Span = self.span_of(t);
        let mut items: Vec<Expr> = match self.lower_exprs(&t.children, 0) {
            Some(items) => items,
            None => {
                return None;
            },
        };
        let name: String = tuple_struct_name(items.len());
        let ghost all = views(items@);
        let mut fields: Vec<(String, Expr)> = Vec::new();
        let mut i: usize = 0;
        let n: usize = items.len();
        assert(all.subrange(0, all.len() as int) =~= all);
        while items.len() > 0
            invariant
                i + items@.len() == n,
                n == all.len(),
                views(items@) == all.subrange(i as int, n as int),
                fields@.len() == i,
                forall|k: int|
                    0 <= k < i ==> (#[trigger] fields@[k])@ == (decimal(k as nat), all[k]),
            decreases items.len(),
        {
            let ghost before = views(items@);
            let e: Expr = items.remove(0);
            assert(before[0] == e@);
            fields.push((text::decimal_text(i as u64), e));
            i = i + 1;
            assert(views(items@) =~= all.subrange(i as int, n as int));
        }
        assert(views(fields@) =~= numbered(all));
        Some(self.wrap_expr(span, ExprKind::StructLit(path_of(name), Vec::new(), fields)))
    }

    /// A choice.
    #[verifier::rlimit(40)]
    pub fn lower_if_expr(&mut self, t: &Tree) -> (r: Option<Expr>)
        ensures
            made(r, *final(self), low_if(*t, old(self).file, old(self).ids.upcoming)),
            final(self).file == old(self).file,
        decreases t, 0nat,
    {
        if t.children.len() < 2 {
            return None;
        }
        let span: Span = self.span_of(t);
        let cond: Expr = match self.lower_expr(&t.children[0]) {
            Some(cond) => cond,
            None => {
                return None;
            },
        };
        let then_branch: Block = match self.lower_block(&t.children[1]) {
            Some(b) => b,
            None => {
                return None;
            },
        };
        let mut else_branch: Option<Box<ElseBranch>> = None;
        if !self.lower_else(&t.children, &mut else_branch) {
            return None;
        }
        Some(
            self.wrap_expr(
                span,
                ExprKind::If { cond: Box::new(cond), then_branch, else_branch },
            ),
        )
    }

    fn lower_else(&mut self, children: &Vec<Tree>, out: &mut Option<Box<ElseBranch>>) -> (r: bool)
        ensures
            match low_else(*children, old(self).file, old(self).ids.upcoming) {
                Some(w) => r && opt_else(*final(out)) == w.value && final(self).ids.upcoming
                    == w.next,
                None => !r,
            },
            final(self).file == old(self).file,
        decreases children, children@.len() + 1,
    {
        if children.len() <= 2 {
            *out = None;
            return true;
        }
        if children[2].rule == Rule::IfExpr {
            match self.lower_if_expr(&children[2]) {
                None => false,
                Some(e) => {
                    *out = Some(Box::new(ElseBranch::If(e)));
                    true
                },
            }
        } else if children[2].rule == Rule::Block {
            match self.lower_block(&children[2]) {
                None => false,
                Some(b) => {
                    *out = Some(Box::new(ElseBranch::Block(b)));
                    true
                },
            }
        } else {
            false
        }
    }

    /// A loop with a condition.
    pub fn lower_while_expr(&mut self, t: &Tree) -> (r: Option<Expr>)
        ensures
            made(r, *final(self), low_while(*t, old(self).file, old(self).ids.upcoming)),
            final(self).file == old(self).file,
        decreases t, 0nat,
    {
        if t.children.len() < 2 {
            return None;
        }
        let span: Span = self.span_of(t);
        match self.lower_expr(&t.children[0]) {
            None => None,
            Some(cond) => match self.lower_block(&t.children[1]) {
                None => None,
                Some(body) => Some(
                    self.wrap_expr(span, ExprKind::While { cond: Box::new(cond), body }),
                ),
            },
        }
    }

    /// A loop without a condition.
    pub fn lower_loop_expr(&mut self, t: &Tree) -> (r: Option<Expr>)
        ensures
            made(r, *final(self), low_loop(*t, old(self).file, old(self).ids.upcoming)),
            final(self).file == old(self).file,
        decreases t, 0nat,
    {
        if t.children.len() == 0 {
            return None;
        }
        let span: Span = self.span_of(t);
        match self.lower_block(&t.children[0]) {
            None => None,
            Some(body) => Some(self.wrap_expr(span, ExprKind::Loop { body })),
        }
    }

    /// A loop over a range or over the items of an array.
    #[verifier::rlimit(40)]
    pub fn lower_for_expr(&mut self, t: &Tree) -> (r: Option<Expr>)
        ensures
            made(r, *final(self), low_for(*t, old(self).file, old(self).ids.upcoming)),
            final(self).file == old(self).file,
        decreases t, 0nat,
    {
        if t.children.len() < 3 {
            return None;
        }
        let span: Span = self.span_of(t);
        let var: String = t.children[0].text.clone();
        let first: Expr = match self.lower_binary(&t.children[1], ADDITIVE_LEVEL) {
            Some(first) => first,
            None => {
                return None;
            },
        };
        if t.children[2].rule == Rule::Additive {
            let end: Expr = match self.lower_binary(&t.children[2], ADDITIVE_LEVEL) {
                Some(end) => end,
                None => {
                    return None;
                },
            };
            if t.children.len() < 4 {
                return None;
            }
            match self.lower_block(&t.children[3]) {
                None => None,
                Some(body) => Some(
                    self.wrap_expr(
                        span,
                        ExprKind::For { var, start: Box::new(first), end: Box::new(end), body },
                    ),
                ),
            }
        } else {
            match self.lower_block(&t.children[2]) {
                None => None,
                Some(body) => Some(
                    self.wrap_expr(span, ExprKind::ForIn { var, iter: Box::new(first), body }),
                ),
            }
        }
    }

    /// That many copies of an expression, each with nodes of its own.
    fn lower_copies(&mut self, t: &Tree, count: usize) -> (r: Option<Vec<Expr>>)
        ensures
            made_all(
                r,
                *final(self),
                low_copies(*t, count as nat, old(self).file, old(self).ids.upcoming),
            ),
            final(self).file == old(self).file,
        decreases t, 1nat,
    {
        let ghost f = self.file;
        let ghost id = self.ids.upcoming;
        let mut out: Vec<Expr> = Vec::new();
        let mut fine: bool = true;
        let mut i: usize = 0;
        while i < count
            invariant
                i <= count,
                self.file == f,
                match low_copies(*t, i as nat, f, id) {
                    Some(w) => fine && w.value == views(out@) && w.next == self.ids.upcoming,
                    None => !fine,
                },
            decreases count - i,
        {
            if fine {
                match self.lower_expr(t) {
                    Some(e) => {
                        out.push(e);
                    },
                    None => {
                        fine = false;
                    },
                }
            }
            i = i + 1;
        }
        if fine {
            Some(out)
        } else {
            None
        }
    }

    fn lower_count(&mut self, t: &Tree) -> (r: Option<Expr>)
        ensures
            made(r, *final(self), low_count(*t, old(self).file, old(self).ids.upcoming)),
            final(self).file == old(self).file,
    {
        let span: Span = self.span_of(t);
        if t.rule == Rule::Ident {
            Some(self.wrap_expr(span, ExprKind::Path(path_of(t.text.clone()))))
        } else if t.rule == Rule::PackRef && t.children.len() > 0 {
            Some(self.wrap_expr(span, ExprKind::PackRef(t.children[0].text.clone())))
        } else {
            None
        }
    }

    /// An array.
    #[verifier::rlimit(40)]
    pub fn lower_array_lit(&mut self, t: &Tree) -> (r: Option<Expr>)
        ensures
            made(r, *final(self), low_array_lit(*t, old(self).file, old(self).ids.upcoming)),
            final(self).file == old(self).file,
        decreases t, 0nat,
    {
        let span: Span = self.span_of(t);
        if t.children.len() == 0 {
            return Some(self.wrap_expr(span, ExprKind::ArrayLit(Vec::new())));
        }
        let body = &t.children[0];
        if body.rule == Rule::ArrayList {
            match self.lower_exprs(&body.children, 0) {
                None => None,
                Some(items) => Some(self.wrap_expr(span, ExprKind::ArrayLit(items))),
            }
        } else if body.rule == Rule::ArrayRepeat && body.children.len() >= 2 {
            let count = &body.children[1];
            if count.rule == Rule::NumericLit {
                match count_copies(count.text.as_str()) {
                    None => None,
                    Some(n) => match self.lower_copies(&body.children[0], n) {
                        None => None,
                        Some(items) => Some(self.wrap_expr(span, ExprKind::ArrayLit(items))),
                    },
                }
            } else {
                match self.lower_expr(&body.children[0]) {
                    None => None,
                    Some(value) => match self.lower_count(count) {
                        None => None,
                        Some(c) => Some(
                            self.wrap_expr(
                                span,
                                ExprKind::ArrayRepeat {
                                    value: Box::new(value),
                                    count: Box::new(c),
                                },
                            ),
                        ),
                    },
                }
            }
        } else {
            None
        }
    }

    /// A literal.
    pub fn lower_literal(&mut self, t: &Tree) -> (r: Option<Expr>)
        ensures
            made(r, *final(self), low_literal(*t, old(self).file, old(self).ids.upcoming)),
            final(self).file == old(self).file,
    {
        if t.children.len() == 0 {
            return None;
        }
        let inner = &t.children[0];
        match inner.rule {
            Rule::ImaginaryLit => self.lower_imaginary_lit(inner),
            Rule::NumericLit => Some(self.lower_numeric_lit(inner)),
            Rule::BoolLit => Some(self.lower_bool_lit(inner)),
            Rule::StringLit => self.lower_string_lit(inner),
            _ => None,
        }
    }

    /// A string: the array of its bytes.
    pub fn lower_string_lit(&mut self, t: &Tree) -> (r: Option<Expr>)
        ensures
            made(r, *final(self), low_string(*t, old(self).file, old(self).ids.upcoming)),
            final(self).file == old(self).file,
    {
        let span: Span = self.span_of(t);
        let content: String = match strip_quotes(&t.text) {
            Some(content) => content,
            None => {
                return None;
            },
        };
        let bytes: Vec<u8> = content.as_str().as_bytes_vec();
        let ghost f = self.file;
        let ghost id = self.ids.upcoming;
        let mut out: Vec<Expr> = Vec::new();
        let mut i: usize = 0;
        while i < bytes.len()
            invariant
                i <= bytes@.len(),
                self.file == f,
                ({
                    let w = low_bytes(bytes@, i as nat, span, id);
                    w.value == views(out@) && w.next == self.ids.upcoming
                }),
            decreases bytes.len() - i,
        {
            let digits: String = text::decimal_text(bytes[i] as u64);
            let e: Expr = self.wrap_expr(
                span,
                ExprKind::NumberLit { text: digits, suffix: Some("i8".to_owned()) },
            );
            out.push(e);
            i = i + 1;
        }
        Some(self.wrap_expr(span, ExprKind::ArrayLit(out)))
    }

    /// A truth value.
    pub fn lower_bool_lit(&mut self, t: &Tree) -> (r: Expr)
        ensures
            ({
                let w = low_bool(*t, old(self).file, old(self).ids.upcoming);
                r@ == w.value && final(self).ids.upcoming == w.next
            }),
            final(self).file == old(self).file,
    {
        let span: Span = self.span_of(t);
        let b: bool = text::same(t.text.as_str(), "true");
        self.wrap_expr(span, ExprKind::BoolLit(b))
    }

    /// A number.
    pub fn lower_numeric_lit(&mut self, t: &Tree) -> (r: Expr)
        ensures
            ({
                let w = low_numeric(*t, old(self).file, old(self).ids.upcoming);
                r@ == w.value && final(self).ids.upcoming == w.next
            }),
            final(self).file == old(self).file,
    {
        let span: Span = self.span_of(t);
        let (number, suffix) = split_type_suffix(t.text.as_str());
        self.wrap_expr(span, ExprKind::NumberLit { text: number, suffix })
    }

    /// An imaginary number.
    pub fn lower_imaginary_lit(&mut self, t: &Tree) -> (r: Option<Expr>)
        ensures
            made(r, *final(self), low_imaginary(*t, old(self).file, old(self).ids.upcoming)),
            final(self).file == old(self).file,
    {
        let span: Span = self.span_of(t);
        let n: usize = t.text.as_str().unicode_len();
        if n == 0 {
            return None;
        }
        let number: String = t.text.as_str().substring_char(0, n - 1).to_owned();
        assert(number@ =~= t.text@.drop_last());
        Some(self.wrap_expr(span, ExprKind::ImaginaryLit { text: number, suffix: None }))
    }

    /// A type.
    pub fn lower_type(&mut self, t: &Tree) -> (r: Option<Type>)
        ensures
            made(r, *final(self), low_type(*t, old(self).file, old(self).ids.upcoming)),
            final(self).file == old(self).file,
        decreases t, 0nat,
    {
        if t.children.len() == 0 {
            return None;
        }
        let span: Span = self.span_of(t);
        let first = &t.children[0];
        match first.rule {
            Rule::ArrayType => self.lower_array_type(first),
            Rule::FnType => self.lower_fn_type(first),
            Rule::TupleType => self.lower_tuple_type(first),
            Rule::PackRef => {
                if first.children.len() == 0 {
                    return None;
                }
                Some(self.wrap_type(span, TypeKind::PackRef(first.children[0].text.clone())))
            },
            Rule::Path => {
                let path: Path = self.lower_path(first);
                match self.lower_generic_args(&t.children, 1) {
                    None => None,
                    Some(args) => Some(self.wrap_type(span, TypeKind::Path(path, args))),
                }
            },
            _ => None,
        }
    }

    fn lower_types(&mut self, children: &Vec<Tree>) -> (r: Option<Vec<Type>>)
        ensures
            made_all(
                r,
                *final(self),
                low_types(
                    *children,
                    children@.len(),
                    old(self).file,
                    old(self).ids.upcoming,
                ),
            ),
            final(self).file == old(self).file,
        decreases children, 0nat,
    {
        let ghost f = self.file;
        let ghost id = self.ids.upcoming;
        let mut out: Vec<Type> = Vec::new();
        let mut fine: bool = true;
        let mut i: usize = 0;
        while i < children.len()
            invariant
                i <= children@.len(),
                self.file == f,
                match low_types(*children, i as nat, f, id) {
                    Some(w) => fine && w.value == views(out@) && w.next == self.ids.upcoming,
                    None => !fine,
                },
            decreases children.len() - i,
        {
            if fine {
                match self.lower_type(&children[i]) {
                    Some(ty) => {
                        out.push(ty);
                    },
                    None => {
                        fine = false;
                    },
                }
            }
            i = i + 1;
        }
        if fine {
            Some(out)
        } else {
            None
        }
    }

    /// A function type.
    pub fn lower_fn_type(&mut self, t: &Tree) -> (r: Option<Type>)
        ensures
            made(r, *final(self), low_fn_type(*t, old(self).file, old(self).ids.upcoming)),
            final(self).file == old(self).file,
        decreases t, 0nat,
    {
        let span: Span = self.span_of(t);
        let mut types: Vec<Type> = match self.lower_types(&t.children) {
            Some(types) => types,
            None => {
                return None;
            },
        };
        let ghost all = views(types@);
        match types.pop() {
            None => None,
            Some(ret) => {
                assert(views(types@) =~= all.drop_last());
                assert(all.last() == ret@);
                Some(self.wrap_type(span, TypeKind::Fn(types, Box::new(ret))))
            },
        }
    }

    /// A tuple type.
    pub fn lower_tuple_type(&mut self, t: &Tree) -> (r: Option<Type>)
        ensures
            made(r, *final(self), low_tuple_type(*t, old(self).file, old(self).ids.upcoming)),
            final(self).file == old(self).file,
        decreases t, 0nat,
    {
        let span: Span = self.span_of(t);
        let mut types: Vec<Type> = match self.lower_types(&t.children) {
            Some(types) => types,
            None => {
                return None;
            },
        };
        let name: String = tuple_struct_name(types.len());
        let ghost all = views(types@);
        let mut args: Vec<GenericArg> = Vec::new();
        let n: usize = types.len();
        assert(all.subrange(0, all.len() as int) =~= all);
        while types.len() > 0
            invariant
                args@.len() + types@.len() == n,
                n == all.len(),
                views(types@) == all.subrange(args@.len() as int, n as int),
                forall|k: int|
                    0 <= k < args@.len() ==> (#[trigger] args@[k])@ == GenericArgV::Type(all[k]),
            decreases types.len(),
        {
            let ghost before = views(types@);
            let ty: Type = types.remove(0);
            assert(before[0] == ty@);
            args.push(GenericArg::Type(ty));
            assert(views(types@) =~= all.subrange(args@.len() as int, n as int));
        }
        assert(views(args@) =~= type_args(all));
        Some(self.wrap_type(span, TypeKind::Path(path_of(name), args)))
    }

    /// An array type.
    pub fn lower_array_type(&mut self, t: &Tree) -> (r: Option<Type>)
        ensures
            made(r, *final(self), low_array_type(*t, old(self).file, old(self).ids.upcoming)),
            final(self).file == old(self).file,
        decreases t, 0nat,
    {
        if t.children.len() == 0 {
            return None;
        }
        let span: Span = self.span_of(t);
        let elem: Type = match self.lower_type(&t.children[0]) {
            Some(elem) => elem,
            None => {
                return None;
            },
        };
        let mut dims: Vec<Expr> = match self.lower_dims(&t.children) {
            Some(dims) => dims,
            None => {
                return None;
            },
        };
        let ghost f = self.file;
        let ghost goal = nested_type(elem@, views(dims@), span, self.ids.upcoming);
        let mut acc: Type = elem;
        while dims.len() > 0
            invariant
                self.file == f,
                goal == nested_type(acc@, views(dims@), span, self.ids.upcoming),
            decreases dims.len(),
        {
            let ghost before = views(dims@);
            let dim: Expr = dims.pop().unwrap();
            assert(before.last() == dim@);
            assert(views(dims@) =~= before.drop_last());
            acc = self.wrap_type(span, TypeKind::Array(Box::new(acc), Box::new(dim)));
        }
        Some(acc)
    }

    fn lower_dims(&mut self, children: &Vec<Tree>) -> (r: Option<Vec<Expr>>)
        requires
            children@.len() > 0,
        ensures
            made_all(
                r,
                *final(self),
                low_dims(
                    *children,
                    children@.len(),
                    old(self).file,
                    old(self).ids.upcoming,
                ),
            ),
            final(self).file == old(self).file,
        decreases children, 0nat,
    {
        let ghost f = self.file;
        let ghost id = self.ids.upcoming;
        let mut out: Vec<Expr> = Vec::new();
        let mut fine: bool = true;
        let mut i: usize = 1;
        while i < children.len()
            invariant
                1 <= i <= children@.len(),
                self.file == f,
                match low_dims(*children, i as nat, f, id) {
                    Some(w) => fine && w.value == views(out@) && w.next == self.ids.upcoming,
                    None => !fine,
                },
            decreases children.len() - i,
        {
            if fine {
                match self.lower_array_dim(&children[i]) {
                    Some(e) => {
                        out.push(e);
                    },
                    None => {
                        fine = false;
                    },
                }
            }
            i = i + 1;
        }
        if fine {
            Some(out)
        } else {
            None
        }
    }

    /// A size: an expression, or a pack of sizes.
    pub fn lower_array_dim(&mut self, t: &Tree) -> (r: Option<Expr>)
        ensures
            made(r, *final(self), low_dim(*t, old(self).file, old(self).ids.upcoming)),
            final(self).file == old(self).file,
        decreases t, 0nat,
    {
        if t.children.len() == 0 {
            return None;
        }
        let span: Span = self.span_of(t);
        let expr: Expr = match self.lower_expr(&t.children[0]) {
            Some(expr) => expr,
            None => {
                return None;
            },
        };
        proof {
            lemma_expr_path(expr);
        }
        if stands_at(&t.children, 1, Rule::PackMarker) {
            match &expr.kind {
                ExprKind::Path(path) => {
                    let name: String = path_text(path);
                    Some(self.wrap_expr(span, ExprKind::PackRef(name)))
                },
                _ => None,
            }
        } else {
            Some(expr)
        }
    }

    /// A block.
    pub fn lower_block(&mut self, t: &Tree) -> (r: Option<Block>)
        ensures
            made(r, *final(self), low_block(*t, old(self).file, old(self).ids.upcoming)),
            final(self).file == old(self).file,
        decreases t, 0nat,
    {
        self.lower_block_parts(&t.children)
    }

    fn lower_block_parts(&mut self, children: &Vec<Tree>) -> (r: Option<Block>)
        ensures
            made(
                r,
                *final(self),
                low_block_parts(
                    *children,
                    children@.len(),
                    old(self).file,
                    old(self).ids.upcoming,
                ),
            ),
            final(self).file == old(self).file,
        decreases children, 0nat,
    {
        let ghost f = self.file;
        let ghost id = self.ids.upcoming;
        let mut stmts: Vec<Stmt> = Vec::new();
        let mut tail: Option<Box<Expr>> = None;
        let mut fine: bool = true;
        let mut i: usize = 0;
        while i < children.len()
            invariant
                i <= children@.len(),
                self.file == f,
                match low_block_parts(*children, i as nat, f, id) {
                    Some(w) => fine && w.value == (BlockV {
                        stmts: views(stmts@),
                        tail: opt_boxed(tail),
                    }) && w.next == self.ids.upcoming,
                    None => !fine,
                },
            decreases children.len() - i,
        {
            if fine {
                if children[i].rule == Rule::Stmt {
                    match self.lower_stmt(&children[i]) {
                        Some(s) => {
                            stmts.push(s);
                        },
                        None => {
                            fine = false;
                        },
                    }
                } else if children[i].rule == Rule::Expr {
                    match self.lower_expr(&children[i]) {
                        Some(e) => {
                            tail = Some(Box::new(e));
                        },
                        None => {
                            fine = false;
                        },
                    }
                } else {
                    fine = false;
                }
            }
            i = i + 1;
        }
        if fine {
            Some(Block { stmts, tail })
        } else {
            None
        }
    }

    /// A statement.
    pub fn lower_stmt(&mut self, t: &Tree) -> (r: Option<Stmt>)
        ensures
            made(r, *final(self), low_stmt(*t, old(self).file, old(self).ids.upcoming)),
            final(self).file == old(self).file,
        decreases t, 0nat,
    {
        if t.children.len() == 0 {
            return None;
        }
        let span: Span = self.span_of(t);
        let inner = &t.children[0];
        let kind: Option<StmtKind> = match inner.rule {
            Rule::LetStmt => self.lower_let_stmt(inner),
            Rule::AssignStmt => self.lower_assign_stmt(inner),
            Rule::BreakStmt => if inner.children.len() == 0 {
                Some(StmtKind::Break(None))
            } else {
                match self.lower_expr(&inner.children[0]) {
                    None => None,
                    Some(e) => Some(StmtKind::Break(Some(e))),
                }
            },
            Rule::ExprStmt => if inner.children.len() == 0 {
                None
            } else {
                match self.lower_expr(&inner.children[0]) {
                    None => None,
                    Some(e) => Some(StmtKind::Expr(e)),
                }
            },
            _ => None,
        };
        match kind {
            None => None,
            Some(kind) => Some(self.wrap_stmt(span, kind)),
        }
    }

    fn lower_binding(&mut self, children: &Vec<Tree>, with_value: bool) -> (r: Option<Binding>)
        ensures
            made(
                r,
                *final(self),
                low_binding(
                    *children,
                    children@.len(),
                    with_value,
                    old(self).file,
                    old(self).ids.upcoming,
                ),
            ),
            final(self).file == old(self).file,
        decreases children, 0nat,
    {
        let ghost f = self.file;
        let ghost id = self.ids.upcoming;
        let mut out: Binding = Binding { mutable: false, name: None, ty: None, value: None };
        let mut fine: bool = true;
        let mut i: usize = 0;
        while i < children.len()
            invariant
                i <= children@.len(),
                self.file == f,
                match low_binding(*children, i as nat, with_value, f, id) {
                    Some(w) => fine && w.value == out@ && w.next == self.ids.upcoming,
                    None => !fine,
                },
            decreases children.len() - i,
        {
            if fine {
                let p = &children[i];
                match p.rule {
                    Rule::MutKw => {
                        out.mutable = true;
                    },
                    Rule::Ident => {
                        if out.name.is_none() {
                            out.name = Some(p.text.clone());
                        }
                    },
                    Rule::Type => {
                        match self.lower_type(p) {
                            Some(ty) => {
                                out.ty = Some(ty);
                            },
                            None => {
                                fine = false;
                            },
                        }
                    },
                    Rule::Expr => {
                        if with_value {
                            match self.lower_expr(p) {
                                Some(e) => {
                                    out.value = Some(e);
                                },
                                None => {
                                    fine = false;
                                },
                            }
                        }
                    },
                    _ => {},
                }
            }
            i = i + 1;
        }
        if fine {
            Some(out)
        } else {
            None
        }
    }

    /// A statement that binds a name to a value.
    pub fn lower_let_stmt(&mut self, t: &Tree) -> (r: Option<StmtKind>)
        ensures
            made(r, *final(self), low_let(*t, old(self).file, old(self).ids.upcoming)),
            final(self).file == old(self).file,
        decreases t, 0nat,
    {
        match self.lower_binding(&t.children, true) {
            None => None,
            Some(b) => match (b.name, b.value) {
                (Some(name), Some(value)) => Some(
                    StmtKind::Let { mutable: b.mutable, name, ty: b.ty, value },
                ),
                _ => None,
            },
        }
    }

    /// A statement that assigns a value.
    pub fn lower_assign_stmt(&mut self, t: &Tree) -> (r: Option<StmtKind>)
        ensures
            made(r, *final(self), low_assign(*t, old(self).file, old(self).ids.upcoming)),
            final(self).file == old(self).file,
        decreases t, 0nat,
    {
        if t.children.len() < 2 {
            return None;
        }
        match self.lower_assign_target(&t.children[0]) {
            None => None,
            Some(target) => match self.lower_expr(&t.children[1]) {
                None => None,
                Some(value) => Some(StmtKind::Assign { target, value }),
            },
        }
    }

    /// What is assigned to.
    pub fn lower_assign_target(&mut self, t: &Tree) -> (r: Option<Expr>)
        ensures
            made(r, *final(self), low_target(*t, old(self).file, old(self).ids.upcoming)),
            final(self).file == old(self).file,
        decreases t, 0nat,
    {
        if t.children.len() == 0 {
            return None;
        }
        let ident_span: Span = self.span_of(&t.children[0]);
        let path: Path = path_of(t.children[0].text.clone());
        let base: Expr = self.wrap_expr(ident_span, ExprKind::Path(path));
        self.fold_ops(base, &t.children)
    }

    /// Parameters.
    pub fn lower_param_list(&mut self, children: &Vec<Tree>) -> (r: Option<Vec<Param>>)
        ensures
            made_all(
                r,
                *final(self),
                low_params(
                    *children,
                    children@.len(),
                    old(self).file,
                    old(self).ids.upcoming,
                ),
            ),
            final(self).file == old(self).file,
        decreases children, 0nat,
    {
        let ghost f = self.file;
        let ghost id = self.ids.upcoming;
        let mut out: Vec<Param> = Vec::new();
        let mut fine: bool = true;
        let mut i: usize = 0;
        while i < children.len()
            invariant
                i <= children@.len(),
                self.file == f,
                match low_params(*children, i as nat, f, id) {
                    Some(w) => fine && w.value == views(out@) && w.next == self.ids.upcoming,
                    None => !fine,
                },
            decreases children.len() - i,
        {
            if fine {
                match self.lower_param(&children[i]) {
                    Some(p) => {
                        out.push(p);
                    },
                    None => {
                        fine = false;
                    },
                }
            }
            i = i + 1;
        }
        if fine {
            Some(out)
        } else {
            None
        }
    }

    /// A parameter.
    pub fn lower_param(&mut self, t: &Tree) -> (r: Option<Param>)
        ensures
            made(r, *final(self), low_param(*t, old(self).file, old(self).ids.upcoming)),
            final(self).file == old(self).file,
        decreases t, 0nat,
    {
        match self.lower_binding(&t.children, false) {
            None => None,
            Some(b) => match b.name {
                None => None,
                Some(name) => Some(Param { name, ty: b.ty, mutable: b.mutable }),
            },
        }
    }
}

} // verus!
