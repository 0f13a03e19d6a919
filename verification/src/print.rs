//! How types are written.

use vstd::prelude::*;

use crate::ast::{Expr, ExprKind, GenericArg, Path, Type, TypeKind};
use crate::infer_types::{path_name, path_text};
use crate::table::{group_views, views};
use crate::text::{join, joined};

verus! {

broadcast use group_views;

/// How an expression in a type is written.
pub open spec fn size_text(e: Expr) -> Seq<char>
    decreases e, 0nat,
{
    match e.kind {
        ExprKind::NumberLit { text, .. } => text@,
        ExprKind::BoolLit(b) => if b {
            "true"@
        } else {
            "false"@
        },
        ExprKind::Path(p) => path_name(p),
        ExprKind::PackRef(name) => name@ + "..."@,
        ExprKind::MethodCall(base, method, _) => size_text(*base) + "."@ + method@ + "()"@,
        ExprKind::Call(p, _, args, _) => path_name(p) + "("@ + joined(
            size_texts(args, args@.len()),
            ", "@,
        ) + ")"@,
        _ => "_"@,
    }
}

pub open spec fn size_texts(es: Vec<Expr>, n: nat) -> Seq<Seq<char>>
    decreases es, n,
{
    if n == 0 || n > es@.len() {
        Seq::empty()
    } else {
        size_texts(es, (n - 1) as nat).push(size_text(es@[n - 1]))
    }
}

/// How a type expression is written.
pub open spec fn type_text(t: Type) -> Seq<char>
    decreases t, 0nat,
{
    match t.kind {
        TypeKind::Path(p, args) => if args@.len() == 0 {
            path_name(p)
        } else {
            path_name(p) + "<"@ + joined(arg_texts(args, args@.len()), ", "@) + ">"@
        },
        TypeKind::Array(elem, size) => "["@ + type_text(*elem) + "; "@ + size_text(*size) + "]"@,
        TypeKind::Fn(params, ret) => "fn("@ + joined(type_texts(params, params@.len()), ", "@)
            + ") -> "@ + type_text(*ret),
        TypeKind::PackRef(name) => name@ + "..."@,
    }
}

pub open spec fn type_texts(ts: Vec<Type>, n: nat) -> Seq<Seq<char>>
    decreases ts, n,
{
    if n == 0 || n > ts@.len() {
        Seq::empty()
    } else {
        type_texts(ts, (n - 1) as nat).push(type_text(ts@[n - 1]))
    }
}

pub open spec fn arg_texts(args: Vec<GenericArg>, n: nat) -> Seq<Seq<char>>
    decreases args, n,
{
    if n == 0 || n > args@.len() {
        Seq::empty()
    } else {
        arg_texts(args, (n - 1) as nat).push(
            match args@[n - 1] {
                GenericArg::Type(t) => type_text(t),
                GenericArg::Const(e) => size_text(e),
            },
        )
    }
}

fn fmt_size(e: &Expr) -> (r: String)
    ensures
        r@ == size_text(*e),
    decreases e, 0nat,
{
    match &e.kind {
        ExprKind::NumberLit { text, .. } => text.clone(),
        ExprKind::BoolLit(b) => if *b {
            "true".to_owned()
        } else {
            "false".to_owned()
        },
        ExprKind::Path(p) => path_text(p),
        ExprKind::PackRef(name) => {
            let mut out: String = name.clone();
            out.append("...");
            out
        },
        ExprKind::MethodCall(base, method, _) => {
            let mut out: String = fmt_size(base);
            out.append(".");
            out.append(method.as_str());
            out.append("()");
            out
        },
        ExprKind::Call(p, _, args, _) => {
            let mut out: String = path_text(p);
            let parts: Vec<String> = fmt_sizes(args);
            out.append("(");
            out.append(join(&parts, ", ").as_str());
            out.append(")");
            out
        },
        _ => "_".to_owned(),
    }
}

fn fmt_sizes(es: &Vec<Expr>) -> (r: Vec<String>)
    ensures
        views(r@) == size_texts(*es, es@.len()),
    decreases es, 0nat,
{
    let mut out: Vec<String> = Vec::new();
    let mut i: usize = 0;
    while i < es.len()
        invariant
            i <= es.len(),
            views(out@) == size_texts(*es, i as nat),
        decreases es.len() - i,
    {
        out.push(fmt_size(&es[i]));
        i = i + 1;
    }
    out
}

/// How a type expression is written.
pub fn fmt_type(t: &Type) -> (r: String)
    ensures
        r@ == type_text(*t),
    decreases t, 0nat,
{
    match &t.kind {
        TypeKind::Path(p, args) => {
            let mut out: String = path_text(p);
            if args.len() > 0 {
                let parts: Vec<String> = fmt_args(args);
                out.append("<");
                out.append(join(&parts, ", ").as_str());
                out.append(">");
            }
            out
        },
        TypeKind::Array(elem, size) => {
            let mut out: String = "[".to_owned();
            out.append(fmt_type(elem).as_str());
            out.append("; ");
            out.append(fmt_size(size).as_str());
            out.append("]");
            out
        },
        TypeKind::Fn(params, ret) => {
            let mut out: String = "fn(".to_owned();
            let parts: Vec<String> = fmt_types(params);
            out.append(join(&parts, ", ").as_str());
            out.append(") -> ");
            out.append(fmt_type(ret).as_str());
            out
        },
        TypeKind::PackRef(name) => {
            let mut out: String = name.clone();
            out.append("...");
            out
        },
    }
}

/// How each of a list of type expressions is written.
pub fn fmt_types(ts: &Vec<Type>) -> (r: Vec<String>)
    ensures
        views(r@) == type_texts(*ts, ts@.len()),
    decreases ts, 0nat,
{
    let mut out: Vec<String> = Vec::new();
    let mut i: usize = 0;
    while i < ts.len()
        invariant
            i <= ts.len(),
            views(out@) == type_texts(*ts, i as nat),
        decreases ts.len() - i,
    {
        out.push(fmt_type(&ts[i]));
        i = i + 1;
    }
    out
}

fn fmt_args(args: &Vec<GenericArg>) -> (r: Vec<String>)
    ensures
        views(r@) == arg_texts(*args, args@.len()),
    decreases args, 0nat,
{
    let mut out: Vec<String> = Vec::new();
    let mut i: usize = 0;
    while i < args.len()
        invariant
            i <= args.len(),
            views(out@) == arg_texts(*args, i as nat),
        decreases args.len() - i,
    {
        let text: String = match &args[i] {
            GenericArg::Type(t) => fmt_type(t),
            GenericArg::Const(e) => fmt_size(e),
        };
        out.push(text);
        i = i + 1;
    }
    out
}

} // verus!
