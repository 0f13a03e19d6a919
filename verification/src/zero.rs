//! Terms that are zero, shaped like the value that they stand for.

use vstd::prelude::*;

use crate::const_eval::ConstValue;
use crate::forward::{array_symbol, array_symbol_text, struct_symbol, struct_symbol_text};
use crate::lang::{CleaveLang, CleaveLangV, FoldData, FoldDataV};
use crate::patterns::{is_float_name, names_float};
use crate::table::{group_views, views, Dup, Table};
use crate::ty::{group_ty, lemma_ty_view, Ty, TyV};
use crate::unify::{int_type_name, names_int};

verus! {

broadcast use {group_views, group_ty};

/// A term by its nodes, the root last, and the types of the symbols that it brings.
#[verifier::ext_equal]
pub struct ZeroV {
    pub nodes: Seq<CleaveLangV>,
    pub types: Seq<(Seq<char>, TyV)>,
}

/// A term by its nodes, the root last, and the types of the symbols that it brings.
pub struct Zero {
    pub nodes: Vec<CleaveLang>,
    pub types: Vec<(String, Ty)>,
}

impl View for Zero {
    type V = ZeroV;

    open spec fn view(&self) -> ZeroV {
        ZeroV { nodes: views(self.nodes@), types: views(self.types@) }
    }
}

/// A term or nothing, by its view.
pub open spec fn opt_zero(z: Option<Zero>) -> Option<ZeroV> {
    match z {
        Some(x) => Some(x@),
        None => None,
    }
}

/// A term of one node.
pub open spec fn leaf_zero(node: CleaveLangV) -> ZeroV {
    ZeroV { nodes: seq![node], types: Seq::empty() }
}

/// An operation on a term, taken `count` times.
pub open spec fn op_on(z: ZeroV, symbol: Seq<char>, ty: TyV, count: nat) -> ZeroV {
    let root = (z.nodes.len() - 1) as usize;
    ZeroV {
        nodes: z.nodes.push(CleaveLangV::Op(symbol, Seq::new(count, |i: int| root))),
        types: z.types.push((symbol, ty)),
    }
}

/// Arrays of arrays of a term, with the sizes that are given, the last one innermost.
/// None where a size is not a number.
pub open spec fn arrays_of(z: ZeroV, elem: TyV, dims: Seq<TyV>) -> Option<ZeroV>
    decreases dims.len(),
{
    if dims.len() == 0 {
        Some(z)
    } else {
        match dims.last() {
            TyV::Const(ConstValue::Int(n)) => if n <= usize::MAX {
                let ty = TyV::Array(Box::new(elem), Box::new(dims.last()));
                arrays_of(
                    op_on(z, array_symbol(ty, n as nat), ty, n as nat),
                    ty,
                    dims.drop_last(),
                )
            } else {
                None
            },
            _ => None,
        }
    }
}

/// The zero of a type: of a scalar number, of an array of known size, and of a struct that
/// is shaped like an array. Nothing else has one.
pub open spec fn zero_of(ty: TyV, fields: Map<Seq<char>, Seq<char>>) -> Option<ZeroV>
    decreases ty,
{
    match ty {
        TyV::Con(name) => if is_float_name(name) {
            Some(leaf_zero(CleaveLangV::Float(0)))
        } else if int_type_name(name) {
            Some(leaf_zero(CleaveLangV::Int(0)))
        } else {
            None
        },
        TyV::Array(elem, size) => match zero_of(*elem, fields) {
            Some(z) => arrays_of(z, *elem, seq![*size]),
            None => None,
        },
        TyV::App(name, args) => if fields.contains_key(name) && args.len() > 1 {
            match zero_of(args[0], fields) {
                Some(z) => match arrays_of(z, args[0], args.subrange(1, args.len() as int)) {
                    Some(data) => Some(op_on(data, struct_symbol(ty, fields[name]), ty, 1)),
                    None => None,
                },
                None => None,
            }
        } else {
            None
        },
        _ => None,
    }
}

/// The zero that the derivative of a class equals: none where the derivative is
/// taken by the class itself, or may depend on what it is taken by, or where the
/// shape of the class is not known.
pub open spec fn independent_zero_of(
    same_class: bool,
    a: FoldDataV,
    x: FoldDataV,
    holds_float: bool,
    holds_int: bool,
    fields: Map<Seq<char>, Seq<char>>,
) -> Option<ZeroV> {
    if same_class || !x.free_deps.disjoint(a.free_deps) {
        None
    } else if holds_float {
        Some(leaf_zero(CleaveLangV::Float(0)))
    } else if holds_int {
        Some(leaf_zero(CleaveLangV::Int(0)))
    } else {
        match a.own_ty {
            Some(ty) => zero_of(ty, fields),
            None => None,
        }
    }
}

fn leaf(node: CleaveLang) -> (r: Zero)
    ensures
        r@ == leaf_zero(node@),
{
    let mut nodes: Vec<CleaveLang> = Vec::new();
    nodes.push(node);
    assert(views(nodes@) =~= seq![node@]);
    Zero { nodes, types: Vec::new() }
}

fn add_op(z: &mut Zero, symbol: String, ty: Ty, count: usize)
    requires
        old(z).nodes@.len() > 0,
    ensures
        final(z)@ == op_on(old(z)@, symbol@, ty@, count as nat),
        final(z).nodes@.len() > 0,
{
    let root: usize = z.nodes.len() - 1;
    let mut children: Vec<usize> = Vec::new();
    let mut i: usize = 0;
    while i < count
        invariant
            i <= count,
            children@ == Seq::new(i as nat, |k: int| root),
        decreases count - i,
    {
        children.push(root);
        i = i + 1;
        assert(children@ =~= Seq::new(i as nat, |k: int| root));
    }
    z.nodes.push(CleaveLang::Op(symbol.clone(), children));
    z.types.push((symbol, ty));
}

/// Wraps a term into arrays. The sizes are those of the list from `from` on.
fn wrap_arrays(z: Zero, elem: &Ty, dims: &Vec<Ty>, from: usize) -> (r: Option<Zero>)
    requires
        from <= dims@.len(),
        z.nodes@.len() > 0,
    ensures
        opt_zero(r) == arrays_of(
            z@,
            elem@,
            views(dims@).subrange(from as int, dims@.len() as int),
        ),
        r matches Some(w) ==> w.nodes@.len() > 0,
{
    let ghost all = views(dims@).subrange(from as int, dims@.len() as int);
    let ghost goal = arrays_of(z@, elem@, all);
    let mut out: Zero = z;
    let mut ty: Ty = elem.dup();
    let mut i: usize = dims.len();
    assert(views(dims@).subrange(from as int, i as int) =~= all);
    while i > from
        invariant
            from <= i <= dims@.len(),
            out.nodes@.len() > 0,
            goal == arrays_of(
                z@,
                elem@,
                views(dims@).subrange(from as int, dims@.len() as int),
            ),
            goal == arrays_of(out@, ty@, views(dims@).subrange(from as int, i as int)),
        decreases i,
    {
        let ghost upto = views(dims@).subrange(from as int, i as int);
        proof {
            assert(upto.last() == dims@[i - 1]@);
            assert(upto.drop_last() =~= views(dims@).subrange(from as int, i - 1));
            lemma_ty_view(dims@[i - 1]);
        }
        match &dims[i - 1] {
            Ty::Const(ConstValue::Int(n)) => {
                if *n > usize::MAX as u64 {
                    return None;
                }
                let array: Ty = Ty::Array(Box::new(ty), Box::new(dims[i - 1].dup()));
                let symbol: String = array_symbol_text(&array, *n);
                add_op(&mut out, symbol, array.dup(), *n as usize);
                ty = array;
            },
            _ => {
                return None;
            },
        }
        i = i - 1;
    }
    Some(out)
}

/// The zero of a type.
pub fn build_zero(ty: &Ty, tensor_like: &Table<String, String>) -> (r: Option<Zero>)
    ensures
        opt_zero(r) == zero_of(ty@, tensor_like@),
        r matches Some(z) ==> z.nodes@.len() > 0,
    decreases ty,
{
    proof {
        lemma_ty_view(*ty);
    }
    match ty {
        Ty::Con(name) => if names_float(name.as_str()) {
            let z: Zero = leaf(CleaveLang::Float(0));
            assert(z@.nodes.len() == 1);
            Some(z)
        } else if names_int(name.as_str()) {
            let z: Zero = leaf(CleaveLang::Int(0));
            assert(z@.nodes.len() == 1);
            Some(z)
        } else {
            None
        },
        Ty::Array(elem, size) => match build_zero(elem, tensor_like) {
            None => None,
            Some(z) => {
                let mut dims: Vec<Ty> = Vec::new();
                dims.push((**size).dup());
                assert(views(dims@).subrange(0, 1) =~= seq![size@]);
                wrap_arrays(z, elem, &dims, 0)
            },
        },
        Ty::App(name, args) => match tensor_like.get(name) {
            None => None,
            Some(field) => {
                if args.len() < 2 {
                    return None;
                }
                assert(views(args@)[0] == args@[0]@);
                match build_zero(&args[0], tensor_like) {
                    None => None,
                    Some(z) => match wrap_arrays(z, &args[0], args, 1) {
                        None => None,
                        Some(data) => {
                            let mut out: Zero = data;
                            let symbol: String = struct_symbol_text(ty, field.as_str());
                            add_op(&mut out, symbol, ty.dup(), 1);
                            Some(out)
                        },
                    },
                }
            },
        },
        _ => None,
    }
}

/// The zero that the derivative of a class equals. `a` is what is known of the class
/// and `x` of what the derivative is taken by; the class may hold a literal.
pub fn independent_zero(
    same_class: bool,
    a: &FoldData,
    x: &FoldData,
    holds_float: bool,
    holds_int: bool,
    tensor_like: &Table<String, String>,
) -> (r: Option<Zero>)
    ensures
        opt_zero(r) == independent_zero_of(
            same_class,
            a@,
            x@,
            holds_float,
            holds_int,
            tensor_like@,
        ),
{
    if same_class || !x.free_deps.disjoint_from(&a.free_deps) {
        return None;
    }
    if holds_float {
        return Some(leaf(CleaveLang::Float(0)));
    }
    if holds_int {
        return Some(leaf(CleaveLang::Int(0)));
    }
    match &a.own_ty {
        Some(ty) => build_zero(ty, tensor_like),
        None => None,
    }
}

} // verus!
