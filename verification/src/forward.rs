//! Translation of the pure beginning of a function body into terms.

use vstd::prelude::*;

use crate::ast::following;
use crate::cps::{group_cps, lemma_cexpr_view, CExprV, CTopLevelFnV, CValV, PrimOpV};
use crate::cps::{CExpr, CTopLevelFn, CVal, CVar, PrimOp};
use crate::fresh::FreshVars;
use crate::lang::{CleaveLang, CleaveLangV};
use crate::listing::{noted, with_entry, Listing, NameSet};
use crate::rename::{alpha_rename, rename_params, renamed, renamed_params};
use crate::shapes::{counted_loop, pure_op, real_call, straight_line, transparent, unit_of};
use crate::shapes::{
    find_unit, is_pure_prim_op, is_straight_line, is_transparent_chain, recognize_loop,
    recognize_real_call, CountedLoop, LoopV, RealCallV,
};
use crate::table::{dup_list, group_views, views, Dup, Table};
use crate::text;
use crate::text::{decimal, joined};
use crate::ty::{Ty, TyV};
use crate::types::ty_text;

verus! {

broadcast use {group_views, group_cps};

/// What a machine operation of a symbol is.
pub struct RawOp {
    pub op: String,
    pub ty: Ty,
    pub attrs: Vec<(String, String)>,
}

#[verifier::ext_equal]
pub struct RawOpV {
    pub op: Seq<char>,
    pub ty: TyV,
    pub attrs: Seq<(Seq<char>, Seq<char>)>,
}

impl View for RawOp {
    type V = RawOpV;

    open spec fn view(&self) -> RawOpV {
        RawOpV { op: self.op@, ty: self.ty@, attrs: views(self.attrs@) }
    }
}

impl Dup for RawOp {
    fn dup(&self) -> (r: Self) {
        RawOp { op: self.op.clone(), ty: self.ty.dup(), attrs: dup_list(&self.attrs) }
    }
}

/// What a struct construction of a symbol is.
pub struct StructOp {
    pub name: String,
    pub fields: Vec<String>,
    pub ty: Ty,
}

#[verifier::ext_equal]
pub struct StructOpV {
    pub name: Seq<char>,
    pub fields: Seq<Seq<char>>,
    pub ty: TyV,
}

impl View for StructOp {
    type V = StructOpV;

    open spec fn view(&self) -> StructOpV {
        StructOpV { name: self.name@, fields: views(self.fields@), ty: self.ty@ }
    }
}

impl Dup for StructOp {
    fn dup(&self) -> (r: Self) {
        StructOp { name: self.name.clone(), fields: dup_list(&self.fields), ty: self.ty.dup() }
    }
}

/// What a field read of a symbol is.
pub struct FieldOp {
    pub struct_ty: Ty,
    pub field: String,
    pub ty: Ty,
}

#[verifier::ext_equal]
pub struct FieldOpV {
    pub struct_ty: TyV,
    pub field: Seq<char>,
    pub ty: TyV,
}

impl View for FieldOp {
    type V = FieldOpV;

    open spec fn view(&self) -> FieldOpV {
        FieldOpV { struct_ty: self.struct_ty@, field: self.field@, ty: self.ty@ }
    }
}

impl Dup for FieldOp {
    fn dup(&self) -> (r: Self) {
        FieldOp {
            struct_ty: self.struct_ty.dup(),
            field: self.field.clone(),
            ty: self.ty.dup(),
        }
    }
}

/// What an array read of a symbol is.
pub struct LoadOp {
    pub array_ty: Ty,
    pub ty: Ty,
}

#[verifier::ext_equal]
pub struct LoadOpV {
    pub array_ty: TyV,
    pub ty: TyV,
}

impl View for LoadOp {
    type V = LoadOpV;

    open spec fn view(&self) -> LoadOpV {
        LoadOpV { array_ty: self.array_ty@, ty: self.ty@ }
    }
}

impl Dup for LoadOp {
    fn dup(&self) -> (r: Self) {
        LoadOp { array_ty: self.array_ty.dup(), ty: self.ty.dup() }
    }
}

/// What translation has found so far.
pub struct Forward {
    /// The nodes of the terms, children before parents.
    pub nodes: Vec<CleaveLang>,
    /// The term of each variable that was translated.
    pub env: Table<CVar, usize>,
    /// The value that each free symbol stands for.
    pub free_vars: Table<String, CVal>,
    /// The term of each variable that comes from outside.
    pub external_vars: Table<CVar, usize>,
    /// The algebra and the method of each function that was called.
    pub reached: Listing<(String, String)>,
    /// The functions that were called.
    pub call_units: NameSet,
    pub raw_ops: Listing<RawOp>,
    pub struct_ops: Listing<StructOp>,
    pub field_ops: Listing<FieldOp>,
    pub array_ops: Listing<Ty>,
    pub array_repeat_ops: Listing<Ty>,
    pub load_ops: Listing<LoadOp>,
    /// The types of symbols.
    pub known_types: Table<String, Ty>,
    /// The types of the variables that are parameters.
    pub param_types: Table<CVar, Ty>,
    pub next_free: u32,
}

/// What a [`Forward`] is.
#[verifier::ext_equal]
pub struct ForwardV {
    pub nodes: Seq<CleaveLangV>,
    pub env: Map<u32, usize>,
    pub free_vars: Map<Seq<char>, CValV>,
    pub external_vars: Map<u32, usize>,
    pub reached: Seq<(Seq<char>, (Seq<char>, Seq<char>))>,
    pub call_units: Set<Seq<char>>,
    pub raw_ops: Seq<(Seq<char>, RawOpV)>,
    pub struct_ops: Seq<(Seq<char>, StructOpV)>,
    pub field_ops: Seq<(Seq<char>, FieldOpV)>,
    pub array_ops: Seq<(Seq<char>, TyV)>,
    pub array_repeat_ops: Seq<(Seq<char>, TyV)>,
    pub load_ops: Seq<(Seq<char>, LoadOpV)>,
    pub known_types: Map<Seq<char>, TyV>,
    pub param_types: Map<u32, TyV>,
    pub next_free: u32,
}

impl View for Forward {
    type V = ForwardV;

    open spec fn view(&self) -> ForwardV {
        ForwardV {
            nodes: views(self.nodes@),
            env: self.env@,
            free_vars: self.free_vars@,
            external_vars: self.external_vars@,
            reached: self.reached@,
            call_units: self.call_units@,
            raw_ops: self.raw_ops@,
            struct_ops: self.struct_ops@,
            field_ops: self.field_ops@,
            array_ops: self.array_ops@,
            array_repeat_ops: self.array_repeat_ops@,
            load_ops: self.load_ops@,
            known_types: self.known_types@,
            param_types: self.param_types@,
            next_free: self.next_free,
        }
    }
}

impl Dup for Forward {
    fn dup(&self) -> (r: Self) {
        Forward {
            nodes: dup_list(&self.nodes),
            env: self.env.dup(),
            free_vars: self.free_vars.dup(),
            external_vars: self.external_vars.dup(),
            reached: self.reached.copy(),
            call_units: self.call_units.copy(),
            raw_ops: self.raw_ops.copy(),
            struct_ops: self.struct_ops.copy(),
            field_ops: self.field_ops.copy(),
            array_ops: self.array_ops.copy(),
            array_repeat_ops: self.array_repeat_ops.copy(),
            load_ops: self.load_ops.copy(),
            known_types: self.known_types.dup(),
            param_types: self.param_types.dup(),
            next_free: self.next_free,
        }
    }
}

/// The attributes of a machine operation, as `std` formats a list of pairs of
/// strings for debugging.
pub uninterp spec fn attrs_debug_text(attrs: Seq<(Seq<char>, Seq<char>)>) -> Seq<char>;

/// Formats attributes with `{:?}`, the `Debug` of `Vec<(String, String)>` in `std`.
/// The text is named: it depends on the attributes alone. What it looks like is not
/// stated.
#[verifier::external_body]
fn format_attrs(attrs: &Vec<(String, String)>) -> (r: String)
    ensures
        r@ == attrs_debug_text(views(attrs@)),
{
    format!("{:?}", attrs)
}

/// The symbol of a pure operation.
pub open spec fn op_symbol(ty: TyV, op: PrimOpV, count: nat) -> Seq<char> {
    match op {
        PrimOpV::RawMlirOp { op, attrs } => op + ":"@ + ty_text(ty) + ":"@ + attrs_debug_text(
            attrs,
        ),
        PrimOpV::Struct(_, fields) => struct_symbol(ty, joined(fields, ","@)),
        PrimOpV::Field { struct_ty, field } => field_symbol(struct_ty, field),
        PrimOpV::Array => array_symbol(ty, count),
        PrimOpV::ArrayRepeat => "array-repeat:"@ + ty_text(ty),
        PrimOpV::Load { array_ty } => "load:"@ + ty_text(array_ty) + ":"@ + ty_text(ty) + ":"@
            + decimal(count),
        _ => Seq::empty(),
    }
}

/// The symbol of the construction of a struct.
pub open spec fn struct_symbol(ty: TyV, fields: Seq<char>) -> Seq<char> {
    "struct:"@ + ty_text(ty) + ":"@ + fields
}

/// The symbol of the read of a field.
pub open spec fn field_symbol(struct_ty: TyV, field: Seq<char>) -> Seq<char> {
    "field:"@ + ty_text(struct_ty) + ":"@ + field
}

/// The symbol of the construction of an array.
pub open spec fn array_symbol(ty: TyV, count: nat) -> Seq<char> {
    "array:"@ + ty_text(ty) + ":"@ + decimal(count)
}

/// The symbol of a free value.
pub open spec fn free_symbol(n: u32) -> Seq<char> {
    "fv"@ + decimal(n as nat)
}

/// A place that a node was put at, or none.
pub struct PlacedV {
    pub fwd: ForwardV,
    pub place: Option<usize>,
}

/// The translation with one more node, at the place after the others.
pub open spec fn with_node(fwd: ForwardV, node: CleaveLangV) -> ForwardV {
    ForwardV { nodes: fwd.nodes.push(node), ..fwd }
}

/// The place that the next node is put at.
pub open spec fn next_place(fwd: ForwardV) -> usize {
    fwd.nodes.len() as usize
}

/// The translation with a free symbol for a variable that comes from outside.
pub open spec fn with_free_var(fwd: ForwardV, cv: u32) -> ForwardV {
    let sym = free_symbol(fwd.next_free);
    let typed = ForwardV {
        next_free: following(fwd.next_free),
        free_vars: fwd.free_vars.insert(sym, CValV::Var(cv)),
        known_types: if fwd.param_types.contains_key(cv) {
            fwd.known_types.insert(sym, fwd.param_types[cv])
        } else {
            fwd.known_types
        },
        external_vars: fwd.external_vars.insert(cv, next_place(fwd)),
        ..fwd
    };
    with_node(typed, CleaveLangV::Free(sym))
}

/// The place of a value's term. A variable that was translated, or was met before,
/// has one; any other variable becomes a free symbol. A label, a closure and the
/// unit value have none.
pub open spec fn placed(fwd: ForwardV, v: CValV) -> PlacedV {
    match v {
        CValV::Var(cv) => if fwd.env.contains_key(cv) {
            PlacedV { fwd, place: Some(fwd.env[cv]) }
        } else if fwd.external_vars.contains_key(cv) {
            PlacedV { fwd, place: Some(fwd.external_vars[cv]) }
        } else {
            PlacedV { fwd: with_free_var(fwd, cv), place: Some(next_place(fwd)) }
        },
        CValV::Int(n) => PlacedV {
            fwd: with_node(fwd, CleaveLangV::Int(n)),
            place: Some(next_place(fwd)),
        },
        CValV::Float(n) => PlacedV {
            fwd: with_node(fwd, CleaveLangV::Float(n)),
            place: Some(next_place(fwd)),
        },
        CValV::Bool(b) => PlacedV {
            fwd: with_node(fwd, CleaveLangV::Bool(b)),
            place: Some(next_place(fwd)),
        },
        _ => PlacedV { fwd, place: None },
    }
}

/// The places of several values, or none.
pub struct PlacedAllV {
    pub fwd: ForwardV,
    pub places: Option<Seq<usize>>,
}

/// The places of the first `n` values, up to the first that has none.
pub open spec fn placed_first(fwd: ForwardV, vals: Seq<CValV>, n: nat) -> PlacedAllV
    decreases n,
{
    if n == 0 || n > vals.len() {
        PlacedAllV { fwd, places: Some(Seq::empty()) }
    } else {
        let before = placed_first(fwd, vals, (n - 1) as nat);
        match before.places {
            None => before,
            Some(places) => {
                let one = placed(before.fwd, vals[n - 1]);
                PlacedAllV {
                    fwd: one.fwd,
                    places: match one.place {
                        Some(p) => Some(places.push(p)),
                        None => None,
                    },
                }
            },
        }
    }
}

/// The places of all the values, up to the first that has none.
pub open spec fn placed_all(fwd: ForwardV, vals: Seq<CValV>) -> PlacedAllV {
    placed_first(fwd, vals, vals.len())
}

/// The translation with the type of a symbol, unless one is known.
pub open spec fn with_type(fwd: ForwardV, symbol: Seq<char>, ty: TyV) -> ForwardV {
    ForwardV {
        known_types: if fwd.known_types.contains_key(symbol) {
            fwd.known_types
        } else {
            fwd.known_types.insert(symbol, ty)
        },
        ..fwd
    }
}

/// The translation with what a symbol stands for, unless that is known.
pub open spec fn with_op_noted(
    fwd: ForwardV,
    symbol: Seq<char>,
    ty: TyV,
    op: PrimOpV,
) -> ForwardV {
    match op {
        PrimOpV::RawMlirOp { op, attrs } => ForwardV {
            raw_ops: noted(fwd.raw_ops, symbol, RawOpV { op, ty, attrs }),
            ..fwd
        },
        PrimOpV::Struct(name, fields) => ForwardV {
            struct_ops: noted(fwd.struct_ops, symbol, StructOpV { name, fields, ty }),
            ..fwd
        },
        PrimOpV::Field { struct_ty, field } => ForwardV {
            field_ops: noted(fwd.field_ops, symbol, FieldOpV { struct_ty, field, ty }),
            ..fwd
        },
        PrimOpV::Array => ForwardV { array_ops: noted(fwd.array_ops, symbol, ty), ..fwd },
        PrimOpV::ArrayRepeat => ForwardV {
            array_repeat_ops: noted(fwd.array_repeat_ops, symbol, ty),
            ..fwd
        },
        PrimOpV::Load { array_ty } => ForwardV {
            load_ops: noted(fwd.load_ops, symbol, LoadOpV { array_ty, ty }),
            ..fwd
        },
        _ => fwd,
    }
}

/// The translation with a node for an operation, bound to a variable.
pub open spec fn with_op_node(
    fwd: ForwardV,
    var: u32,
    symbol: Seq<char>,
    places: Seq<usize>,
) -> ForwardV {
    ForwardV {
        env: fwd.env.insert(var, next_place(fwd)),
        ..with_node(fwd, CleaveLangV::Op(symbol, places))
    }
}

/// The translation with a pure operation.
pub open spec fn with_op(
    fwd: ForwardV,
    var: u32,
    ty: TyV,
    op: PrimOpV,
    places: Seq<usize>,
) -> ForwardV {
    let symbol = op_symbol(ty, op, places.len());
    with_op_node(with_type(with_op_noted(fwd, symbol, ty, op), symbol, ty), var, symbol, places)
}

/// The translation with a call of a straight-line function.
pub open spec fn with_call(
    fwd: ForwardV,
    call: RealCallV,
    callee: CTopLevelFnV,
    places: Seq<usize>,
) -> ForwardV {
    let node = with_op_node(fwd, call.result_var, call.unit, places);
    ForwardV {
        call_units: node.call_units.insert(call.unit),
        reached: match callee.origin {
            Some(origin) => with_entry(node.reached, call.unit, origin),
            None => node.reached,
        },
        ..node
    }
}

/// The variables with the places at the same positions; a later one hides an
/// earlier one.
pub open spec fn bound_to(env: Map<u32, usize>, vars: Seq<u32>, places: Seq<usize>, n: nat) -> Map<
    u32,
    usize,
>
    decreases n,
{
    if n == 0 || n > vars.len() || n > places.len() {
        env
    } else {
        bound_to(env, vars, places, (n - 1) as nat).insert(vars[n - 1], places[n - 1])
    }
}

/// The number of positions that two lists have in common.
pub open spec fn paired(vars: Seq<u32>, places: Seq<usize>) -> nat {
    if vars.len() < places.len() {
        vars.len()
    } else {
        places.len()
    }
}

/// The translation with variables bound to places, position by position.
pub open spec fn with_bound(fwd: ForwardV, vars: Seq<u32>, places: Seq<usize>) -> ForwardV {
    ForwardV { env: bound_to(fwd.env, vars, places, paired(vars, places)), ..fwd }
}

/// What is left after translation.
pub struct WalkedV {
    pub fwd: ForwardV,
    pub fresh: FreshVars,
    /// The part of the expression that was not translated.
    pub rest: CExprV,
}

/// Where the turns of a loop have led.
pub struct TurnedV {
    pub fwd: ForwardV,
    pub fresh: FreshVars,
    /// What is carried out of the last turn.
    pub carried: Option<Seq<usize>>,
}

/// Where the body of a called function has led.
pub struct InlinedV {
    pub fwd: ForwardV,
    pub fresh: FreshVars,
    /// The place of what it returns.
    pub result: Option<usize>,
}

/// How deep turns of loops and bodies of called functions may be nested.
pub const WALK_DEPTH: u32 = 0xFFFF_FFFF;

/// The parameters of a function without the continuation, which comes last.
pub open spec fn ordinary_count(params: Seq<u32>) -> nat {
    if params.len() == 0 {
        0
    } else {
        (params.len() - 1) as nat
    }
}

/// Translates an expression as far as it can be: pure operations, counted loops,
/// and calls of functions that do nothing else. A loop that cannot be translated to its
/// last turn leaves nothing behind.
pub open spec fn walked(
    e: CExprV,
    funcs: Seq<CTopLevelFnV>,
    fwd: ForwardV,
    fresh: FreshVars,
    depth: nat,
) -> WalkedV
    decreases depth, e, 3nat, 0nat,
{
    match e {
        CExprV::LetPrim { var, ty, op, args, cont } => if pure_op(op) {
            let p = placed_all(fwd, args);
            match p.places {
                None => WalkedV { fwd: p.fwd, fresh, rest: e },
                Some(places) => walked(
                    *cont,
                    funcs,
                    with_op(p.fwd, var, ty, op, places),
                    fresh,
                    depth,
                ),
            }
        } else {
            WalkedV { fwd, fresh, rest: e }
        },
        CExprV::Fix { defs, body } => match counted_loop(defs, *body) {
            None => walked_call(e, funcs, fwd, fresh, depth),
            Some(l) => {
                let init = placed_all(fwd, l.carried_init);
                match init.places {
                    None => walked_call(e, funcs, fwd, fresh, depth),
                    Some(places) => {
                        let t = turned(e, l, l.start, funcs, init.fwd, fresh, places, depth);
                        match t.carried {
                            None => walked_call(e, funcs, fwd, fresh, depth),
                            Some(carried) => walked(
                                l.after,
                                funcs,
                                with_bound(t.fwd, l.carried_params, carried),
                                t.fresh,
                                depth,
                            ),
                        }
                    },
                }
            },
        },
        _ => WalkedV { fwd, fresh, rest: e },
    }
}

/// Translates the turns of a loop from the one that counts `idx`. Each turn is
/// translated with names of its own, and has to end in a jump to the next.
pub open spec fn turned(
    e: CExprV,
    l: LoopV,
    idx: u64,
    funcs: Seq<CTopLevelFnV>,
    fwd: ForwardV,
    fresh: FreshVars,
    carried: Seq<usize>,
    depth: nat,
) -> TurnedV
    decreases depth, e, 1nat, l.end - idx,
{
    if idx >= l.end {
        TurnedV { fwd, fresh, carried: Some(carried) }
    } else if depth == 0 {
        TurnedV { fwd, fresh, carried: None }
    } else {
        let counted = ForwardV {
            env: fwd.env.insert(l.i_var, next_place(fwd)),
            ..with_node(fwd, CleaveLangV::Int(idx))
        };
        let entered = with_bound(counted, l.carried_params, carried);
        let body = renamed(l.turn, Map::empty(), fresh);
        let w = walked(body.expr, funcs, entered, body.fresh, (depth - 1) as nat);
        match w.rest {
            CExprV::App { func: CValV::Label(target), args } => if target == l.name && args.len()
                > 0 {
                let next = placed_all(w.fwd, args.subrange(1, args.len() as int));
                match next.places {
                    None => TurnedV { fwd: next.fwd, fresh: w.fresh, carried: None },
                    Some(places) => turned(
                        e,
                        l,
                        (idx + 1) as u64,
                        funcs,
                        next.fwd,
                        w.fresh,
                        places,
                        depth,
                    ),
                }
            } else {
                TurnedV { fwd: w.fwd, fresh: w.fresh, carried: None }
            },
            _ => TurnedV { fwd: w.fwd, fresh: w.fresh, carried: None },
        }
    }
}

/// Translates a call: of a straight-line function as one operation, of a function
/// that only makes such calls by translating its body in place.
pub open spec fn walked_call(
    e: CExprV,
    funcs: Seq<CTopLevelFnV>,
    fwd: ForwardV,
    fresh: FreshVars,
    depth: nat,
) -> WalkedV
    decreases depth, e, 2nat, 0nat,
{
    match e {
        CExprV::Fix { defs, body } => match real_call(defs, *body) {
            None => WalkedV { fwd, fresh, rest: e },
            Some(call) => match unit_of(funcs, call.unit) {
                None => WalkedV { fwd, fresh, rest: e },
                Some(callee) => if straight_line(callee.def.body) {
                    let p = placed_all(fwd, call.args);
                    match p.places {
                        None => WalkedV { fwd: p.fwd, fresh, rest: e },
                        Some(places) => walked(
                            call.rest,
                            funcs,
                            with_call(p.fwd, call, callee, places),
                            fresh,
                            depth,
                        ),
                    }
                } else if transparent(callee.def.body, funcs, Set::empty()) {
                    let p = placed_all(fwd, call.args);
                    match p.places {
                        None => WalkedV { fwd: p.fwd, fresh, rest: e },
                        Some(places) => {
                            let i = inlined(e, callee, places, funcs, p.fwd, fresh, depth);
                            match i.result {
                                None => WalkedV { fwd: i.fwd, fresh: i.fresh, rest: e },
                                Some(place) => walked(
                                    call.rest,
                                    funcs,
                                    ForwardV {
                                        env: i.fwd.env.insert(call.result_var, place),
                                        ..i.fwd
                                    },
                                    i.fresh,
                                    depth,
                                ),
                            }
                        },
                    }
                } else {
                    WalkedV { fwd, fresh, rest: e }
                },
            },
        },
        _ => WalkedV { fwd, fresh, rest: e },
    }
}

/// Translates the body of a called function in place, with names of its own. It has
/// to end in a jump, whose last argument is the result.
pub open spec fn inlined(
    e: CExprV,
    callee: CTopLevelFnV,
    places: Seq<usize>,
    funcs: Seq<CTopLevelFnV>,
    fwd: ForwardV,
    fresh: FreshVars,
    depth: nat,
) -> InlinedV
    decreases depth, e, 1nat, 0nat,
{
    if depth == 0 {
        InlinedV { fwd, fresh, result: None }
    } else {
        let p = renamed_params(
            callee.def.params,
            ordinary_count(callee.def.params),
            Map::empty(),
            fresh,
        );
        let body = renamed(callee.def.body, p.map, p.fresh);
        let w = walked(
            body.expr,
            funcs,
            with_bound(fwd, p.params, places),
            body.fresh,
            (depth - 1) as nat,
        );
        match w.rest {
            CExprV::App { args, .. } => if args.len() > 0 {
                let ret = placed(w.fwd, args.last());
                InlinedV { fwd: ret.fwd, fresh: w.fresh, result: ret.place }
            } else {
                InlinedV { fwd: w.fwd, fresh: w.fresh, result: None }
            },
            _ => InlinedV { fwd: w.fwd, fresh: w.fresh, result: None },
        }
    }
}

/// The symbol of the construction of a struct.
pub fn struct_symbol_text(ty: &Ty, fields: &str) -> (r: String)
    ensures
        r@ == struct_symbol(ty@, fields@),
{
    let mut out: String = "struct:".to_owned();
    out.append(ty.to_text().as_str());
    out.append(":");
    out.append(fields);
    out
}

/// The symbol of the read of a field.
pub fn field_symbol_text(struct_ty: &Ty, field: &str) -> (r: String)
    ensures
        r@ == field_symbol(struct_ty@, field@),
{
    let mut out: String = "field:".to_owned();
    out.append(struct_ty.to_text().as_str());
    out.append(":");
    out.append(field);
    out
}

/// The symbol of the construction of an array.
pub fn array_symbol_text(ty: &Ty, count: u64) -> (r: String)
    ensures
        r@ == array_symbol(ty@, count as nat),
{
    let mut out: String = "array:".to_owned();
    out.append(ty.to_text().as_str());
    out.append(":");
    out.append(text::decimal_text(count).as_str());
    out
}

/// The symbol of a pure operation.
fn op_symbol_text(ty: &Ty, op: &PrimOp, count: usize) -> (r: String)
    ensures
        r@ == op_symbol(ty@, op@, count as nat),
{
    match op {
        PrimOp::RawMlirOp { op, attrs } => {
            let mut out: String = op.clone();
            out.append(":");
            out.append(ty.to_text().as_str());
            out.append(":");
            out.append(format_attrs(attrs).as_str());
            out
        },
        PrimOp::Struct(_, fields) => struct_symbol_text(ty, text::join(fields, ",").as_str()),
        PrimOp::Field { struct_ty, field } => field_symbol_text(struct_ty, field.as_str()),
        PrimOp::Array => array_symbol_text(ty, count as u64),
        PrimOp::ArrayRepeat => text::glued("array-repeat:", ty.to_text().as_str()),
        PrimOp::Load { array_ty } => {
            let mut out: String = "load:".to_owned();
            out.append(array_ty.to_text().as_str());
            out.append(":");
            out.append(ty.to_text().as_str());
            out.append(":");
            out.append(text::decimal_text(count as u64).as_str());
            out
        },
        _ => {
            let out: String = String::new();
            assert(out@ =~= Seq::<char>::empty());
            out
        },
    }
}

/// The translation that has found nothing yet.
pub open spec fn nothing_found() -> ForwardV {
    ForwardV {
        nodes: Seq::empty(),
        env: Map::empty(),
        free_vars: Map::empty(),
        external_vars: Map::empty(),
        reached: Seq::empty(),
        call_units: Set::empty(),
        raw_ops: Seq::empty(),
        struct_ops: Seq::empty(),
        field_ops: Seq::empty(),
        array_ops: Seq::empty(),
        array_repeat_ops: Seq::empty(),
        load_ops: Seq::empty(),
        known_types: Map::empty(),
        param_types: Map::empty(),
        next_free: 0,
    }
}

impl Default for Forward {
    fn default() -> (r: Self)
        ensures
            r@ == nothing_found(),
    {
        Forward {
            nodes: Vec::new(),
            env: Table::new(),
            free_vars: Table::new(),
            external_vars: Table::new(),
            reached: Listing::new(),
            call_units: NameSet::new(),
            raw_ops: Listing::new(),
            struct_ops: Listing::new(),
            field_ops: Listing::new(),
            array_ops: Listing::new(),
            array_repeat_ops: Listing::new(),
            load_ops: Listing::new(),
            known_types: Table::new(),
            param_types: Table::new(),
            next_free: 0,
        }
    }
}

impl Forward {
    /// Puts a node after the others.
    fn add_node(&mut self, node: CleaveLang) -> (r: usize)
        ensures
            r == next_place(old(self)@),
            final(self)@ == with_node(old(self)@, node@),
    {
        let place: usize = self.nodes.len();
        self.nodes.push(node);
        place
    }

    /// The place of a value's term.
    pub fn cval_to_id(&mut self, v: &CVal) -> (r: Option<usize>)
        ensures
            r == placed(old(self)@, v@).place,
            final(self)@ == placed(old(self)@, v@).fwd,
    {
        match v {
            CVal::Var(cv) => {
                if let Some(place) = self.env.get(cv) {
                    return Some(*place);
                }
                if let Some(place) = self.external_vars.get(cv) {
                    return Some(*place);
                }
                let digits: String = text::decimal_text(self.next_free as u64);
                let sym: String = text::glued("fv", digits.as_str());
                self.next_free = self.next_free.wrapping_add(1);
                self.free_vars.insert(sym.clone(), CVal::Var(*cv));
                if let Some(ty) = self.param_types.get(cv) {
                    let copy: Ty = ty.dup();
                    self.known_types.insert(sym.clone(), copy);
                }
                let place: usize = self.add_node(CleaveLang::Free(sym));
                self.external_vars.insert(*cv, place);
                Some(place)
            },
            CVal::Int(n) => Some(self.add_node(CleaveLang::Int(*n))),
            CVal::Float(n) => Some(self.add_node(CleaveLang::Float(*n))),
            CVal::Bool(b) => Some(self.add_node(CleaveLang::Bool(*b))),
            _ => None,
        }
    }

    /// The places of the values from `from` up to `upto`, up to the first that has
    /// none.
    pub fn cvals_to_ids(&mut self, vals: &Vec<CVal>, from: usize, upto: usize) -> (r: Option<
        Vec<usize>,
    >)
        requires
            from <= upto <= vals.len(),
        ensures
            ({
                let p = placed_all(
                    old(self)@,
                    views(vals@).subrange(from as int, upto as int),
                );
                &&& final(self)@ == p.fwd
                &&& match r {
                    Some(places) => p.places == Some(places@),
                    None => p.places is None,
                }
            }),
    {
        let ghost all = views(vals@).subrange(from as int, upto as int);
        let mut out: Vec<usize> = Vec::new();
        let mut done: bool = false;
        let mut i: usize = from;
        while i < upto
            invariant
                from <= i <= upto <= vals.len(),
                all == views(vals@).subrange(from as int, upto as int),
                ({
                    let p = placed_first(old(self)@, all, (i - from) as nat);
                    &&& self@ == p.fwd
                    &&& match p.places {
                        Some(places) => !done && places == out@,
                        None => done,
                    }
                }),
            decreases upto - i,
        {
            if !done {
                assert(all[i - from] == vals@[i as int]@);
                match self.cval_to_id(&vals[i]) {
                    Some(place) => {
                        out.push(place);
                    },
                    None => {
                        done = true;
                    },
                }
            }
            i = i + 1;
        }
        if done {
            None
        } else {
            Some(out)
        }
    }

    /// Notes the type of a symbol, unless one is known.
    fn note_type(&mut self, symbol: &String, ty: &Ty)
        ensures
            final(self)@ == with_type(old(self)@, symbol@, ty@),
    {
        if !self.known_types.has(symbol) {
            self.known_types.insert(symbol.clone(), ty.dup());
        }
    }

    /// Notes what a symbol stands for, unless that is known.
    fn note_op(&mut self, symbol: &String, ty: &Ty, op: &PrimOp)
        ensures
            final(self)@ == with_op_noted(old(self)@, symbol@, ty@, op@),
    {
        match op {
            PrimOp::RawMlirOp { op, attrs } => {
                self.raw_ops.note(
                    symbol.clone(),
                    RawOp { op: op.clone(), ty: ty.dup(), attrs: dup_list(attrs) },
                );
            },
            PrimOp::Struct(name, fields) => {
                self.struct_ops.note(
                    symbol.clone(),
                    StructOp { name: name.clone(), fields: dup_list(fields), ty: ty.dup() },
                );
            },
            PrimOp::Field { struct_ty, field } => {
                self.field_ops.note(
                    symbol.clone(),
                    FieldOp { struct_ty: struct_ty.dup(), field: field.clone(), ty: ty.dup() },
                );
            },
            PrimOp::Array => {
                self.array_ops.note(symbol.clone(), ty.dup());
            },
            PrimOp::ArrayRepeat => {
                self.array_repeat_ops.note(symbol.clone(), ty.dup());
            },
            PrimOp::Load { array_ty } => {
                self.load_ops.note(
                    symbol.clone(),
                    LoadOp { array_ty: array_ty.dup(), ty: ty.dup() },
                );
            },
            _ => {},
        }
    }

    /// Puts in a node for an operation and binds a variable to it.
    fn add_op_node(&mut self, var: CVar, symbol: String, places: Vec<usize>)
        ensures
            final(self)@ == with_op_node(old(self)@, var, symbol@, places@),
    {
        let place: usize = self.add_node(CleaveLang::Op(symbol, places));
        self.env.insert(var, place);
    }

    /// Binds variables to places, position by position, from the `skip`th variable.
    fn bind_pairs(&mut self, vars: &Vec<CVar>, skip: usize, places: &Vec<usize>)
        requires
            skip <= vars.len(),
        ensures
            final(self)@ == with_bound(
                old(self)@,
                vars@.subrange(skip as int, vars@.len() as int),
                places@,
            ),
    {
        let ghost tail = vars@.subrange(skip as int, vars@.len() as int);
        let count: usize = if vars.len() - skip < places.len() {
            vars.len() - skip
        } else {
            places.len()
        };
        let mut i: usize = 0;
        while i < count
            invariant
                i <= count,
                skip <= vars.len(),
                count == paired(tail, places@),
                tail == vars@.subrange(skip as int, vars@.len() as int),
                self@ == (ForwardV {
                    env: bound_to(old(self)@.env, tail, places@, i as nat),
                    ..old(self)@
                }),
            decreases count - i,
        {
            self.env.insert(vars[skip + i], places[i]);
            i = i + 1;
        }
    }

    /// Translates an expression as far as it can be, and returns what is left.
    pub fn walk(&mut self, expr: &CExpr, units: &Vec<CTopLevelFn>, fresh: &mut FreshVars) -> (r:
        CExpr)
        ensures
            ({
                let w = walked(
                    expr@,
                    views(units@),
                    old(self)@,
                    *old(fresh),
                    WALK_DEPTH as nat,
                );
                final(self)@ == w.fwd && *final(fresh) == w.fresh && r@ == w.rest
            }),
    {
        self.walk_within(expr, units, fresh, WALK_DEPTH)
    }

    fn walk_within(
        &mut self,
        expr: &CExpr,
        units: &Vec<CTopLevelFn>,
        fresh: &mut FreshVars,
        depth: u32,
    ) -> (r: CExpr)
        ensures
            ({
                let w = walked(expr@, views(units@), old(self)@, *old(fresh), depth as nat);
                final(self)@ == w.fwd && *final(fresh) == w.fresh && r@ == w.rest
            }),
        decreases depth, expr, 3nat, 0nat,
    {
        proof {
            lemma_cexpr_view(*expr);
        }
        match expr {
            CExpr::LetPrim { var, ty, op, args, cont } => {
                if !is_pure_prim_op(op) {
                    return expr.dup();
                }
                assert(views(args@).subrange(0, args@.len() as int) =~= views(args@));
                let places: Vec<usize> = match self.cvals_to_ids(args, 0, args.len()) {
                    Some(places) => places,
                    None => {
                        return expr.dup();
                    },
                };
                proof {
                    lemma_placed_len(old(self)@, views(args@), args@.len());
                }
                let symbol: String = op_symbol_text(ty, op, places.len());
                self.note_op(&symbol, ty, op);
                self.note_type(&symbol, ty);
                self.add_op_node(*var, symbol, places);
                self.walk_within(cont, units, fresh, depth)
            },
            CExpr::Fix { defs, body } => {
                if let Some(unrolled) = self.try_unroll_for_loop(expr, units, fresh, depth) {
                    return unrolled;
                }
                self.walk_call(expr, units, fresh, depth)
            },
            _ => expr.dup(),
        }
    }

    /// Translates a counted loop turn by turn, and what follows it.
    fn try_unroll_for_loop(
        &mut self,
        expr: &CExpr,
        units: &Vec<CTopLevelFn>,
        fresh: &mut FreshVars,
        depth: u32,
    ) -> (r: Option<CExpr>)
        requires
            expr is Fix,
        ensures
            ({
                let w = walked(expr@, views(units@), old(self)@, *old(fresh), depth as nat);
                match r {
                    Some(rest) => final(self)@ == w.fwd && *final(fresh) == w.fresh && rest@
                        == w.rest,
                    None => final(self)@ == old(self)@ && *final(fresh) == *old(fresh) && w
                        == walked_call(
                        expr@,
                        views(units@),
                        old(self)@,
                        *old(fresh),
                        depth as nat,
                    ),
                }
            }),
        decreases depth, expr, 2nat, 1nat,
    {
        proof {
            lemma_cexpr_view(*expr);
        }
        match expr {
            CExpr::Fix { defs, body } => {
                let l = match recognize_loop(defs, body) {
                    Some(l) => l,
                    None => {
                        return None;
                    },
                };
                let mut attempt: Forward = self.dup();
                let mut names: FreshVars = FreshVars {
                    upcoming_var: fresh.upcoming_var,
                    upcoming_label: fresh.upcoming_label,
                };
                let init: Vec<usize> = match attempt.cvals_to_ids(l.args, 1, l.args.len()) {
                    Some(init) => init,
                    None => {
                        return None;
                    },
                };
                let ghost lv = counted_loop(views(defs@), body@)->Some_0;
                match attempt.take_turns(expr, &l, Ghost(lv), init, units, &mut names, depth) {
                    None => None,
                    Some(carried) => {
                        attempt.bind_pairs(l.params, 1, &carried);
                        *self = attempt;
                        *fresh = names;
                        Some(self.walk_within(l.after, units, fresh, depth))
                    },
                }
            },
            _ => None,
        }
    }

    /// Translates the turns of a loop.
    fn take_turns(
        &mut self,
        expr: &CExpr,
        l: &CountedLoop,
        Ghost(lv): Ghost<LoopV>,
        init: Vec<usize>,
        units: &Vec<CTopLevelFn>,
        fresh: &mut FreshVars,
        depth: u32,
    ) -> (r: Option<Vec<usize>>)
        requires
            l.stands_for(lv),
        ensures
            ({
                let t = turned(
                    expr@,
                    lv,
                    lv.start,
                    views(units@),
                    old(self)@,
                    *old(fresh),
                    init@,
                    depth as nat,
                );
                &&& final(self)@ == t.fwd
                &&& *final(fresh) == t.fresh
                &&& match r {
                    Some(carried) => t.carried == Some(carried@),
                    None => t.carried is None,
                }
            }),
        decreases depth, expr, 1nat, 0nat,
    {
        let mut carried: Vec<usize> = init;
        let mut idx: u64 = l.start;
        let ghost goal = turned(
            expr@,
            lv,
            lv.start,
            views(units@),
            old(self)@,
            *old(fresh),
            init@,
            depth as nat,
        );
        while idx < l.end
            invariant
                l.stands_for(lv),
                goal == turned(
                    expr@,
                    lv,
                    lv.start,
                    views(units@),
                    old(self)@,
                    *old(fresh),
                    init@,
                    depth as nat,
                ),
                goal == turned(
                    expr@,
                    lv,
                    idx,
                    views(units@),
                    self@,
                    *fresh,
                    carried@,
                    depth as nat,
                ),
            decreases l.end - idx,
        {
            if depth == 0 {
                return None;
            }
            let count_place: usize = self.add_node(CleaveLang::Int(idx));
            self.env.insert(l.params[0], count_place);
            self.bind_pairs(l.params, 1, &carried);
            let mut map: Table<u32, u32> = Table::new();
            let turn: CExpr = alpha_rename(l.turn, &mut map, fresh);
            let rest: CExpr = self.walk_within(&turn, units, fresh, depth - 1);
            proof {
                lemma_cexpr_view(rest);
            }
            match &rest {
                CExpr::App { func: CVal::Label(target), args } => {
                    if *target != *l.name || args.len() == 0 {
                        return None;
                    }
                    match self.cvals_to_ids(args, 1, args.len()) {
                        Some(places) => {
                            carried = places;
                        },
                        None => {
                            return None;
                        },
                    }
                },
                _ => {
                    return None;
                },
            }
            idx = idx + 1;
        }
        Some(carried)
    }

    /// Translates a call.
    fn walk_call(
        &mut self,
        expr: &CExpr,
        units: &Vec<CTopLevelFn>,
        fresh: &mut FreshVars,
        depth: u32,
    ) -> (r: CExpr)
        ensures
            ({
                let w = walked_call(expr@, views(units@), old(self)@, *old(fresh), depth as nat);
                final(self)@ == w.fwd && *final(fresh) == w.fresh && r@ == w.rest
            }),
        decreases depth, expr, 2nat, 0nat,
    {
        proof {
            lemma_cexpr_view(*expr);
        }
        match expr {
            CExpr::Fix { defs, body } => {
                let call = match recognize_real_call(defs, body) {
                    Some(call) => call,
                    None => {
                        return expr.dup();
                    },
                };
                let callee = match find_unit(units, call.unit_name) {
                    Some(callee) => callee,
                    None => {
                        return expr.dup();
                    },
                };
                if is_straight_line(&callee.def.body) {
                    match self.cvals_to_ids(call.args, 0, call.args.len() - 1) {
                        None => expr.dup(),
                        Some(places) => {
                            self.add_op_node(call.result_var, call.unit_name.clone(), places);
                            self.call_units.add_name(call.unit_name);
                            if let Some(origin) = &callee.origin {
                                self.reached.put(
                                    call.unit_name.clone(),
                                    (origin.0.clone(), origin.1.clone()),
                                );
                            }
                            self.walk_within(call.rest, units, fresh, depth)
                        },
                    }
                } else if is_transparent_chain(&callee.def.body, units, &NameSet::new()) {
                    match self.cvals_to_ids(call.args, 0, call.args.len() - 1) {
                        None => expr.dup(),
                        Some(places) => match self.walk_inline(
                            expr,
                            callee,
                            places,
                            units,
                            fresh,
                            depth,
                        ) {
                            None => expr.dup(),
                            Some(place) => {
                                self.env.insert(call.result_var, place);
                                self.walk_within(call.rest, units, fresh, depth)
                            },
                        },
                    }
                } else {
                    expr.dup()
                }
            },
            _ => expr.dup(),
        }
    }

    /// Translates the body of a called function in place.
    fn walk_inline(
        &mut self,
        expr: &CExpr,
        callee: &CTopLevelFn,
        places: Vec<usize>,
        units: &Vec<CTopLevelFn>,
        fresh: &mut FreshVars,
        depth: u32,
    ) -> (r: Option<usize>)
        ensures
            ({
                let i = inlined(
                    expr@,
                    callee@,
                    places@,
                    views(units@),
                    old(self)@,
                    *old(fresh),
                    depth as nat,
                );
                final(self)@ == i.fwd && *final(fresh) == i.fresh && r == i.result
            }),
        decreases depth, expr, 1nat, 0nat,
    {
        if depth == 0 {
            return None;
        }
        let count: usize = if callee.def.params.len() == 0 {
            0
        } else {
            callee.def.params.len() - 1
        };
        let mut map: Table<u32, u32> = Table::new();
        let params: Vec<u32> = rename_params(&callee.def.params, count, &mut map, fresh);
        let body: CExpr = alpha_rename(&callee.def.body, &mut map, fresh);
        assert(params@.subrange(0, params@.len() as int) =~= params@);
        self.bind_pairs(&params, 0, &places);
        let rest: CExpr = self.walk_within(&body, units, fresh, depth - 1);
        proof {
            lemma_cexpr_view(rest);
        }
        match &rest {
            CExpr::App { args, .. } => {
                if args.len() == 0 {
                    return None;
                }
                assert(views(args@).last() == args@[args@.len() - 1]@);
                self.cval_to_id(&args[args.len() - 1])
            },
            _ => None,
        }
    }
}

/// Each value that has a place has one place.
pub proof fn lemma_placed_len(fwd: ForwardV, vals: Seq<CValV>, n: nat)
    requires
        n <= vals.len(),
    ensures
        placed_first(fwd, vals, n).places matches Some(places) ==> places.len() == n,
    decreases n,
{
    if n > 0 {
        lemma_placed_len(fwd, vals, (n - 1) as nat);
    }
}

} // verus!
