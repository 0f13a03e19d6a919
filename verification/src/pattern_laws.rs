//! What patterns mean, and that the rules of axioms hold where the axioms do.

use vstd::prelude::*;

use crate::ast::{Expr, ExprKind, FnSig};
use crate::infer_types::path_name;
use crate::numerals::{digit_of, lemma_parsed, numeral};
use crate::patterns::{
    call_type, drawn, drawn_first, drawn_node, is_float_name, owner_of, unit_text, DIFF_VAR,
    DraftV, LawV, PatNodeV, RewriteSideV, RewriteV,
};
use crate::registry::{algebra_from, declaring_from, fn_from, Registry};
use crate::table::{group_views, views};

verus! {

broadcast use group_views;

// ---- what patterns mean ----

/// What the symbols and literals of terms are.
#[verifier::reject_recursive_types(T)]
pub struct Terms<T> {
    pub op: spec_fn(Seq<char>, Seq<T>) -> T,
    pub int: spec_fn(nat) -> T,
    /// A floating-point number, by its bits.
    pub float: spec_fn(u64) -> T,
    /// A floating-point number, as it is written.
    pub float_text: spec_fn(Seq<char>) -> T,
    pub truth: spec_fn(bool) -> T,
}

/// What the variables of patterns stand for.
pub type Vars<T> = spec_fn(Seq<char>) -> T;

/// What the node at a place of a pattern means, where its parts stand before it.
pub open spec fn term_at<T>(m: Terms<T>, env: Vars<T>, ast: Seq<PatNodeV>, i: nat) -> Option<T>
    decreases i + 1, 0nat,
{
    if i >= ast.len() {
        None
    } else {
        match ast[i as int] {
            PatNodeV::Var(name) => Some(env(name)),
            PatNodeV::Op(sym, places) => match terms_at(m, env, ast, places, places.len(), i) {
                Some(vs) => Some((m.op)(sym, vs)),
                None => None,
            },
            PatNodeV::Int(n) => Some((m.int)(n as nat)),
            PatNodeV::Float(n) => Some((m.float)(n)),
            PatNodeV::FloatText(t) => Some((m.float_text)(t)),
            PatNodeV::Bool(b) => Some((m.truth)(b)),
        }
    }
}

/// What the nodes at the first `n` of some places mean, all of them before `i`.
pub open spec fn terms_at<T>(
    m: Terms<T>,
    env: Vars<T>,
    ast: Seq<PatNodeV>,
    places: Seq<usize>,
    n: nat,
    i: nat,
) -> Option<Seq<T>>
    decreases i, n + 1,
{
    if n == 0 || n > places.len() {
        Some(Seq::empty())
    } else if places[n - 1] >= i {
        None
    } else {
        match (
            terms_at(m, env, ast, places, (n - 1) as nat, i),
            term_at(m, env, ast, places[n - 1] as nat),
        ) {
            (Some(vs), Some(v)) => Some(vs.push(v)),
            _ => None,
        }
    }
}

/// What a pattern means: what its last node does.
pub open spec fn pattern_means<T>(m: Terms<T>, env: Vars<T>, ast: Seq<PatNodeV>) -> Option<T> {
    if ast.len() == 0 {
        None
    } else {
        term_at(m, env, ast, (ast.len() - 1) as nat)
    }
}

/// Whether both sides of a rule mean the same, whatever its variables stand for.
pub open spec fn rule_holds<T>(m: Terms<T>, r: RewriteV) -> bool {
    r.rhs matches RewriteSideV::Pattern(rhs) && forall|env: Vars<T>|
        pattern_means(m, env, r.lhs) is Some && #[trigger] pattern_means(m, env, r.lhs)
            == pattern_means(m, env, rhs)
}

/// Whether a pattern starts with another.
pub open spec fn begins(ast: Seq<PatNodeV>, with: Seq<PatNodeV>) -> bool {
    &&& with.len() <= ast.len()
    &&& forall|i: int| 0 <= i < with.len() ==> #[trigger] ast[i] == with[i]
}

/// More nodes do not change what the nodes before them mean.
pub proof fn lemma_more_nodes<T>(
    m: Terms<T>,
    env: Vars<T>,
    ast: Seq<PatNodeV>,
    more: Seq<PatNodeV>,
    i: nat,
)
    requires
        begins(more, ast),
        i < ast.len(),
    ensures
        term_at(m, env, more, i) == term_at(m, env, ast, i),
    decreases i + 1, 0nat,
{
    assert(more[i as int] == ast[i as int]);
    if let PatNodeV::Op(_, places) = ast[i as int] {
        lemma_more_nodes_at(m, env, ast, more, places, places.len(), i);
    }
}

proof fn lemma_more_nodes_at<T>(
    m: Terms<T>,
    env: Vars<T>,
    ast: Seq<PatNodeV>,
    more: Seq<PatNodeV>,
    places: Seq<usize>,
    n: nat,
    i: nat,
)
    requires
        begins(more, ast),
        i < ast.len(),
    ensures
        terms_at(m, env, more, places, n, i) == terms_at(m, env, ast, places, n, i),
    decreases i, n + 1,
{
    if !(n == 0 || n > places.len() || places[n - 1] >= i) {
        lemma_more_nodes_at(m, env, ast, more, places, (n - 1) as nat, i);
        lemma_more_nodes(m, env, ast, more, places[n - 1] as nat);
    }
}

/// Nodes at places, told by their values.
pub proof fn lemma_values_at<T>(
    m: Terms<T>,
    env: Vars<T>,
    ast: Seq<PatNodeV>,
    places: Seq<usize>,
    vs: Seq<T>,
    n: nat,
    i: nat,
)
    requires
        n <= places.len() == vs.len(),
        forall|k: int|
            0 <= k < places.len() ==> (#[trigger] places[k]) < i && term_at(
                m,
                env,
                ast,
                places[k] as nat,
            ) == Some(vs[k]),
    ensures
        terms_at(m, env, ast, places, n, i) == Some(vs.take(n as int)),
    decreases n,
{
    if n == 0 {
        assert(vs.take(0) =~= Seq::<T>::empty());
    } else {
        lemma_values_at(m, env, ast, places, vs, (n - 1) as nat, i);
        assert(places[n - 1] < i);
        assert(vs.take(n - 1).push(vs[n - 1]) =~= vs.take(n as int));
    }
}

/// An operation on nodes that stand before it.
pub proof fn lemma_op_drawn<T>(
    m: Terms<T>,
    env: Vars<T>,
    ast: Seq<PatNodeV>,
    sym: Seq<char>,
    places: Seq<usize>,
    vs: Seq<T>,
)
    requires
        places.len() == vs.len(),
        forall|k: int|
            0 <= k < places.len() ==> (#[trigger] places[k]) < ast.len() && term_at(
                m,
                env,
                ast,
                places[k] as nat,
            ) == Some(vs[k]),
    ensures
        ({
            let all = ast.push(PatNodeV::Op(sym, places));
            begins(all, ast) && term_at(m, env, all, ast.len()) == Some((m.op)(sym, vs))
        }),
{
    let all = ast.push(PatNodeV::Op(sym, places));
    assert forall|k: int| 0 <= k < places.len() implies (#[trigger] places[k]) < ast.len()
        && term_at(m, env, all, places[k] as nat) == Some(vs[k]) by {
        lemma_more_nodes(m, env, ast, all, places[k] as nat);
    }
    lemma_values_at(m, env, all, places, vs, vs.len(), ast.len());
    assert(vs.take(vs.len() as int) =~= vs);
}

// ---- what laws mean ----

/// Whether an algebra declares a function of the name with that many parameters. Of several
/// functions of a name, the first counts.
pub open spec fn declares_fn(fns: Seq<FnSig>, name: Seq<char>, arity: nat) -> bool {
    exists|k: int|
        0 <= k < fns.len() && (#[trigger] fns[k]).name@ == name && fns[k].params@.len() == arity
            && forall|j: int| 0 <= j < k ==> (#[trigger] fns[j]).name@ != name
}

/// Whether the first algebra of the name declares a function so.
pub open spec fn algebra_declares(
    r: Registry,
    algebra: Seq<char>,
    name: Seq<char>,
    arity: nat,
) -> bool {
    exists|i: int|
        0 <= i < r.algebras@.len() && (#[trigger] r.algebras@[i]).name@ == algebra && declares_fn(
            r.algebras@[i].fns@,
            name,
            arity,
        ) && forall|j: int| 0 <= j < i ==> (#[trigger] r.algebras@[j]).name@ != algebra
}

/// Whether the algebra at a place is the only one that declares a function so.
pub open spec fn only_declarer(r: Registry, i: int, name: Seq<char>, arity: nat) -> bool {
    &&& 0 <= i < r.algebras@.len()
    &&& declares_fn(r.algebras@[i].fns@, name, arity)
    &&& forall|j: int|
        0 <= j < r.algebras@.len() && j != i ==> !declares_fn(
            (#[trigger] r.algebras@[j]).fns@,
            name,
            arity,
        )
}

/// What the functions of algebras are: those of the law's own algebra for given types, and
/// those of others.
#[verifier::reject_recursive_types(T)]
pub struct Functions<T> {
    pub own: spec_fn(Seq<char>, Seq<char>, Seq<T>) -> T,
    pub other: spec_fn(Seq<char>, Seq<char>, Seq<T>) -> T,
}

/// Whether the symbols of functions are what the functions are.
pub open spec fn names_functions<T>(m: Terms<T>, g: Functions<T>, algebra: Seq<char>) -> bool {
    forall|o: Seq<char>, method: Seq<char>, ty: Seq<char>, vs: Seq<T>|
        #![trigger (m.op)(unit_text(o, method, ty), vs)]
        (m.op)(o + "::"@ + method + "<"@ + ty + ">"@, vs) == if o == algebra {
            (g.own)(method, ty, vs)
        } else {
            (g.other)(o, method, vs)
        }
}

/// Whether the variables of patterns stand for parameters, and the one that derivatives are
/// taken by for `x`.
pub open spec fn names_params<T>(env: Vars<T>, params: Vars<T>, x: T) -> bool {
    &&& forall|n: Seq<char>| #[trigger] env("?"@ + n) == params(n)
    &&& env("?__diff_x"@) == x
}

/// What a side of a law means: a parameter is what it stands for, a number what its text
/// denotes, a call what the function is of its arguments, and `d(..)`, in a rule for
/// derivatives, the derivative by `x`.
pub open spec fn law_means<T>(
    m: Terms<T>,
    g: Functions<T>,
    params: Vars<T>,
    x: T,
    e: Expr,
    law: LawV,
    r: Registry,
) -> Option<T>
    decreases e, 0nat,
{
    match e.kind {
        ExprKind::Path(p) => if p.segments@.len() == 1 {
            Some(params(p.segments@[0]@))
        } else {
            None
        },
        ExprKind::NumberLit { text, .. } => if law.ty == "f32"@ || law.ty == "f64"@ {
            Some((m.float_text)(text@))
        } else {
            match numeral(text@) {
                Some(n) => Some((m.int)(n)),
                None => None,
            }
        },
        ExprKind::BoolLit(b) => Some((m.truth)(b)),
        ExprKind::Call(p, _, args, _) => if p.segments@.len() != 1 {
            None
        } else {
            let name = p.segments@[0]@;
            match law_means_first(m, g, params, x, args, args@.len(), law, r) {
                None => None,
                Some(vs) => if name == "d"@ && law.differentiates {
                    if vs.len() == 1 {
                        Some((m.op)("derivative"@, seq![vs[0], x]))
                    } else {
                        None
                    }
                } else if algebra_declares(r, law.algebra, name, args@.len()) {
                    Some((g.own)(name, law.ty, vs))
                } else if exists|i: int| only_declarer(r, i, name, args@.len()) {
                    let i = choose|i: int| only_declarer(r, i, name, args@.len());
                    if r.algebras@[i].name@ == law.algebra {
                        Some((g.own)(name, law.ty, vs))
                    } else {
                        Some((g.other)(r.algebras@[i].name@, name, vs))
                    }
                } else {
                    None
                },
            }
        },
        _ => None,
    }
}

pub open spec fn law_means_first<T>(
    m: Terms<T>,
    g: Functions<T>,
    params: Vars<T>,
    x: T,
    args: Vec<Expr>,
    n: nat,
    law: LawV,
    r: Registry,
) -> Option<Seq<T>>
    decreases args, n,
{
    if n == 0 || n > args@.len() {
        Some(Seq::empty())
    } else {
        match (
            law_means_first(m, g, params, x, args, (n - 1) as nat, law, r),
            law_means(m, g, params, x, args@[n - 1], law, r),
        ) {
            (Some(vs), Some(v)) => Some(vs.push(v)),
            _ => None,
        }
    }
}

// ---- who declares a function ----

proof fn lemma_fn_from(fns: Seq<FnSig>, i: nat, name: Seq<char>)
    requires
        forall|j: int| 0 <= j < i && j < fns.len() ==> (#[trigger] fns[j]).name@ != name,
    ensures
        match fn_from(fns, i, name) {
            Some(k) => 0 <= k < fns.len() && fns[k].name@ == name && forall|j: int|
                0 <= j < k ==> (#[trigger] fns[j]).name@ != name,
            None => forall|j: int| 0 <= j < fns.len() ==> (#[trigger] fns[j]).name@ != name,
        },
    decreases fns.len() - i,
{
    if i < fns.len() && fns[i as int].name@ != name {
        lemma_fn_from(fns, i + 1, name);
    }
}

/// The function that is found for a name is the first of that name.
pub proof fn lemma_declares_fn(fns: Seq<FnSig>, name: Seq<char>, arity: nat)
    ensures
        declares_fn(fns, name, arity) <==> (fn_from(fns, 0, name) matches Some(k)
            && fns[k].params@.len() == arity),
{
    lemma_fn_from(fns, 0, name);
    if let Some(k) = fn_from(fns, 0, name) {
        assert(fns[k].name@ == name);
        if declares_fn(fns, name, arity) {
            let j = choose|j: int|
                0 <= j < fns.len() && (#[trigger] fns[j]).name@ == name && fns[j].params@.len()
                    == arity && forall|l: int| 0 <= l < j ==> (#[trigger] fns[l]).name@ != name;
            assert(j == k) by {
                if j < k {
                    assert(fns[j].name@ != name);
                }
                if k < j {
                    assert(fns[k].name@ != name);
                }
            }
        }
    }
}

proof fn lemma_algebra_from(r: Registry, i: nat, name: Seq<char>)
    requires
        forall|j: int| 0 <= j < i && j < r.algebras@.len() ==> (#[trigger] r.algebras@[j]).name@
            != name,
    ensures
        match algebra_from(r, i, name) {
            Some(k) => 0 <= k < r.algebras@.len() && r.algebras@[k].name@ == name && forall|j: int|
                0 <= j < k ==> (#[trigger] r.algebras@[j]).name@ != name,
            None => forall|j: int|
                0 <= j < r.algebras@.len() ==> (#[trigger] r.algebras@[j]).name@ != name,
        },
    decreases r.algebras@.len() - i,
{
    if i < r.algebras@.len() && r.algebras@[i as int].name@ != name {
        lemma_algebra_from(r, i + 1, name);
    }
}

proof fn lemma_algebra_declares(r: Registry, algebra: Seq<char>, name: Seq<char>, arity: nat)
    ensures
        algebra_declares(r, algebra, name, arity) <==> (r.sig_of(algebra, name) matches Some(sig)
            && sig.params@.len() == arity),
{
    lemma_algebra_from(r, 0, algebra);
    if let Some(k) = algebra_from(r, 0, algebra) {
        lemma_declares_fn(r.algebras@[k].fns@, name, arity);
        if algebra_declares(r, algebra, name, arity) {
            let i = choose|i: int|
                0 <= i < r.algebras@.len() && (#[trigger] r.algebras@[i]).name@ == algebra
                    && declares_fn(r.algebras@[i].fns@, name, arity) && forall|j: int|
                    0 <= j < i ==> (#[trigger] r.algebras@[j]).name@ != algebra;
            assert(i == k) by {
                if i < k {
                    assert(r.algebras@[i].name@ != algebra);
                }
                if k < i {
                    assert(r.algebras@[k].name@ != algebra);
                }
            }
        }
        if r.sig_of(algebra, name) matches Some(sig) && sig.params@.len() == arity {
            assert(r.algebras@[k].name@ == algebra);
        }
    }
}

/// Whether the algebra at a place declares a function so.
spec fn declared_at(r: Registry, i: int, name: Seq<char>, arity: nat) -> bool {
    declares_fn(r.algebras@[i].fns@, name, arity)
}

proof fn lemma_declaring(r: Registry, i: nat, name: Seq<char>, arity: nat)
    requires
        i <= r.algebras@.len(),
    ensures
        ({
            let found = declaring_from(r, i, name, arity);
            &&& found.len() == 0 <==> forall|j: int|
                i <= j < r.algebras@.len() ==> !#[trigger] declared_at(r, j, name, arity)
            &&& found.len() == 1 ==> exists|j: int|
                i <= j < r.algebras@.len() && #[trigger] declared_at(r, j, name, arity) && found[0]
                    == r.algebras@[j].name@ && forall|l: int|
                    i <= l < r.algebras@.len() && l != j ==> !#[trigger] declared_at(
                        r,
                        l,
                        name,
                        arity,
                    )
            &&& found.len() > 1 ==> exists|j: int, l: int|
                i <= j < l < r.algebras@.len() && #[trigger] declared_at(r, j, name, arity)
                    && #[trigger] declared_at(r, l, name, arity)
        }),
    decreases r.algebras@.len() - i,
{
    if i < r.algebras@.len() {
        lemma_declaring(r, i + 1, name, arity);
        let rest = declaring_from(r, i + 1, name, arity);
        let found = declaring_from(r, i, name, arity);
        lemma_declares_fn(r.algebras@[i as int].fns@, name, arity);
        if declared_at(r, i as int, name, arity) {
            assert(found.len() == rest.len() + 1);
            if rest.len() > 0 {
                if rest.len() == 1 {
                    let j = choose|j: int|
                        i + 1 <= j < r.algebras@.len() && #[trigger] declared_at(
                            r,
                            j,
                            name,
                            arity,
                        ) && rest[0] == r.algebras@[j].name@ && forall|l: int|
                            i + 1 <= l < r.algebras@.len() && l != j ==> !#[trigger] declared_at(
                                r,
                                l,
                                name,
                                arity,
                            );
                    assert(declared_at(r, i as int, name, arity) && declared_at(r, j, name, arity));
                }
            } else {
                assert(found[0] == r.algebras@[i as int].name@);
            }
        } else {
            assert(found == rest);
        }
    }
}

/// The algebra whose function a law calls is the law's own, where that declares the function
/// with that many parameters, and otherwise the only one that does.
pub proof fn lemma_owner(law: LawV, r: Registry, name: Seq<char>, arity: nat)
    ensures
        match owner_of(law, r, name, arity) {
            Some(o) => if algebra_declares(r, law.algebra, name, arity) {
                o == law.algebra
            } else {
                exists|i: int| only_declarer(r, i, name, arity) && o == r.algebras@[i].name@
            },
            None => !algebra_declares(r, law.algebra, name, arity) && forall|i: int|
                !only_declarer(r, i, name, arity),
        },
{
    lemma_algebra_declares(r, law.algebra, name, arity);
    lemma_declaring(r, 0, name, arity);
    let found = declaring_from(r, 0, name, arity);
    if !algebra_declares(r, law.algebra, name, arity) {
        if found.len() == 1 {
            let j = choose|j: int|
                0 <= j < r.algebras@.len() && #[trigger] declared_at(r, j, name, arity) && found[0]
                    == r.algebras@[j].name@ && forall|l: int|
                    0 <= l < r.algebras@.len() && l != j ==> !#[trigger] declared_at(
                        r,
                        l,
                        name,
                        arity,
                    );
            assert forall|l: int| 0 <= l < r.algebras@.len() && l != j implies !declares_fn(
                (#[trigger] r.algebras@[l]).fns@,
                name,
                arity,
            ) by {
                assert(!declared_at(r, l, name, arity));
            }
            assert(only_declarer(r, j, name, arity));
        } else {
            assert forall|i: int| !only_declarer(r, i, name, arity) by {
                if only_declarer(r, i, name, arity) {
                    assert(declared_at(r, i, name, arity));
                    let (j, l) = choose|j: int, l: int|
                        0 <= j < l < r.algebras@.len() && #[trigger] declared_at(r, j, name, arity)
                            && #[trigger] declared_at(r, l, name, arity);
                    assert(r.algebras@[j].name@ == r.algebras@[j].name@);
                    assert(r.algebras@[l].name@ == r.algebras@[l].name@);
                }
            }
        }
    }
}

proof fn lemma_one_declarer(r: Registry, i: int, j: int, name: Seq<char>, arity: nat)
    requires
        only_declarer(r, i, name, arity),
        only_declarer(r, j, name, arity),
    ensures
        i == j,
{
    if i != j {
        assert(!declares_fn(r.algebras@[i].fns@, name, arity));
    }
}

// ---- drawing keeps what laws mean ----

proof fn lemma_single(p: crate::ast::Path)
    requires
        p.segments@.len() == 1,
    ensures
        path_name(p) == p.segments@[0]@,
{
    let parts = views(p.segments@);
    assert(parts.len() == 1);
    assert(parts[0] == p.segments@[0]@);
}

/// A pattern that is drawn for a side of a law means what the side means. What was drawn
/// before stays.
pub proof fn lemma_drawn_means<T>(
    m: Terms<T>,
    g: Functions<T>,
    env: Vars<T>,
    params: Vars<T>,
    x: T,
    e: Expr,
    law: LawV,
    r: Registry,
    draft: DraftV,
)
    requires
        names_functions(m, g, law.algebra),
        names_params(env, params, x),
        drawn(e, law, r, draft) matches Some(d) && d.draft.ast.len() <= usize::MAX,
        law_means(m, g, params, x, e, law, r) is Some,
    ensures
        ({
            let d = drawn(e, law, r, draft)->0;
            &&& begins(d.draft.ast, draft.ast)
            &&& d.place == d.draft.ast.len() - 1
            &&& d.draft.ast.len() > draft.ast.len()
            &&& term_at(m, env, d.draft.ast, d.place as nat) == law_means(m, g, params, x, e, law, r)
        }),
    decreases e, 0nat,
{
    let d = drawn(e, law, r, draft)->0;
    match e.kind {
        ExprKind::Path(p) => {
            lemma_single(p);
            assert(env("?"@ + path_name(p)) == params(path_name(p)));
        },
        ExprKind::NumberLit { text, .. } => {
            if !is_float_name(law.ty) {
                lemma_parsed(text@);
                assert(digit_of(text@[0]) is Some);
            }
        },
        ExprKind::Call(p, _, args, _) => {
            lemma_single(p);
            let name = path_name(p);
            let vs = law_means_first(m, g, params, x, args, args@.len(), law, r)->0;
            if name == "d"@ && law.differentiates {
                let inner = drawn(args@[0], law, r, draft)->0;
                lemma_grown(e, law, r, draft);
                let mid = drawn_node(inner.draft, PatNodeV::Var(DIFF_VAR@), None);
                assert(mid.draft.ast.len() == inner.draft.ast.len() + 1);
                assert(law_means_first(m, g, params, x, args, 0, law, r) == Some(Seq::<T>::empty()));
                let v = law_means(m, g, params, x, args@[0], law, r)->0;
                assert(vs == Seq::<T>::empty().push(v));
                assert(vs[0] == v);
                lemma_drawn_means(m, g, env, params, x, args@[0], law, r, draft);
                lemma_more_nodes(m, env, inner.draft.ast, mid.draft.ast, inner.place as nat);
                let places = seq![inner.place, mid.place];
                let vals = seq![v, x];
                assert forall|k: int| 0 <= k < places.len() implies (#[trigger] places[k])
                    < mid.draft.ast.len() && term_at(m, env, mid.draft.ast, places[k] as nat)
                    == Some(vals[k]) by {
                    if k == 0 {
                        assert(places[k] == inner.place);
                    } else {
                        assert(places[k] == mid.place);
                    }
                }
                lemma_op_drawn(m, env, mid.draft.ast, "derivative"@, places, vals);
            } else {
                let owner = owner_of(law, r, name, args@.len())->0;
                let all = drawn_first(args, args@.len(), law, r, draft)->0;
                assert(d.draft.ast.len() == all.draft.ast.len() + 1);
                lemma_drawn_first_means(
                    m,
                    g,
                    env,
                    params,
                    x,
                    args,
                    args@.len(),
                    law,
                    r,
                    draft,
                );
                let ty = call_type(law, owner, all.tys)->0;
                let sym = unit_text(owner, name, ty);
                lemma_op_drawn(m, env, all.draft.ast, sym, all.places, vs);
                lemma_owner(law, r, name, args@.len());
                if !algebra_declares(r, law.algebra, name, args@.len()) {
                    let i = choose|i: int|
                        only_declarer(r, i, name, args@.len()) && owner == r.algebras@[i].name@;
                    let j = choose|i: int| only_declarer(r, i, name, args@.len());
                    lemma_one_declarer(r, i, j, name, args@.len());
                }
                assert((m.op)(sym, vs) == if owner == law.algebra {
                    (g.own)(name, ty, vs)
                } else {
                    (g.other)(owner, name, vs)
                });
            }
        },
        _ => {},
    }
}

/// Drawing only adds nodes.
proof fn lemma_grown(e: Expr, law: LawV, r: Registry, draft: DraftV)
    ensures
        drawn(e, law, r, draft) matches Some(d) ==> begins(d.draft.ast, draft.ast)
            && d.draft.ast.len() > draft.ast.len(),
    decreases e, 0nat,
{
    if let ExprKind::Call(p, _, args, _) = e.kind {
        if path_name(p) == "d"@ && law.differentiates {
            if args@.len() == 1 {
                lemma_grown(args@[0], law, r, draft);
            }
        } else {
            lemma_grown_first(args, args@.len(), law, r, draft);
        }
    }
}

proof fn lemma_grown_first(args: Vec<Expr>, n: nat, law: LawV, r: Registry, draft: DraftV)
    ensures
        drawn_first(args, n, law, r, draft) matches Some(all) ==> begins(
            all.draft.ast,
            draft.ast,
        ),
    decreases args, n,
{
    if !(n == 0 || n > args@.len()) {
        lemma_grown_first(args, (n - 1) as nat, law, r, draft);
        if let Some(before) = drawn_first(args, (n - 1) as nat, law, r, draft) {
            lemma_grown(args@[n - 1], law, r, before.draft);
        }
    }
}

proof fn lemma_drawn_first_means<T>(
    m: Terms<T>,
    g: Functions<T>,
    env: Vars<T>,
    params: Vars<T>,
    x: T,
    args: Vec<Expr>,
    n: nat,
    law: LawV,
    r: Registry,
    draft: DraftV,
)
    requires
        names_functions(m, g, law.algebra),
        names_params(env, params, x),
        n <= args@.len(),
        drawn_first(args, n, law, r, draft) matches Some(all) && all.draft.ast.len() < usize::MAX,
        law_means_first(m, g, params, x, args, n, law, r) is Some,
    ensures
        ({
            let all = drawn_first(args, n, law, r, draft)->0;
            let vs = law_means_first(m, g, params, x, args, n, law, r)->0;
            &&& begins(all.draft.ast, draft.ast)
            &&& all.places.len() == n
            &&& vs.len() == n
            &&& forall|k: int|
                0 <= k < n ==> (#[trigger] all.places[k]) < all.draft.ast.len() && term_at(
                    m,
                    env,
                    all.draft.ast,
                    all.places[k] as nat,
                ) == Some(vs[k])
        }),
    decreases args, n,
{
    if n > 0 {
        let before = drawn_first(args, (n - 1) as nat, law, r, draft)->0;
        let one = drawn(args@[n - 1], law, r, before.draft)->0;
        let all = drawn_first(args, n, law, r, draft)->0;
        lemma_grown(args@[n - 1], law, r, before.draft);
        lemma_drawn_first_means(m, g, env, params, x, args, (n - 1) as nat, law, r, draft);
        lemma_drawn_means(m, g, env, params, x, args@[n - 1], law, r, before.draft);
        let vs = law_means_first(m, g, params, x, args, n, law, r)->0;
        let vs0 = law_means_first(m, g, params, x, args, (n - 1) as nat, law, r)->0;
        assert forall|k: int| 0 <= k < n implies (#[trigger] all.places[k]) < all.draft.ast.len()
            && term_at(m, env, all.draft.ast, all.places[k] as nat) == Some(vs[k]) by {
            if k < n - 1 {
                assert(all.places[k] == before.places[k]);
                lemma_more_nodes(
                    m,
                    env,
                    before.draft.ast,
                    all.draft.ast,
                    before.places[k] as nat,
                );
                assert(vs[k] == vs0[k]);
            } else {
                assert(all.places[k] == one.place);
            }
        }
    }
}

} // verus!
