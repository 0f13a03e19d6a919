//! What holds of types that are written one after the other: splitting the text at its
//! commas gives back the texts of the types.

use vstd::prelude::*;

use crate::const_eval::ConstValue;
use crate::text::{decimal, digit_char, joined};
use crate::text_parts::{
    change_at, comma_parts, depth_change, is_space, parts_from, space_end, trimmed, trimmed_end,
};
use crate::ty::TyV;
use crate::types::{const_text, ty_text, ty_texts, tys_text};

verus! {

/// The depth of brackets after the first `n` characters.
pub open spec fn depth_to(s: Seq<char>, n: nat) -> int
    decreases n,
{
    if n == 0 || n > s.len() {
        0
    } else {
        depth_to(s, (n - 1) as nat) + change_at(s, n - 1)
    }
}

/// Whether every bracket of a text is closed in it, and none that is not opened in it. It
/// does not end within an arrow.
pub open spec fn tidy(s: Seq<char>) -> bool {
    &&& depth_to(s, s.len()) == 0
    &&& forall|n: nat| n <= s.len() ==> #[trigger] depth_to(s, n) >= 0
    &&& s.len() > 0 ==> s.last() != '-'
}

/// Whether a text holds no comma outside its brackets.
pub open spec fn sealed(s: Seq<char>) -> bool {
    forall|n: nat| n < s.len() && s[n as int] == ',' ==> #[trigger] depth_to(s, n) > 0
}

/// Whether a text can stand in a list: its brackets match, its commas are inside them, and
/// no white space is at its ends.
pub open spec fn neat(s: Seq<char>) -> bool {
    &&& tidy(s)
    &&& sealed(s)
    &&& s.len() > 0
    &&& !is_space(s[0])
    &&& !is_space(s.last())
}

/// Whether every name in a type can stand in a list.
pub open spec fn neat_names(t: TyV) -> bool
    decreases t,
{
    match t {
        TyV::Con(name) => neat(name),
        TyV::PackResolved(elems) => forall|i: int|
            0 <= i < elems.len() ==> neat_names(#[trigger] elems[i]),
        TyV::App(name, args) => neat(name) && forall|i: int|
            0 <= i < args.len() ==> neat_names(#[trigger] args[i]),
        TyV::Fn(params, ret) => neat_names(*ret) && forall|i: int|
            0 <= i < params.len() ==> neat_names(#[trigger] params[i]),
        TyV::Array(elem, size) => neat_names(*elem) && neat_names(*size),
        TyV::ConstExpr(op, x, y) => neat(op) && neat_names(*x) && neat_names(*y),
        _ => true,
    }
}

/// Whether a type is written as one: it is no pack of types, nor a function to one.
pub open spec fn written_as_one(t: TyV) -> bool
    decreases t,
{
    match t {
        TyV::PackResolved(_) => false,
        TyV::Fn(_, ret) => written_as_one(*ret),
        _ => true,
    }
}

/// A text of characters that are no brackets, commas or white space, nor part of an arrow.
spec fn bare(s: Seq<char>) -> bool {
    forall|i: int| 0 <= i < s.len() ==> bare_char(#[trigger] s[i])
}

spec fn bare_char(c: char) -> bool {
    depth_change(c) == 0 && c != ',' && c != '-' && !is_space(c)
}

proof fn lemma_bare(s: Seq<char>, n: nat)
    requires
        bare(s),
        n <= s.len(),
    ensures
        depth_to(s, n) == 0,
    decreases n,
{
    if n > 0 {
        lemma_bare(s, (n - 1) as nat);
        assert(bare_char(s[n - 1]));
    }
}

proof fn lemma_bare_is_neat(s: Seq<char>)
    requires
        bare(s),
    ensures
        tidy(s),
        sealed(s),
        s.len() > 0 ==> neat(s),
{
    assert forall|n: nat| n <= s.len() implies #[trigger] depth_to(s, n) == 0 by {
        lemma_bare(s, n);
    }
    if s.len() > 0 {
        assert(bare_char(s[0]));
        assert(bare_char(s.last()));
    }
    assert forall|n: nat| n < s.len() && s[n as int] == ',' implies #[trigger] depth_to(s, n)
        > 0 by {
        assert(bare_char(s[n as int]));
    }
}

/// The depth within two texts that are put together.
proof fn lemma_depth_both(a: Seq<char>, b: Seq<char>, n: nat)
    requires
        tidy(a),
        n <= a.len() + b.len(),
    ensures
        depth_to(a + b, n) == if n <= a.len() {
            depth_to(a, n)
        } else {
            depth_to(b, (n - a.len()) as nat)
        },
    decreases n,
{
    let s = a + b;
    if n > 0 {
        lemma_depth_both(a, b, (n - 1) as nat);
        if n <= a.len() {
            assert(s[n - 1] == a[n - 1]);
            if n > 1 {
                assert(s[n - 2] == a[n - 2]);
            }
        } else {
            let m = n - a.len();
            assert(s[n - 1] == b[m - 1]);
            if m > 1 {
                assert(s[n - 2] == b[m - 2]);
            } else if a.len() > 0 {
                assert(s[n - 2] == a.last());
            }
            assert(change_at(s, n - 1) == change_at(b, m - 1));
            assert(depth_to(s, n) == depth_to(s, (n - 1) as nat) + change_at(s, n - 1));
            assert(depth_to(b, m as nat) == depth_to(b, (m - 1) as nat) + change_at(b, m - 1));
            if m == 1 {
                assert(depth_to(a, a.len()) == 0);
                assert(depth_to(b, 0) == 0);
            }
        }
    }
}

/// Two texts with matching brackets make one.
proof fn lemma_tidy_both(a: Seq<char>, b: Seq<char>)
    requires
        tidy(a),
        tidy(b),
    ensures
        tidy(a + b),
        sealed(a) && sealed(b) ==> sealed(a + b),
{
    let s = a + b;
    assert forall|n: nat| n <= s.len() implies #[trigger] depth_to(s, n) >= 0 by {
        lemma_depth_both(a, b, n);
        if n > a.len() {
            assert(depth_to(b, (n - a.len()) as nat) >= 0);
        }
    }
    lemma_depth_both(a, b, s.len());
    if b.len() > 0 {
        assert(s.last() == b.last());
    } else {
        assert(s =~= a);
    }
    if sealed(a) && sealed(b) {
        assert forall|n: nat| n < s.len() && s[n as int] == ',' implies #[trigger] depth_to(s, n)
            > 0 by {
            lemma_depth_both(a, b, n);
            if n < a.len() {
                assert(a[n as int] == ',');
            } else {
                assert(b[n - a.len()] == ',');
                assert(depth_to(b, (n - a.len()) as nat) > 0);
                if n == a.len() {
                    assert(depth_to(b, 0) == 0);
                }
            }
        }
    }
}

/// Brackets round a text with matching brackets.
proof fn lemma_in_brackets(open: char, s: Seq<char>, close: char)
    requires
        tidy(s),
        depth_change(open) == 1,
        depth_change(close) == -1,
    ensures
        neat(seq![open] + s + seq![close]),
{
    let w = seq![open] + s + seq![close];
    assert forall|n: nat| 0 < n <= s.len() + 1 implies #[trigger] depth_to(w, n) == 1 + depth_to(
        s,
        (n - 1) as nat,
    ) by {
        lemma_inside(open, s, close, n);
    }
    assert(w.last() == close);
    assert(w[0] == open);
    let end = s.len() + 2;
    assert(w.len() == end);
    assert(depth_to(w, (end - 1) as nat) == 1 + depth_to(s, s.len()));
    assert(change_at(w, end - 1) == -1) by {
        if s.len() > 0 {
            assert(w[end - 2] == s.last());
        } else {
            assert(w[end - 2] == open);
        }
    }
    assert(depth_to(w, end) == 0);
    assert forall|n: nat| n <= w.len() implies #[trigger] depth_to(w, n) >= 0 by {
        if 0 < n < end {
            assert(depth_to(s, (n - 1) as nat) >= 0);
        }
    }
    assert forall|n: nat| n < w.len() && w[n as int] == ',' implies #[trigger] depth_to(w, n)
        > 0 by {
        if n > 0 {
            assert(depth_to(s, (n - 1) as nat) >= 0);
        }
    }
}

proof fn lemma_inside(open: char, s: Seq<char>, close: char, n: nat)
    requires
        tidy(s),
        depth_change(open) == 1,
        0 < n <= s.len() + 1,
    ensures
        depth_to(seq![open] + s + seq![close], n) == 1 + depth_to(s, (n - 1) as nat),
    decreases n,
{
    let w = seq![open] + s + seq![close];
    assert(w[0] == open);
    if n == 1 {
        assert(depth_to(w, 0) == 0);
    } else {
        lemma_inside(open, s, close, (n - 1) as nat);
        assert(w[n - 1] == s[n - 2]);
        if n > 2 {
            assert(w[n - 2] == s[n - 3]);
        }
        assert(change_at(w, n - 1) == change_at(s, n - 2));
    }
}

proof fn lemma_decimal_is_bare(n: nat)
    ensures
        bare(decimal(n)),
        decimal(n).len() > 0,
    decreases n,
{
    assert(bare_char(digit_char(n % 10)));
    if n >= 10 {
        lemma_decimal_is_bare(n / 10);
    }
}

proof fn lemma_bare_both(a: Seq<char>, b: Seq<char>)
    requires
        bare(a),
        bare(b),
    ensures
        bare(a + b),
{
}

/// How a variable is written.
proof fn lemma_variable_is_bare(v: u32)
    ensures
        bare("'t"@ + decimal(v as nat)),
        ("'t"@ + decimal(v as nat)).len() > 0,
{
    reveal_strlit("'t");
    lemma_decimal_is_bare(v as nat);
    assert(bare("'t"@));
    lemma_bare_both("'t"@, decimal(v as nat));
}

proof fn lemma_neat_both(a: Seq<char>, b: Seq<char>)
    requires
        neat(a),
        neat(b),
    ensures
        neat(a + b),
{
    lemma_tidy_both(a, b);
    assert((a + b)[0] == a[0]);
    assert((a + b).last() == b.last());
}

/// Texts with matching brackets and commas between them make one.
proof fn lemma_joined_is_tidy(texts: Seq<Seq<char>>)
    requires
        forall|i: int| 0 <= i < texts.len() ==> tidy(#[trigger] texts[i]),
    ensures
        tidy(joined(texts, ", "@)),
    decreases texts.len(),
{
    reveal_strlit(", ");
    if texts.len() == 0 {
        lemma_bare_is_neat(Seq::empty());
    } else if texts.len() > 1 {
        let init = texts.drop_last();
        assert forall|i: int| 0 <= i < init.len() implies tidy(#[trigger] init[i]) by {
            assert(init[i] == texts[i]);
        }
        lemma_joined_is_tidy(init);
        assert(tidy(", "@)) by {
            let s = ", "@;
            assert(change_at(s, 0) == 0);
            assert(change_at(s, 1) == 0);
            reveal_with_fuel(depth_to, 3);
            assert forall|n: nat| n <= s.len() implies #[trigger] depth_to(s, n) >= 0 by {
                if n == 1 {
                } else if n == 2 {
                }
            }
        }
        lemma_tidy_both(joined(init, ", "@), ", "@);
        lemma_tidy_both(joined(init, ", "@) + ", "@, texts.last());
    }
}

proof fn lemma_texts_are_tidy(tys: Seq<TyV>)
    requires
        forall|i: int| 0 <= i < tys.len() ==> neat_names(#[trigger] tys[i]),
    ensures
        tidy(joined(ty_texts(tys), ", "@)),
    decreases tys, 0nat,
{
    let texts = ty_texts(tys);
    assert forall|i: int| 0 <= i < texts.len() implies tidy(#[trigger] texts[i]) by {
        assert(neat_names(tys[i]));
        lemma_text_is_tidy(tys[i]);
    }
    lemma_joined_is_tidy(texts);
}

/// The brackets in the text of a type match; the text of a type that is written as one can
/// stand in a list.
proof fn lemma_text_is_tidy(t: TyV)
    requires
        neat_names(t),
    ensures
        tidy(ty_text(t)),
        written_as_one(t) ==> neat(ty_text(t)),
    decreases t, 1nat,
{
    match t {
        TyV::Con(_) => {},
        TyV::Var(v) => {
            lemma_variable_is_bare(v);
            lemma_bare_is_neat(ty_text(t));
        },
        TyV::Pack(v) => {
            reveal_strlit("...");
            lemma_variable_is_bare(v);
            assert(bare("..."@));
            lemma_bare_both("'t"@ + decimal(v as nat), "..."@);
            lemma_bare_is_neat(ty_text(t));
        },
        TyV::PackLen(v) => {
            reveal_strlit("...len()");
            let name = "'t"@ + decimal(v as nat);
            let dots = seq!['.', '.', '.', 'l', 'e', 'n'];
            let unit = seq!['('] + Seq::<char>::empty() + seq![')'];
            lemma_variable_is_bare(v);
            assert(bare(dots));
            lemma_bare_is_neat(name);
            lemma_bare_is_neat(dots);
            lemma_bare_is_neat(Seq::empty());
            lemma_in_brackets('(', Seq::empty(), ')');
            lemma_neat_both(name, dots);
            lemma_neat_both(name + dots, unit);
            assert(ty_text(t) =~= name + dots + unit);
        },
        TyV::PackResolved(elems) => {
            lemma_texts_are_tidy(elems);
        },
        TyV::App(name, args) => {
            reveal_strlit("<");
            reveal_strlit(">");
            let inner = joined(ty_texts(args), ", "@);
            lemma_texts_are_tidy(args);
            lemma_in_brackets('<', inner, '>');
            let rest = seq!['<'] + inner + seq!['>'];
            lemma_neat_both(name, rest);
            assert("<"@ =~= seq!['<']);
            assert(">"@ =~= seq!['>']);
            assert(ty_text(t) =~= name + rest);
        },
        TyV::Fn(params, ret) => {
            reveal_strlit("(");
            reveal_strlit(") -> ");
            let inner = joined(ty_texts(params), ", "@);
            let list = seq!['('] + inner + seq![')'];
            let arrow = seq![' ', '-', '>', ' '];
            lemma_texts_are_tidy(params);
            lemma_in_brackets('(', inner, ')');
            lemma_text_is_tidy(*ret);
            assert(tidy(arrow) && sealed(arrow)) by {
                reveal_with_fuel(depth_to, 5);
                assert(change_at(arrow, 0) == 0);
                assert(change_at(arrow, 1) == 0);
                assert(change_at(arrow, 2) == 0);
                assert(change_at(arrow, 3) == 0);
                assert(depth_to(arrow, 1) == 0);
                assert(depth_to(arrow, 2) == 0);
                assert(depth_to(arrow, 3) == 0);
                assert(depth_to(arrow, 4) == 0);
                assert forall|n: nat| n <= arrow.len() implies #[trigger] depth_to(arrow, n) >= 0 by {
                    assert(n == 0 || n == 1 || n == 2 || n == 3 || n == 4);
                }
            }
            lemma_tidy_both(list, arrow);
            lemma_tidy_both(list + arrow, ty_text(*ret));
            let s = list + arrow + ty_text(*ret);
            assert(") -> "@ =~= seq![')'] + arrow);
            assert("("@ =~= seq!['(']);
            assert(ty_text(t) =~= s);
            assert(s[0] == '(');
            if written_as_one(*ret) {
                assert(s.last() == ty_text(*ret).last());
            }
        },
        TyV::Array(elem, size) => {
            reveal_strlit("[");
            reveal_strlit("; ");
            reveal_strlit("]");
            lemma_text_is_tidy(*elem);
            lemma_text_is_tidy(*size);
            let mid = "; "@;
            assert(tidy(mid)) by {
                reveal_with_fuel(depth_to, 3);
                assert(change_at(mid, 0) == 0);
                assert(change_at(mid, 1) == 0);
                assert(depth_to(mid, 1) == 0);
                assert(depth_to(mid, 2) == 0);
                assert forall|n: nat| n <= mid.len() implies #[trigger] depth_to(mid, n) >= 0 by {
                    assert(n == 0 || n == 1 || n == 2);
                }
            }
            lemma_tidy_both(ty_text(*elem), mid);
            lemma_tidy_both(ty_text(*elem) + mid, ty_text(*size));
            let inner = ty_text(*elem) + mid + ty_text(*size);
            lemma_in_brackets('[', inner, ']');
            assert("["@ =~= seq!['[']);
            assert("]"@ =~= seq![']']);
            assert(ty_text(t) =~= seq!['['] + inner + seq![']']);
        },
        TyV::Const(c) => {
            reveal_strlit("true");
            reveal_strlit("false");
            match c {
                ConstValue::Int(n) => lemma_decimal_is_bare(n as nat),
                ConstValue::Bool(_) => {},
            }
            assert(bare(const_text(c)));
            lemma_bare_is_neat(ty_text(t));
        },
        TyV::ConstExpr(op, x, y) => {
            reveal_strlit("(");
            reveal_strlit(", ");
            reveal_strlit(")");
            lemma_text_is_tidy(*x);
            lemma_text_is_tidy(*y);
            let both = seq![ty_text(*x), ty_text(*y)];
            assert(both.drop_last() =~= seq![ty_text(*x)]);
            assert forall|i: int| 0 <= i < both.len() implies tidy(#[trigger] both[i]) by {
                assert(i == 0 || i == 1);
            }
            lemma_joined_is_tidy(both);
            let inner = ty_text(*x) + ", "@ + ty_text(*y);
            assert(joined(both, ", "@) == inner) by {
                assert(joined(both.drop_last(), ", "@) == ty_text(*x));
            }
            lemma_in_brackets('(', inner, ')');
            let rest = seq!['('] + inner + seq![')'];
            lemma_neat_both(op, rest);
            assert("("@ =~= seq!['(']);
            assert(")"@ =~= seq![')']);
            assert(ty_text(t) =~= op + rest);
        },
    }
}

/// The first part comes first.
proof fn lemma_joined_front(parts: Seq<Seq<char>>, sep: Seq<char>)
    requires
        parts.len() > 1,
    ensures
        joined(parts, sep) == parts[0] + sep + joined(parts.drop_first(), sep),
    decreases parts.len(),
{
    if parts.len() > 2 {
        let init = parts.drop_last();
        lemma_joined_front(init, sep);
        assert(init.drop_first() =~= parts.drop_first().drop_last());
        let others = parts.drop_first();
        assert(others.last() == parts.last());
        assert(joined(others, sep) == joined(others.drop_last(), sep) + sep + others.last());
        assert(joined(parts, sep) =~= parts[0] + sep + joined(others, sep));
    } else {
        let first = parts.drop_last();
        let others = parts.drop_first();
        assert(first.len() == 1 && first[0] == parts[0]);
        assert(others.len() == 1 && others[0] == parts[1]);
        assert(joined(first, sep) == parts[0]);
        assert(joined(others, sep) == parts[1]);
        assert(parts.last() == parts[1]);
    }
}

/// Passing a piece that can stand in a list.
proof fn lemma_passed(s: Seq<char>, at: nat, piece: Seq<char>, n: nat, start: nat)
    requires
        neat(piece),
        n <= piece.len(),
        at + piece.len() <= s.len(),
        s.subrange(at as int, (at + piece.len()) as int) == piece,
    ensures
        parts_from(s, at + n, start, depth_to(piece, n)) == parts_from(
            s,
            at + piece.len(),
            start,
            0,
        ),
    decreases piece.len() - n,
{
    if n < piece.len() {
        let i = at + n;
        assert(s[i as int] == s.subrange(at as int, (at + piece.len()) as int)[n as int]);
        if n > 0 {
            assert(s[i - 1] == s.subrange(at as int, (at + piece.len()) as int)[n - 1]);
        } else {
            assert(piece[0] != '>') by {
                assert(depth_to(piece, 1) >= 0);
                assert(depth_to(piece, 0) == 0);
            }
        }
        assert(change_at(s, i as int) == change_at(piece, n as int));
        assert(depth_to(piece, n + 1) == depth_to(piece, n) + change_at(piece, n as int));
        if s[i as int] == ',' {
            assert(depth_to(piece, n) > 0);
        }
        lemma_passed(s, at, piece, n + 1, start);
    }
}

/// A piece without the space before it.
proof fn lemma_piece_trimmed(w: Seq<char>, gap: nat, piece: Seq<char>)
    requires
        neat(piece),
        gap <= 1,
        w.len() == gap + piece.len(),
        gap == 1 ==> w[0] == ' ',
        w.subrange(gap as int, w.len() as int) == piece,
    ensures
        trimmed(w) == piece,
{
    assert(w[gap as int] == piece[0]);
    reveal_with_fuel(space_end, 2);
    assert(space_end(w, 0) == gap);
    assert(trimmed_end(piece) == piece);
}

/// The parts of what is left of a list.
proof fn lemma_parts_left(s: Seq<char>, at: nat, start: nat, texts: Seq<Seq<char>>)
    requires
        texts.len() > 0,
        forall|i: int| 0 <= i < texts.len() ==> neat(#[trigger] texts[i]),
        start <= at <= s.len(),
        at <= start + 1,
        at == start + 1 ==> s[start as int] == ' ',
        s.subrange(at as int, s.len() as int) == joined(texts, ", "@),
    ensures
        parts_from(s, at, start, 0) == texts,
    decreases texts.len(),
{
    reveal_strlit(", ");
    let rest = s.subrange(at as int, s.len() as int);
    let piece = texts[0];
    assert(neat(piece));
    let end = at + piece.len();
    if texts.len() == 1 {
        assert(rest == piece);
        assert(s.subrange(at as int, end as int) =~= piece);
        lemma_passed(s, at, piece, 0, start);
        let w = s.subrange(start as int, s.len() as int);
        assert(w.subrange(at - start, w.len() as int) =~= piece);
        lemma_piece_trimmed(w, (at - start) as nat, piece);
        assert(parts_from(s, end, start, 0) =~= texts);
    } else {
        let others = texts.drop_first();
        lemma_joined_front(texts, ", "@);
        let tail = joined(others, ", "@);
        assert(rest == piece + ", "@ + tail);
        assert(s.subrange(at as int, end as int) =~= piece) by {
            assert forall|j: int| 0 <= j < piece.len() implies s[at + j] == piece[j] by {
                assert(rest[j] == piece[j]);
            }
        }
        assert(s[end as int] == ',') by {
            assert(rest[piece.len() as int] == ',');
        }
        assert(s[(end + 1) as int] == ' ') by {
            assert(rest[(piece.len() + 1) as int] == ' ');
        }
        lemma_passed(s, at, piece, 0, start);
        let w = s.subrange(start as int, end as int);
        assert(w.subrange(at - start, w.len() as int) =~= piece);
        lemma_piece_trimmed(w, (at - start) as nat, piece);
        assert(s.subrange((end + 2) as int, s.len() as int) =~= tail) by {
            assert forall|j: int| 0 <= j < tail.len() implies s[end + 2 + j] == tail[j] by {
                assert(rest[piece.len() + 2 + j] == tail[j]);
            }
        }
        assert forall|i: int| 0 <= i < others.len() implies neat(#[trigger] others[i]) by {
            assert(others[i] == texts[i + 1]);
        }
        lemma_parts_left(s, end + 2, end + 1, others);
        assert(change_at(s, (end + 1) as int) == 0);
        assert(parts_from(s, end + 1, end + 1, 0) == parts_from(s, end + 2, end + 1, 0));
        assert(seq![piece] + others =~= texts);
    }
}

/// Types that are written one after the other, with commas between them, are told apart
/// again: splitting the text at the commas outside its brackets gives the text of each.
/// There is at least one, each is written as one, and the brackets in its names match.
pub proof fn lemma_types_are_told_apart(tys: Seq<TyV>)
    requires
        tys.len() > 0,
        forall|i: int| 0 <= i < tys.len() ==> neat_names(#[trigger] tys[i]),
        forall|i: int| 0 <= i < tys.len() ==> written_as_one(#[trigger] tys[i]),
    ensures
        comma_parts(tys_text(tys)) == ty_texts(tys),
{
    let texts = ty_texts(tys);
    let s = tys_text(tys);
    assert forall|i: int| 0 <= i < texts.len() implies neat(#[trigger] texts[i]) by {
        assert(neat_names(tys[i]));
        assert(written_as_one(tys[i]));
        lemma_text_is_tidy(tys[i]);
    }
    assert(s.subrange(0, s.len() as int) =~= s);
    lemma_parts_left(s, 0, 0, texts);
}

} // verus!
