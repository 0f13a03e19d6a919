//! Parts of texts: what stands between brackets, lists of types, numerals.

use vstd::prelude::*;

use crate::table::{group_views, views};
use crate::text::{all_digits, chars_of, code_of, find_char, is_digit, place_of};

verus! {

broadcast use group_views;

/// Whether a character is white space.
pub open spec fn is_space(c: char) -> bool {
    let n = c as int;
    ||| 9 <= n <= 13
    ||| n == 0x20
    ||| n == 0x85
    ||| n == 0xA0
    ||| n == 0x1680
    ||| 0x2000 <= n <= 0x200A
    ||| n == 0x2028
    ||| n == 0x2029
    ||| n == 0x202F
    ||| n == 0x205F
    ||| n == 0x3000
}

/// The first place at or after `from` that holds no white space, or the length.
pub open spec fn space_end(s: Seq<char>, from: nat) -> nat
    decreases s.len() - from,
{
    if from >= s.len() {
        s.len()
    } else if is_space(s[from as int]) {
        space_end(s, from + 1)
    } else {
        from
    }
}

/// A text without the white space that it ends with.
pub open spec fn trimmed_end(s: Seq<char>) -> Seq<char>
    decreases s.len(),
{
    if s.len() > 0 && is_space(s.last()) {
        trimmed_end(s.drop_last())
    } else {
        s
    }
}

/// A text without the white space that it starts and ends with.
pub open spec fn trimmed(s: Seq<char>) -> Seq<char> {
    trimmed_end(s.subrange(space_end(s, 0) as int, s.len() as int))
}

/// The last place before `upto` that holds the character.
pub open spec fn last_place_of(s: Seq<char>, c: char, upto: nat) -> Option<nat>
    decreases upto,
{
    if upto == 0 || upto > s.len() {
        None
    } else if s[upto - 1] == c {
        Some((upto - 1) as nat)
    } else {
        last_place_of(s, c, (upto - 1) as nat)
    }
}

/// The text between the first `<` and the last `>`, where that is not empty.
pub open spec fn bracketed(s: Seq<char>) -> Option<Seq<char>> {
    let start = place_of(s, '<', 0) + 1;
    match last_place_of(s, '>', s.len()) {
        Some(end) => if start < end {
            Some(s.subrange(start as int, end as int))
        } else {
            None
        },
        None => None,
    }
}

/// How a character changes the depth of brackets.
pub open spec fn depth_change(c: char) -> int {
    if c == '<' || c == '(' || c == '[' {
        1
    } else if c == '>' || c == ')' || c == ']' {
        -1
    } else {
        0
    }
}

/// How the character at a place changes the depth of brackets. The `>` of an arrow
/// closes nothing.
pub open spec fn change_at(s: Seq<char>, i: int) -> int {
    if s[i] == '>' && i > 0 && s[i - 1] == '-' {
        0
    } else {
        depth_change(s[i])
    }
}

/// The parts of the text from `start`, at the commas that are at or after `i` and
/// outside all brackets, each without the white space around it.
pub open spec fn parts_from(s: Seq<char>, i: nat, start: nat, depth: int) -> Seq<Seq<char>>
    decreases s.len() - i,
{
    if i >= s.len() {
        seq![trimmed(s.subrange(start as int, s.len() as int))]
    } else if s[i as int] == ',' && depth == 0 {
        seq![trimmed(s.subrange(start as int, i as int))] + parts_from(s, i + 1, i + 1, depth)
    } else {
        parts_from(s, i + 1, start, depth + change_at(s, i as int))
    }
}

/// The parts of a text at the commas outside all brackets.
pub open spec fn comma_parts(s: Seq<char>) -> Seq<Seq<char>> {
    parts_from(s, 0, 0, 0)
}

fn char_is_space(c: char) -> (r: bool)
    ensures
        r == is_space(c),
{
    let n: u32 = code_of(c);
    (9 <= n && n <= 13) || n == 0x20 || n == 0x85 || n == 0xA0 || n == 0x1680 || (0x2000 <= n && n
        <= 0x200A) || n == 0x2028 || n == 0x2029 || n == 0x202F || n == 0x205F || n == 0x3000
}

/// The text without the white space that it starts and ends with.
pub fn trim(s: &str) -> (r: &str)
    ensures
        r@ == trimmed(s@),
{
    let chars: Vec<char> = chars_of(s);
    let mut start: usize = 0;
    while start < chars.len() && char_is_space(chars[start])
        invariant
            chars@ == s@,
            start <= chars.len(),
            space_end(s@, 0) == space_end(s@, start as nat),
        decreases chars.len() - start,
    {
        start = start + 1;
    }
    let mut end: usize = chars.len();
    let ghost body = s@.subrange(start as int, s@.len() as int);
    assert(s@.subrange(start as int, end as int) =~= body);
    while end > start && char_is_space(chars[end - 1])
        invariant
            chars@ == s@,
            start <= end <= chars.len(),
            trimmed_end(body) == trimmed_end(s@.subrange(start as int, end as int)),
        decreases end,
    {
        let ghost upto = s@.subrange(start as int, end as int);
        assert(upto.last() == chars@[end - 1]);
        assert(upto.drop_last() =~= s@.subrange(start as int, end - 1));
        end = end - 1;
    }
    proof {
        let upto = s@.subrange(start as int, end as int);
        if upto.len() > 0 {
            assert(upto.last() == chars@[end - 1]);
        }
    }
    s.substring_char(start, end)
}

/// The concrete types that the name of a function ends with.
pub fn concrete_type_of(unit_name: &str) -> (r: Option<&str>)
    ensures
        match r {
            Some(t) => bracketed(unit_name@) == Some(t@),
            None => bracketed(unit_name@) is None,
        },
{
    let chars: Vec<char> = chars_of(unit_name);
    let open: usize = find_char(&chars, '<', 0);
    let mut end: usize = chars.len();
    while end > 0 && chars[end - 1] != '>'
        invariant
            end <= chars.len(),
            last_place_of(chars@, '>', chars@.len()) == last_place_of(chars@, '>', end as nat),
        decreases end,
    {
        end = end - 1;
    }
    if end == 0 {
        return None;
    }
    let close: usize = end - 1;
    if open < close && close - open > 1 {
        Some(unit_name.substring_char(open + 1, close))
    } else {
        None
    }
}

/// The parts of a text at the commas outside all brackets.
pub fn split_top_level_commas(s: &str) -> (r: Vec<String>)
    ensures
        views(r@) == comma_parts(s@),
{
    let chars: Vec<char> = chars_of(s);
    let mut out: Vec<String> = Vec::new();
    let mut depth: i128 = 0;
    let mut start: usize = 0;
    let mut i: usize = 0;
    assert(views(out@) + parts_from(s@, 0, 0, 0) =~= comma_parts(s@));
    while i < chars.len()
        invariant
            chars@ == s@,
            start <= i <= chars.len(),
            -(i as int) <= depth <= i,
            views(out@) + parts_from(s@, i as nat, start as nat, depth as int) == comma_parts(s@),
        decreases chars.len() - i,
    {
        let c: char = chars[i];
        let ghost before = views(out@);
        if c == ',' && depth == 0 {
            let part: String = trim(s.substring_char(start, i)).to_owned();
            out.push(part);
            start = i + 1;
            proof {
                let rest = parts_from(s@, i as nat + 1, i as nat + 1, 0);
                assert(before + (seq![part@] + rest) =~= before.push(part@) + rest);
            }
        } else if c == '<' || c == '(' || c == '[' {
            depth = depth + 1;
        } else if c == ')' || c == ']' || (c == '>' && !(i > 0 && chars[i - 1] == '-')) {
            depth = depth - 1;
        }
        i = i + 1;
    }
    let last: String = trim(s.substring_char(start, chars.len())).to_owned();
    proof {
        assert(views(out@) + seq![last@] =~= views(out@).push(last@));
    }
    out.push(last);
    out
}

/// A text without the sign that it may start with.
pub open spec fn without_sign(s: Seq<char>) -> Seq<char> {
    if s.len() > 0 && (s[0] == '+' || s[0] == '-') {
        s.subrange(1, s.len() as int)
    } else {
        s
    }
}

/// Whether a text is the word, whatever the case of its ASCII letters. The word is
/// written in small letters.
pub open spec fn is_word(s: Seq<char>, word: Seq<char>) -> bool {
    s.len() == word.len() && forall|i: int|
        0 <= i < s.len() ==> (#[trigger] s[i] == word[i] || s[i] as int + 32 == word[i] as int && 65
            <= s[i] as int <= 90)
}

/// The first place at or after `i` that holds the letter of an exponent.
pub open spec fn exponent_place(s: Seq<char>, i: nat) -> nat
    decreases s.len() - i,
{
    if i >= s.len() {
        s.len()
    } else if s[i as int] == 'e' || s[i as int] == 'E' {
        i
    } else {
        exponent_place(s, i + 1)
    }
}

/// Whether a text is digits, with at most one point and at least one digit.
pub open spec fn is_mantissa(s: Seq<char>) -> bool {
    let dot = place_of(s, '.', 0) as int;
    if dot >= s.len() {
        s.len() > 0 && all_digits(s)
    } else {
        s.len() > 1 && all_digits(s.subrange(0, dot)) && all_digits(
            s.subrange(dot + 1, s.len() as int),
        )
    }
}

/// Whether a text is an optional sign and one or more digits.
pub open spec fn is_exponent(s: Seq<char>) -> bool {
    without_sign(s).len() > 0 && all_digits(without_sign(s))
}

/// Whether a text denotes a floating-point number: an optional sign, then a decimal
/// numeral with an optional exponent, or one of the words for infinity and for no
/// number.
pub open spec fn is_float_text(s: Seq<char>) -> bool {
    let t = without_sign(s);
    let e = exponent_place(t, 0) as int;
    ||| is_word(t, "inf"@)
    ||| is_word(t, "infinity"@)
    ||| is_word(t, "nan"@)
    ||| is_mantissa(t.subrange(0, e)) && (e == t.len() || is_exponent(
        t.subrange(e + 1, t.len() as int),
    ))
}

fn digits_between(chars: &Vec<char>, from: usize, upto: usize) -> (r: bool)
    requires
        from <= upto <= chars.len(),
    ensures
        r == all_digits(chars@.subrange(from as int, upto as int)),
{
    let ghost part = chars@.subrange(from as int, upto as int);
    let mut i: usize = from;
    while i < upto
        invariant
            from <= i <= upto <= chars.len(),
            part == chars@.subrange(from as int, upto as int),
            forall|k: int| 0 <= k < i - from ==> is_digit(#[trigger] part[k]),
        decreases upto - i,
    {
        let code: u32 = code_of(chars[i]);
        assert(part[i - from] == chars@[i as int]);
        if code < 48 || code > 57 {
            assert(!is_digit(part[i - from]));
            return false;
        }
        i = i + 1;
    }
    true
}

fn is_word_from(chars: &Vec<char>, from: usize, word: &str) -> (r: bool)
    requires
        from <= chars.len(),
    ensures
        r == is_word(chars@.subrange(from as int, chars@.len() as int), word@),
{
    let letters: Vec<char> = chars_of(word);
    let ghost t = chars@.subrange(from as int, chars@.len() as int);
    if chars.len() - from != letters.len() {
        return false;
    }
    let mut i: usize = 0;
    while i < letters.len()
        invariant
            i <= letters.len(),
            letters@ == word@,
            from <= chars.len(),
            chars@.len() - from == letters@.len(),
            t == chars@.subrange(from as int, chars@.len() as int),
            forall|k: int|
                0 <= k < i ==> (#[trigger] t[k] == word@[k] || t[k] as int + 32 == word@[k] as int
                    && 65 <= t[k] as int <= 90),
        decreases letters.len() - i,
    {
        let c: char = chars[from + i];
        let w: char = letters[i];
        assert(t[i as int] == c);
        let code: u32 = code_of(c);
        if c != w && !(65 <= code && code <= 90 && code + 32 == code_of(w)) {
            return false;
        }
        i = i + 1;
    }
    true
}

fn is_mantissa_between(chars: &Vec<char>, from: usize, upto: usize) -> (r: bool)
    requires
        from <= upto <= chars.len(),
    ensures
        r == is_mantissa(chars@.subrange(from as int, upto as int)),
{
    let ghost part = chars@.subrange(from as int, upto as int);
    let mut dot: usize = from;
    while dot < upto && chars[dot] != '.'
        invariant
            from <= dot <= upto <= chars.len(),
            part == chars@.subrange(from as int, upto as int),
            place_of(part, '.', 0) == place_of(part, '.', (dot - from) as nat),
        decreases upto - dot,
    {
        assert(part[dot - from] == chars@[dot as int]);
        dot = dot + 1;
    }
    if dot == upto {
        upto > from && digits_between(chars, from, upto)
    } else {
        assert(part[dot - from] == chars@[dot as int]);
        proof {
            assert(part.subrange(0, dot - from) =~= chars@.subrange(from as int, dot as int));
            assert(part.subrange(dot - from + 1, part.len() as int) =~= chars@.subrange(
                dot + 1,
                upto as int,
            ));
        }
        upto - from > 1 && digits_between(chars, from, dot) && digits_between(chars, dot + 1, upto)
    }
}

/// Whether a text denotes a floating-point number.
pub fn denotes_float(s: &str) -> (r: bool)
    ensures
        r == is_float_text(s@),
{
    let chars: Vec<char> = chars_of(s);
    let from: usize = if chars.len() > 0 && (chars[0] == '+' || chars[0] == '-') { 1 } else { 0 };
    let ghost t = without_sign(s@);
    assert(t =~= chars@.subrange(from as int, chars@.len() as int));
    if is_word_from(&chars, from, "inf") || is_word_from(&chars, from, "infinity") || is_word_from(
        &chars,
        from,
        "nan",
    ) {
        return true;
    }
    let mut e: usize = from;
    while e < chars.len() && chars[e] != 'e' && chars[e] != 'E'
        invariant
            from <= e <= chars.len(),
            t == chars@.subrange(from as int, chars@.len() as int),
            exponent_place(t, 0) == exponent_place(t, (e - from) as nat),
        decreases chars.len() - e,
    {
        assert(t[e - from] == chars@[e as int]);
        e = e + 1;
    }
    assert(t.subrange(0, e - from) =~= chars@.subrange(from as int, e as int));
    if e == chars.len() {
        return is_mantissa_between(&chars, from, e);
    }
    assert(t[e - from] == chars@[e as int]);
    let ghost x = t.subrange(e - from + 1, t.len() as int);
    assert(x =~= chars@.subrange(e + 1, chars@.len() as int));
    let start: usize = if e + 1 < chars.len() && (chars[e + 1] == '+' || chars[e + 1] == '-') {
        e + 2
    } else {
        e + 1
    };
    assert(without_sign(x) =~= chars@.subrange(start as int, chars@.len() as int));
    is_mantissa_between(&chars, from, e) && start < chars.len() && digits_between(
        &chars,
        start,
        chars.len(),
    )
}

} // verus!
