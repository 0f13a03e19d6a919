//! Decimal numerals: what they denote, whichever way they are read.

use vstd::prelude::*;

use crate::text::{
    all_digits, decimal, digit_char, digits_value, is_digit, parsed_u64, unsigned_part,
};

verus! {

/// The number that a digit denotes.
pub open spec fn digit_of(c: char) -> Option<nat> {
    match c {
        '0' => Some(0nat),
        '1' => Some(1nat),
        '2' => Some(2nat),
        '3' => Some(3nat),
        '4' => Some(4nat),
        '5' => Some(5nat),
        '6' => Some(6nat),
        '7' => Some(7nat),
        '8' => Some(8nat),
        '9' => Some(9nat),
        _ => None,
    }
}

/// Ten, taken that many times.
pub open spec fn ten_to(n: nat) -> nat
    decreases n,
{
    if n == 0 {
        1
    } else {
        10 * ten_to((n - 1) as nat)
    }
}

/// The sum of the digits, each by the power of ten of its place.
pub open spec fn place_sum(s: Seq<char>) -> nat
    decreases s.len(),
{
    if s.len() == 0 {
        0
    } else {
        (match digit_of(s[0]) {
            Some(d) => d,
            None => 0,
        }) * ten_to((s.len() - 1) as nat) + place_sum(s.subrange(1, s.len() as int))
    }
}

/// The number that a numeral denotes: one or more digits, each worth a power of ten.
pub open spec fn numeral(s: Seq<char>) -> Option<nat> {
    if s.len() > 0 && forall|i: int| 0 <= i < s.len() ==> digit_of(#[trigger] s[i]) is Some {
        Some(place_sum(s))
    } else {
        None
    }
}

proof fn lemma_digit(c: char)
    ensures
        is_digit(c) <==> digit_of(c) is Some,
        digit_of(c) matches Some(d) ==> d == c as int - 48,
{
}

proof fn lemma_ten(n: nat, a: nat)
    requires
        n > 0,
    ensures
        a * ten_to(n) == 10 * (a * ten_to((n - 1) as nat)),
{
    assert(a * (10 * ten_to((n - 1) as nat)) == 10 * (a * ten_to((n - 1) as nat)))
        by (nonlinear_arith);
}

/// The last digit is worth itself, and those before it ten times as much as without it.
pub proof fn lemma_place_sum_last(s: Seq<char>)
    requires
        s.len() > 0,
    ensures
        place_sum(s) == 10 * place_sum(s.drop_last()) + (match digit_of(s.last()) {
            Some(d) => d,
            None => 0,
        }),
    decreases s.len(),
{
    let d: nat = match digit_of(s[0]) {
        Some(d) => d,
        None => 0,
    };
    let rest = s.subrange(1, s.len() as int);
    if s.len() == 1 {
        assert(rest.len() == 0);
        assert(ten_to(0) == 1);
        assert(d * ten_to(0) == d) by (nonlinear_arith)
            requires
                ten_to(0) == 1,
        ;
        assert(s.drop_last().len() == 0);
        assert(place_sum(rest) == 0);
        assert(place_sum(s.drop_last()) == 0);
        assert(s.last() == s[0]);
        assert((s.len() - 1) as nat == 0);
        assert(place_sum(s) == d * ten_to(0) + place_sum(rest));
    } else {
        lemma_place_sum_last(rest);
        assert(rest.drop_last() =~= s.drop_last().subrange(1, s.len() - 1));
        assert(s.drop_last()[0] == s[0]);
        lemma_ten((s.len() - 1) as nat, d);
        let n = (s.len() - 2) as nat;
        assert(place_sum(s.drop_last()) == d * ten_to(n) + place_sum(rest.drop_last()));
        assert(place_sum(s) == d * ten_to((s.len() - 1) as nat) + place_sum(rest));
    }
}

/// Reading digits from the left gives the sum of their places.
pub proof fn lemma_digits_value(s: Seq<char>)
    requires
        all_digits(s),
    ensures
        digits_value(s) == place_sum(s),
    decreases s.len(),
{
    if s.len() > 0 {
        assert(is_digit(s[s.len() - 1]));
        assert forall|i: int| 0 <= i < s.drop_last().len() implies is_digit(
            #[trigger] s.drop_last()[i],
        ) by {
            assert(is_digit(s[i]));
        }
        lemma_digits_value(s.drop_last());
        lemma_place_sum_last(s);
        lemma_digit(s.last());
    }
}

/// A text is read as a number if and only if it is a numeral, or a plus and a numeral, of a
/// number of at most 64 bits, and then as what the numeral denotes.
pub proof fn lemma_parsed(s: Seq<char>)
    ensures
        s.len() == 0 || s[0] != '+' ==> (match numeral(s) {
            Some(n) => if n <= u64::MAX {
                parsed_u64(s) == Some(n as u64)
            } else {
                parsed_u64(s) is None
            },
            None => parsed_u64(s) is None,
        }),
        s.len() > 0 && s[0] == '+' ==> (match numeral(s.subrange(1, s.len() as int)) {
            Some(n) => if n <= u64::MAX {
                parsed_u64(s) == Some(n as u64)
            } else {
                parsed_u64(s) is None
            },
            None => parsed_u64(s) is None,
        }),
{
    let t = unsigned_part(s);
    assert(all_digits(t) <==> forall|i: int| 0 <= i < t.len() ==> digit_of(#[trigger] t[i])
        is Some) by {
        if all_digits(t) {
            assert forall|i: int| 0 <= i < t.len() implies digit_of(#[trigger] t[i]) is Some by {
                assert(is_digit(t[i]));
                lemma_digit(t[i]);
            }
        }
        if forall|i: int| 0 <= i < t.len() ==> digit_of(#[trigger] t[i]) is Some {
            assert forall|i: int| 0 <= i < t.len() implies is_digit(#[trigger] t[i]) by {
                assert(digit_of(t[i]) is Some);
                lemma_digit(t[i]);
            }
        }
    }
    if all_digits(t) {
        lemma_digits_value(t);
    }
}

/// The text of a number is a numeral of it, without a zero before other digits.
pub proof fn lemma_decimal(n: nat)
    ensures
        numeral(decimal(n)) == Some(n),
        decimal(n).len() > 1 ==> decimal(n)[0] != '0',
        decimal(n)[0] != '+',
    decreases n,
{
    let s = decimal(n);
    if n < 10 {
        assert(digit_of(digit_char(n)) == Some(n));
        assert(s.drop_last() =~= Seq::empty());
        lemma_place_sum_last(s);
        assert(s.last() == digit_char(n));
        assert(place_sum(s.drop_last()) == 0);
    } else {
        lemma_decimal(n / 10);
        assert(s.drop_last() =~= decimal(n / 10));
        assert(s.last() == digit_char(n % 10));
        assert(digit_of(digit_char(n % 10)) == Some(n % 10));
        lemma_place_sum_last(s);
        assert forall|i: int| 0 <= i < s.len() implies digit_of(#[trigger] s[i]) is Some by {
            if i < s.len() - 1 {
                assert(s[i] == decimal(n / 10)[i]);
            }
        }
        assert(s[0] == decimal(n / 10)[0]);
        if decimal(n / 10).len() == 1 {
            lemma_one_digit(n / 10);
        }
    }
}

proof fn lemma_one_digit(n: nat)
    requires
        n > 0,
        decimal(n).len() == 1,
    ensures
        decimal(n)[0] != '0',
{
    if n >= 10 {
        assert(decimal(n / 10).len() > 0) by {
            lemma_some_digit(n / 10);
        }
    }
}

proof fn lemma_some_digit(n: nat)
    ensures
        decimal(n).len() > 0,
{
}

/// What is written in digits is read as the same number.
pub proof fn lemma_written_and_read(n: u64)
    ensures
        parsed_u64(decimal(n as nat)) == Some(n),
{
    lemma_decimal(n as nat);
    lemma_parsed(decimal(n as nat));
}

} // verus!
