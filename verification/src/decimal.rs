//! Decimal notation of integers, as text.

use vstd::prelude::*;
use vstd::string::*;

verus! {

/// The character of the decimal digit `d`.
pub open spec fn digit_char(d: int) -> char
    recommends
        0 <= d < 10,
{
    if d == 0 {
        '0'
    } else if d == 1 {
        '1'
    } else if d == 2 {
        '2'
    } else if d == 3 {
        '3'
    } else if d == 4 {
        '4'
    } else if d == 5 {
        '5'
    } else if d == 6 {
        '6'
    } else if d == 7 {
        '7'
    } else if d == 8 {
        '8'
    } else {
        '9'
    }
}

/// The decimal digits of `n`, most significant first, without leading zeros.
pub open spec fn nat_digits(n: nat) -> Seq<char>
    decreases n,
{
    if n < 10 {
        seq![digit_char(n as int)]
    } else {
        nat_digits(n / 10).push(digit_char((n % 10) as int))
    }
}

/// The decimal notation of `i`: a minus sign for a negative number, then the
/// digits of its magnitude.
pub open spec fn int_digits(i: int) -> Seq<char> {
    if i < 0 {
        seq!['-'] + nat_digits((-i) as nat)
    } else {
        nat_digits(i as nat)
    }
}

/// The value that a sequence of decimal digits denotes.
pub open spec fn digits_value(digits: Seq<char>) -> nat
    decreases digits.len(),
{
    if digits.len() == 0 {
        0
    } else {
        (10 * digits_value(digits.drop_last()) + (digits.last() as nat - '0' as nat)) as nat
    }
}

/// Reading the decimal digits of a number gives the number back.
pub proof fn lemma_digits_round_trip(n: nat)
    ensures
        nat_digits(n).len() >= 1,
        digits_value(nat_digits(n)) == n,
        forall|i: int| 0 <= i < nat_digits(n).len() ==> '0' <= #[trigger] nat_digits(n)[i] <= '9',
    decreases n,
{
    reveal_with_fuel(digits_value, 2);
    if n < 10 {
        let one = nat_digits(n);
        assert(one.drop_last().len() == 0);
    } else {
        lemma_digits_round_trip(n / 10);
        let all = nat_digits(n);
        assert(all.drop_last() =~= nat_digits(n / 10));
    }
}

/// The one-character text of a decimal digit.
fn digit_str(d: u64) -> (s: &'static str)
    requires
        d < 10,
    ensures
        s@ == seq![digit_char(d as int)],
{
    proof {
        reveal_strlit("0");
        reveal_strlit("1");
        reveal_strlit("2");
        reveal_strlit("3");
        reveal_strlit("4");
        reveal_strlit("5");
        reveal_strlit("6");
        reveal_strlit("7");
        reveal_strlit("8");
        reveal_strlit("9");
    }
    let s = if d == 0 {
        "0"
    } else if d == 1 {
        "1"
    } else if d == 2 {
        "2"
    } else if d == 3 {
        "3"
    } else if d == 4 {
        "4"
    } else if d == 5 {
        "5"
    } else if d == 6 {
        "6"
    } else if d == 7 {
        "7"
    } else if d == 8 {
        "8"
    } else {
        "9"
    };
    assert(s@ =~= seq![digit_char(d as int)]);
    s
}

/// Appends the decimal digits of `n` to `out`.
pub fn push_unsigned(out: &mut String, n: u64)
    ensures
        final(out)@ == old(out)@ + nat_digits(n as nat),
    decreases n,
{
    if n >= 10 {
        push_unsigned(out, n / 10);
    }
    out.append(digit_str(n % 10));
    assert(out@ =~= old(out)@ + nat_digits(n as nat));
}

/// Appends the decimal notation of `i` to `out`.
pub fn push_signed(out: &mut String, i: i64)
    ensures
        final(out)@ == old(out)@ + int_digits(i as int),
{
    if i < 0 {
        proof {
            reveal_strlit("-");
        }
        out.append("-");
        let magnitude: u64 = ((-(i + 1)) as u64) + 1;
        push_unsigned(out, magnitude);
        assert(out@ =~= old(out)@ + int_digits(i as int));
    } else {
        push_unsigned(out, i as u64);
    }
}

} // verus!
