//! Decimal rendering of integers as ASCII bytes, the way `{}` prints them.
use vstd::prelude::*;

verus! {

/// The ASCII code of the decimal digit `d` (for `d < 10`).
pub open spec fn digit_byte(d: nat) -> u8 {
    (48 + d) as u8
}

/// The ASCII code of `-`.
pub open spec fn minus_byte() -> u8 {
    45u8
}

/// Whether `b` is the ASCII code of a decimal digit.
pub open spec fn is_digit_byte(b: u8) -> bool {
    48 <= b <= 57
}

/// The decimal digits of `n`, most significant first, without leading zeros.
pub open spec fn decimal(n: nat) -> Seq<u8>
    decreases n,
{
    if n < 10 {
        seq![digit_byte(n)]
    } else {
        decimal(n / 10).push(digit_byte(n % 10))
    }
}

/// The decimal rendering of a signed integer: a `-` before the digits of a negative one.
pub open spec fn signed_decimal(x: int) -> Seq<u8> {
    if x < 0 {
        seq![minus_byte()] + decimal((-x) as nat)
    } else {
        decimal(x as nat)
    }
}

/// The number that a string of decimal digits denotes.
pub open spec fn decimal_value(s: Seq<u8>) -> int
    decreases s.len(),
{
    if s.len() == 0 {
        0
    } else {
        decimal_value(s.drop_last()) * 10 + (s.last() - 48)
    }
}

/// Reading the digits of `n` back gives `n`: they hold digits only, and none
/// leading zero but for `0` itself.
pub proof fn lemma_decimal_round_trip(n: nat)
    ensures
        decimal_value(decimal(n)) == n,
        decimal(n).len() >= 1,
        forall|i: int| 0 <= i < decimal(n).len() ==> is_digit_byte(#[trigger] decimal(n)[i]),
        decimal(n)[0] == digit_byte(0) ==> n == 0,
    decreases n,
{
    if n >= 10 {
        lemma_decimal_round_trip(n / 10);
        let d = decimal(n);
        assert(d.drop_last() =~= decimal(n / 10));
        assert((n / 10) * 10 + n % 10 == n) by (nonlinear_arith);
        assert forall|i: int| 0 <= i < d.len() implies is_digit_byte(#[trigger] d[i]) by {
            if i < d.len() - 1 {
                assert(d[i] == decimal(n / 10)[i]);
            }
        }
        assert(d[0] == decimal(n / 10)[0]);
        assert(d.last() == digit_byte(n % 10));
        assert(decimal_value(d) == decimal_value(decimal(n / 10)) * 10 + (n % 10));
    } else {
        assert(decimal(n).drop_last() =~= Seq::<u8>::empty());
        assert(decimal_value(decimal(n)) == decimal_value(Seq::<u8>::empty()) * 10 + (n as int));
    }
}

/// Two different numbers never render alike.
pub proof fn lemma_decimal_injective(m: nat, n: nat)
    requires
        decimal(m) == decimal(n),
    ensures
        m == n,
{
    lemma_decimal_round_trip(m);
    lemma_decimal_round_trip(n);
}

/// Appends the decimal digits of `n` to `out`.
pub fn push_decimal(out: &mut Vec<u8>, n: u128)
    ensures
        final(out)@ == old(out)@ + decimal(n as nat),
    decreases n,
{
    if n >= 10 {
        push_decimal(out, n / 10);
    }
    let d: u8 = (n % 10) as u8;
    let ghost before = out@;
    out.push(48u8 + d);
    proof {
        if n >= 10 {
            assert(before == old(out)@ + decimal((n / 10) as nat));
            assert(out@ =~= old(out)@ + decimal(n as nat));
        } else {
            assert(out@ =~= old(out)@ + decimal(n as nat));
        }
    }
}

/// Appends the decimal rendering of `x` to `out`, with a `-` first when it is negative.
pub fn push_signed_decimal(out: &mut Vec<u8>, x: i64)
    ensures
        final(out)@ == old(out)@ + signed_decimal(x as int),
{
    if x < 0 {
        out.push(45u8);
        let magnitude: u128 = (0i128 - (x as i128)) as u128;
        push_decimal(out, magnitude);
        assert(out@ =~= old(out)@ + signed_decimal(x as int));
    } else {
        push_decimal(out, x as u128);
    }
}

/// The number that a signed rendering denotes: a leading `-` negates the digits after it.
pub open spec fn signed_value(s: Seq<u8>) -> int {
    if s.len() > 0 && s[0] == minus_byte() {
        -decimal_value(s.drop_first())
    } else {
        decimal_value(s)
    }
}

/// Reading a signed rendering back gives the number; it holds digits and at
/// most a leading `-`.
pub proof fn lemma_signed_decimal_round_trip(x: int)
    ensures
        signed_value(signed_decimal(x)) == x,
        signed_decimal(x).len() >= 1,
        forall|i: int|
            0 <= i < signed_decimal(x).len() ==> is_digit_byte(#[trigger] signed_decimal(x)[i])
                || (i == 0 && signed_decimal(x)[i] == minus_byte()),
{
    if x < 0 {
        let n = (-x) as nat;
        lemma_decimal_round_trip(n);
        let s = signed_decimal(x);
        assert(s.drop_first() =~= decimal(n));
        assert forall|i: int| 0 <= i < s.len() implies is_digit_byte(#[trigger] s[i]) || (i == 0 && s[i] == minus_byte()) by {
            if i > 0 {
                assert(s[i] == decimal(n)[i - 1]);
            }
        }
    } else {
        lemma_decimal_round_trip(x as nat);
    }
}

} // verus!
