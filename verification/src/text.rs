//! Bytes and decimal numbers, the material that every message is written in.

use vstd::prelude::*;
use vstd::utf8::*;

verus! {

/// The decimal digits of `n`, without leading zeros.
pub open spec fn decimal(n: nat) -> Seq<u8>
    decreases n,
{
    if n < 10 {
        seq![(48 + n) as u8]
    } else {
        decimal(n / 10).push((48 + n % 10) as u8)
    }
}

pub open spec fn is_digit(b: u8) -> bool {
    48 <= b <= 57
}

/// Appends `bytes` to `out`.
pub fn push_bytes(out: &mut Vec<u8>, bytes: &[u8])
    ensures
        final(out)@ == old(out)@ + bytes@,
{
    let ghost before = out@;
    let mut i: usize = 0;
    while i < bytes.len()
        invariant
            i <= bytes@.len(),
            out@ == before + bytes@.take(i as int),
        decreases bytes@.len() - i,
    {
        out.push(bytes[i]);
        assert(bytes@.take(i + 1) == bytes@.take(i as int).push(bytes@[i as int]));
        i = i + 1;
    }
    assert(bytes@.take(bytes@.len() as int) == bytes@);
}

/// Appends the UTF-8 encoding of `s` to `out`.
pub fn push_str(out: &mut Vec<u8>, s: &str)
    ensures
        final(out)@ == old(out)@ + encode_utf8(s@),
{
    push_bytes(out, s.as_bytes());
}

/// Whether two byte strings are the same.
pub fn same_bytes(a: &[u8], b: &[u8]) -> (same: bool)
    ensures
        same == (a@ == b@),
{
    if a.len() != b.len() {
        return false;
    }
    let mut i: usize = 0;
    while i < a.len()
        invariant
            a@.len() == b@.len(),
            i <= a@.len(),
            forall|j: int| 0 <= j < i ==> a@[j] == b@[j],
        decreases a@.len() - i,
    {
        if a[i] != b[i] {
            return false;
        }
        i = i + 1;
    }
    assert(a@ =~= b@);
    true
}

/// Whether `bytes` is the UTF-8 encoding of `s`.
pub fn is_str(bytes: &[u8], s: &str) -> (same: bool)
    ensures
        same == (bytes@ == encode_utf8(s@)),
{
    same_bytes(bytes, s.as_bytes())
}

/// Appends the decimal digits of `n` to `out`.
pub fn push_decimal(out: &mut Vec<u8>, n: u64)
    ensures
        final(out)@ == old(out)@ + decimal(n as nat),
    decreases n,
{
    if n >= 10 {
        push_decimal(out, n / 10);
    }
    let digit: u8 = 48u8 + (n % 10) as u8;
    out.push(digit);
    assert(out@ == old(out)@ + decimal(n as nat));
}

/// A decimal numeral starts with a digit, is all digits, and starts with `0`
/// only when it is `0`.
pub proof fn decimal_shape(n: nat)
    ensures
        decimal(n).len() >= 1,
        forall|i: int| 0 <= i < decimal(n).len() ==> is_digit(#[trigger] decimal(n)[i]),
        decimal(n)[0] == 48 <==> n == 0,
        n < 10 <==> decimal(n).len() == 1,
    decreases n,
{
    if n >= 10 {
        decimal_shape(n / 10);
    }
}

/// A number is written digit by digit, the last one last.
pub proof fn decimals_are_written_digit_by_digit(n: nat, d: nat)
    requires
        d < 10,
    ensures
        decimal(d) == seq![(48 + d) as u8],
        n > 0 ==> decimal(10 * n + d) == decimal(n).push((48 + d) as u8),
{
    if n > 0 {
        assert((10 * n + d) / 10 == n);
        assert((10 * n + d) % 10 == d);
    }
}

/// The number that a run of digits stands for.
pub open spec fn numeral(digits: Seq<u8>) -> nat
    decreases digits.len(),
{
    if digits.len() == 0 {
        0
    } else {
        numeral(digits.drop_last()) * 10 + (digits.last() - 48) as nat
    }
}

/// A numeral stands for the number that it was written from.
pub proof fn numeral_of_decimal(n: nat)
    ensures
        numeral(decimal(n)) == n,
    decreases n,
{
    reveal_with_fuel(numeral, 2);
    if n < 10 {
        assert(decimal(n).drop_last() =~= Seq::<u8>::empty());
    } else {
        numeral_of_decimal(n / 10);
        assert(decimal(n).drop_last() =~= decimal(n / 10));
    }
}

/// A run of digits with no leading zero is the numeral of its number.
proof fn decimal_of_numeral(digits: Seq<u8>)
    requires
        digits.len() >= 1,
        forall|i: int| 0 <= i < digits.len() ==> is_digit(#[trigger] digits[i]),
        digits[0] != 48 || digits.len() == 1,
    ensures
        decimal(numeral(digits)) == digits,
        digits.len() > 1 ==> numeral(digits) >= 10,
        digits[0] != 48 ==> numeral(digits) >= 1,
    decreases digits.len(),
{
    reveal_with_fuel(numeral, 2);
    let front = digits.drop_last();
    if front.len() == 0 {
        assert(digits =~= seq![digits[0]]);
        assert(is_digit(digits[0]));
        assert(numeral(front) == 0);
    } else {
        assert(forall|i: int| 0 <= i < front.len() ==> front[i] == digits[i]);
        decimal_of_numeral(front);
        assert(is_digit(digits[digits.len() - 1]));
        let n = numeral(digits);
        assert(n / 10 == numeral(front));
        assert(n % 10 == digits.last() - 48);
        assert(decimal(n) =~= front.push(digits.last()));
    }
}

/// Reads a decimal numeral, as [`push_decimal`] writes it, back into the
/// number; anything else, a number past `u64` too, is no numeral.
pub fn parse_decimal(digits: &[u8]) -> (number: Option<u64>)
    ensures
        number matches Some(n) ==> digits@ == decimal(n as nat),
        number is None ==> forall|n: u64| digits@ != #[trigger] decimal(n as nat),
{
    let mut n: u64 = 0;
    let mut i: usize = 0;
    if digits.len() == 0 || (digits[0] == 48 && digits.len() != 1) {
        proof {
            assert forall|m: u64| digits@ != #[trigger] decimal(m as nat) by {
                decimal_shape(m as nat);
            }
        }
        return None;
    }
    while i < digits.len()
        invariant
            i <= digits@.len(),
            n == numeral(digits@.take(i as int)),
            forall|j: int| 0 <= j < i ==> is_digit(#[trigger] digits@[j]),
        decreases digits@.len() - i,
    {
        let b: u8 = digits[i];
        if b < 48 || b > 57 {
            proof {
                assert forall|m: u64| digits@ != #[trigger] decimal(m as nat) by {
                    decimal_shape(m as nat);
                    if digits@ == decimal(m as nat) {
                        assert(is_digit(decimal(m as nat)[i as int]));
                    }
                }
            }
            return None;
        }
        let d: u64 = (b - 48) as u64;
        let ghost here = digits@.take(i + 1);
        assert(here.drop_last() == digits@.take(i as int));
        assert(numeral(here) == n * 10 + d);
        if n > u64::MAX / 10 || n * 10 > u64::MAX - d {
            proof {
                numeral_grows(digits@, i + 1);
                assert forall|m: u64| digits@ != #[trigger] decimal(m as nat) by {
                    numeral_of_decimal(m as nat);
                }
            }
            return None;
        }
        n = n * 10 + d;
        i = i + 1;
    }
    assert(digits@.take(digits@.len() as int) == digits@);
    proof {
        decimal_of_numeral(digits@);
    }
    Some(n)
}

/// A longer run of digits stands for no smaller a number.
proof fn numeral_grows(digits: Seq<u8>, k: int)
    requires
        0 <= k <= digits.len(),
    ensures
        numeral(digits.take(k)) <= numeral(digits),
    decreases digits.len() - k,
{
    if k == digits.len() {
        assert(digits.take(k) == digits);
    } else {
        assert(digits.take(k + 1).drop_last() == digits.take(k));
        numeral_grows(digits, k + 1);
    }
}

} // verus!
