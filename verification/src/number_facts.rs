//! The number that a numeral writes, and that its canonical form writes the
//! same number.

use crate::lexical::{is_digit, lemma_run_end, Run};
use crate::number::{
    canonical, canonical_end, canonical_start, drop_zeros, is_numeral, lemma_canonical_bounds,
    lemma_canonical_is_canonical, lemma_drop_zeros, lemma_skip_zeros, whole_len,
};
use vstd::prelude::*;

verus! {

/// The value of the decimal digit `c`.
pub open spec fn digit_value(c: char) -> nat
    recommends
        is_digit(c),
{
    (c as int - '0' as int) as nat
}

/// The natural number that the digits `digits` write.
pub open spec fn digits_value(digits: Seq<char>) -> nat
    decreases digits.len(),
{
    if digits.len() == 0 {
        0
    } else {
        10 * digits_value(digits.drop_last()) + digit_value(digits.last())
    }
}

/// Ten to the power of `exponent`.
pub open spec fn pow10(exponent: nat) -> nat
    decreases exponent,
{
    if exponent == 0 {
        1
    } else {
        10 * pow10((exponent - 1) as nat)
    }
}

/// The number of digits behind the dot of the numeral `s`.
pub open spec fn fraction_len(s: Seq<char>) -> nat {
    if whole_len(s) < s.len() {
        (s.len() - whole_len(s) - 1) as nat
    } else {
        0
    }
}

/// The digits of the numeral `s`: those before the dot, then those behind it.
pub open spec fn digits_of(s: Seq<char>) -> Seq<char> {
    if whole_len(s) < s.len() {
        s.subrange(0, whole_len(s)) + s.subrange(whole_len(s) + 1, s.len() as int)
    } else {
        s
    }
}

/// Whether the numerals `a` and `b` write the same number. A numeral `s`
/// writes the number `digits_value(digits_of(s)) / pow10(fraction_len(s))`.
pub open spec fn same_number(a: Seq<char>, b: Seq<char>) -> bool {
    digits_value(digits_of(a)) * pow10(fraction_len(b)) == digits_value(digits_of(b)) * pow10(
        fraction_len(a),
    )
}

/// Whether `digits` holds zeros only.
pub open spec fn all_zeros(digits: Seq<char>) -> bool {
    forall|i: int| 0 <= i < digits.len() ==> #[trigger] digits[i] == '0'
}

/// Ten to a sum is the product of the powers.
pub proof fn lemma_pow10_sum(a: nat, b: nat)
    ensures
        pow10(a + b) == pow10(a) * pow10(b),
    decreases b,
{
    if b > 0 {
        lemma_pow10_sum(a, (b - 1) as nat);
        assert(pow10(a + b) == 10 * pow10((a + b - 1) as nat));
        assert(10 * (pow10(a) * pow10((b - 1) as nat)) == pow10(a) * (10 * pow10((b - 1) as nat)))
            by (nonlinear_arith);
    } else {
        assert(pow10(a) * 1 == pow10(a)) by (nonlinear_arith);
    }
}

/// Zeros before digits do not change the number.
pub proof fn lemma_leading_zeros(zeros: Seq<char>, digits: Seq<char>)
    requires
        all_zeros(zeros),
    ensures
        digits_value(zeros + digits) == digits_value(digits),
    decreases zeros.len() + digits.len(),
{
    let all = zeros + digits;
    if digits.len() > 0 {
        assert(all.drop_last() =~= zeros + digits.drop_last());
        assert(all.last() == digits.last());
        lemma_leading_zeros(zeros, digits.drop_last());
    } else if zeros.len() > 0 {
        assert(all =~= zeros);
        assert(zeros.drop_last() + Seq::<char>::empty() =~= zeros.drop_last());
        lemma_leading_zeros(zeros.drop_last(), Seq::empty());
        assert(digits_value(Seq::<char>::empty()) == 0);
        assert(zeros.last() == '0');
    } else {
        assert(all =~= digits);
    }
}

/// Each zero behind digits makes the number ten times as large.
pub proof fn lemma_trailing_zeros(digits: Seq<char>, zeros: Seq<char>)
    requires
        all_zeros(zeros),
    ensures
        digits_value(digits + zeros) == digits_value(digits) * pow10(zeros.len()),
    decreases zeros.len(),
{
    let all = digits + zeros;
    if zeros.len() > 0 {
        assert(all.drop_last() =~= digits + zeros.drop_last());
        assert(all.last() == zeros.last());
        lemma_trailing_zeros(digits, zeros.drop_last());
        let value = digits_value(digits);
        let power = pow10((zeros.len() - 1) as nat);
        assert(10 * (value * power) == value * (10 * power)) by (nonlinear_arith);
    } else {
        assert(all =~= digits);
        assert(digits_value(digits) * 1 == digits_value(digits)) by (nonlinear_arith);
    }
}

/// The canonical form of a numeral writes the same number as the numeral.
pub proof fn lemma_canonical_same_number(s: Seq<char>)
    requires
        is_numeral(s),
    ensures
        same_number(s, canonical(s)),
{
    let whole = whole_len(s);
    let start = canonical_start(s);
    let end = canonical_end(s);
    let c = canonical(s);
    let len = s.len() as int;
    lemma_canonical_bounds(s);
    lemma_canonical_is_canonical(s);
    lemma_run_end(s, 0, Run::Digits);
    lemma_skip_zeros(s, 0, whole - 1);
    // The digits of the numeral are zeros, the digits of its canonical form,
    // and zeros again.
    let leading = s.subrange(0, start);
    let kept = digits_of(c);
    let trailing = if whole < len {
        if end == whole {
            s.subrange(whole + 1, len)
        } else {
            s.subrange(end, len)
        }
    } else {
        Seq::<char>::empty()
    };
    if whole < len {
        lemma_drop_zeros(s, len, whole + 1);
        assert(drop_zeros(s, len, whole + 1) == if end == whole {
            whole + 1
        } else {
            end
        });
    }
    assert(all_zeros(leading));
    assert(all_zeros(trailing));
    assert(whole_len(c) == whole - start);
    if end == whole {
        assert(kept =~= s.subrange(start, whole));
    } else {
        assert(c.subrange(0, whole - start) =~= s.subrange(start, whole));
        assert(c.subrange(whole - start + 1, c.len() as int) =~= s.subrange(whole + 1, end));
        assert(kept =~= s.subrange(start, whole) + s.subrange(whole + 1, end));
    }
    assert(digits_of(s) =~= leading + (kept + trailing));
    assert(fraction_len(s) == fraction_len(c) + trailing.len());
    lemma_leading_zeros(leading, kept + trailing);
    lemma_trailing_zeros(kept, trailing);
    lemma_pow10_sum(fraction_len(c), trailing.len());
    let value = digits_value(kept);
    let shift = pow10(trailing.len());
    let scale = pow10(fraction_len(c));
    assert((value * shift) * scale == value * (scale * shift)) by (nonlinear_arith);
}

} // verus!
