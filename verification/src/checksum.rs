//! The modulo-eleven check digit over a weighted sum of digits.

use vstd::arithmetic::div_mod::lemma_add_mod_noop;
use vstd::prelude::*;

verus! {

/// The numbers held by `values`, as natural numbers.
pub open spec fn as_nats(values: Seq<u32>) -> Seq<nat> {
    values.map_values(|value: u32| value as nat)
}

/// The sum of the products `weights[i] * digits[i]` over the first `count`
/// positions.
pub open spec fn partial_sum(digits: Seq<nat>, weights: Seq<nat>, count: nat) -> nat
    recommends
        count <= weights.len() <= digits.len(),
    decreases count,
{
    if count == 0 {
        0
    } else {
        partial_sum(digits, weights, (count - 1) as nat) + weights[count - 1] * digits[count - 1]
    }
}

/// The sum of the products `weights[i] * digits[i]`, over every position `i`
/// of `weights`. Digits that stand beyond the last weight do not count.
pub open spec fn weighted_sum(digits: Seq<nat>, weights: Seq<nat>) -> nat
    recommends
        weights.len() <= digits.len(),
{
    partial_sum(digits, weights, weights.len())
}

/// The check digit that belongs to a weighted sum: with `r` the remainder of
/// `sum` divided by eleven, it is 0 where `r` is below 2, and `11 - r`
/// otherwise.
pub open spec fn check_digit(sum: nat) -> nat {
    let r = sum % 11;
    if r < 2 {
        0
    } else {
        (11 - r) as nat
    }
}

/// A check digit is a single decimal digit.
pub proof fn lemma_check_digit_is_digit(sum: nat)
    ensures
        check_digit(sum) <= 9,
{
}

/// Two pairs of sequences that agree on the first `count` positions have the
/// same partial sum there.
pub proof fn lemma_partial_sum_agrees(
    digits: Seq<nat>,
    weights: Seq<nat>,
    other_digits: Seq<nat>,
    other_weights: Seq<nat>,
    count: nat,
)
    requires
        count <= digits.len(),
        count <= weights.len(),
        count <= other_digits.len(),
        count <= other_weights.len(),
        forall|i: int| 0 <= i < count ==> digits[i] == other_digits[i],
        forall|i: int| 0 <= i < count ==> weights[i] == other_weights[i],
    ensures
        partial_sum(digits, weights, count) == partial_sum(other_digits, other_weights, count),
    decreases count,
{
    if count > 0 {
        lemma_partial_sum_agrees(
            digits,
            weights,
            other_digits,
            other_weights,
            (count - 1) as nat,
        );
    }
}

/// Only the digits that have a weight enter the weighted sum: digits beyond
/// the last weight can be cut off.
pub proof fn lemma_weighted_sum_of_prefix(digits: Seq<nat>, weights: Seq<nat>)
    requires
        weights.len() <= digits.len(),
    ensures
        weighted_sum(digits, weights) == weighted_sum(digits.take(weights.len() as int), weights),
{
    lemma_partial_sum_agrees(
        digits,
        weights,
        digits.take(weights.len() as int),
        weights,
        weights.len(),
    );
}

/// Computes the check digit of the weighted sum of `cnpj` under `factors`:
/// the digit at each position of `factors` is multiplied by the factor at that
/// position, and the sum of the products is reduced modulo eleven.
///
/// The sum itself is never formed: only its remainder is carried along, so
/// the result is exact whatever the size of the factors.
pub fn check_sum(cnpj: &Vec<u32>, factors: Vec<u32>) -> (digit: u32)
    requires
        factors@.len() <= cnpj@.len(),
    ensures
        digit == check_digit(weighted_sum(as_nats(cnpj@), as_nats(factors@))),
        digit <= 9,
{
    let ghost digits = as_nats(cnpj@);
    let ghost weights = as_nats(factors@);
    let mut mod_11: u64 = 0;
    let mut x: usize = 0;
    while x < factors.len()
        invariant
            x <= factors@.len() <= cnpj@.len(),
            digits == as_nats(cnpj@),
            weights == as_nats(factors@),
            mod_11 == partial_sum(digits, weights, x as nat) % 11,
        decreases factors.len() - x,
    {
        let digit: u64 = cnpj[x] as u64;
        let factor: u64 = factors[x] as u64;
        assert(factor * digit <= 0xffff_ffff * 0xffff_ffff) by (nonlinear_arith)
            requires
                digit <= 0xffff_ffff,
                factor <= 0xffff_ffff,
        ;
        proof {
            let done = partial_sum(digits, weights, x as nat);
            assert(partial_sum(digits, weights, (x + 1) as nat) == done + factor * digit);
            lemma_add_mod_noop(done as int, (factor * digit) as int, 11);
        }
        mod_11 = (mod_11 + (factor * digit) % 11) % 11;
        x += 1;
    }
    if mod_11 < 2 {
        0
    } else {
        (11 - mod_11) as u32
    }
}

} // verus!
