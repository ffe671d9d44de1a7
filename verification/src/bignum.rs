//! Exact comparison counting with arbitrary-precision integers, so that the
//! pair count never overflows however many options are loaded.

use vstd::arithmetic::div_mod::lemma_div_multiples_vanish;
use vstd::arithmetic::div_mod::lemma_fundamental_div_mod;
use vstd::arithmetic::div_mod::lemma_mod_multiples_vanish;
use vstd::prelude::*;

use crate::pairs::spec_pair_count;
use num_bigint::BigUint;

verus! {

#[verifier::external_type_specification]
#[verifier::external_body]
pub struct ExBigUint(BigUint);

/// The numeric value that a `BigUint` holds.
pub uninterp spec fn big_value(b: BigUint) -> nat;

/// Relies on `num_bigint::BigUint: From<usize>`: the big integer holding
/// exactly the given value.
#[verifier::external_body]
fn big_from_usize(n: usize) -> (r: BigUint)
    ensures
        big_value(r) == n as nat,
{
    BigUint::from(n)
}

/// Relies on `Mul<&BigUint> for &BigUint` of num_bigint: the exact product.
#[verifier::external_body]
fn big_mul(a: &BigUint, b: &BigUint) -> (r: BigUint)
    ensures
        big_value(r) == big_value(*a) * big_value(*b),
{
    a * b
}

/// Relies on `Div<&BigUint> for &BigUint` of num_bigint: the quotient,
/// rounded down. It panics on a zero divisor, which the precondition
/// rules out.
#[verifier::external_body]
fn big_div(a: &BigUint, b: &BigUint) -> (r: BigUint)
    requires
        big_value(*b) != 0,
    ensures
        big_value(r) == big_value(*a) / big_value(*b),
{
    a / b
}

/// `n!`, the product of `1..=n`.
pub open spec fn spec_factorial(n: nat) -> nat
    decreases n,
{
    if n == 0 {
        1
    } else {
        n * spec_factorial((n - 1) as nat)
    }
}

pub proof fn lemma_factorial_at_least_one(n: nat)
    ensures
        spec_factorial(n) >= 1,
    decreases n,
{
    if n > 0 {
        lemma_factorial_at_least_one((n - 1) as nat);
        assert(spec_factorial(n) >= 1) by (nonlinear_arith)
            requires
                n >= 1 && spec_factorial((n - 1) as nat) >= 1 && spec_factorial(n) == n
                    * spec_factorial((n - 1) as nat),
        ;
    }
}

/// The product of two consecutive integers is even.
proof fn lemma_consecutive_product_even(n: int)
    requires
        n >= 0,
    ensures
        (n * (n - 1)) % 2 == 0,
    decreases n,
{
    if n <= 1 {
        assert(n * (n - 1) == 0) by (nonlinear_arith)
            requires
                0 <= n <= 1,
        ;
    } else {
        lemma_consecutive_product_even(n - 1);
        assert(n * (n - 1) == 2 * (n - 1) + (n - 1) * (n - 2)) by (nonlinear_arith);
        lemma_mod_multiples_vanish(n - 1, (n - 1) * (n - 2), 2);
    }
}

/// For `n >= 2`, the factorial formula `n! / (2! * (n - 2)!)` equals
/// `n * (n - 1) / 2`.
pub proof fn lemma_pair_count_factorial(n: int)
    requires
        n >= 2,
    ensures
        spec_factorial(n as nat) / (spec_factorial(2) * spec_factorial((n - 2) as nat))
            == spec_pair_count(n),
{
    let f = spec_factorial((n - 2) as nat);
    lemma_factorial_at_least_one((n - 2) as nat);
    assert(spec_factorial(0) == 1);
    assert(spec_factorial(1) == 1);
    assert(spec_factorial(2) == 2);
    assert(spec_factorial((n - 1) as nat) == (n - 1) * f);
    assert(spec_factorial(n as nat) == n * ((n - 1) * f));
    let c = spec_pair_count(n);
    lemma_consecutive_product_even(n);
    lemma_fundamental_div_mod(n * (n - 1), 2);
    assert(n * (n - 1) == 2 * c);
    assert(n * ((n - 1) * f) == (2 * f) * c) by (nonlinear_arith)
        requires
            n * (n - 1) == 2 * c,
    ;
    lemma_div_multiples_vanish(c, 2 * (f as int));
    assert(spec_factorial(n as nat) / (2 * f) == c);
}

/// The product of `1..=n`, as an arbitrary-precision integer.
pub fn factorial(n: usize) -> (r: BigUint)
    ensures
        big_value(r) == spec_factorial(n as nat),
{
    let mut acc = big_from_usize(1);
    let mut i: usize = 0;
    while i < n
        invariant
            i <= n,
            big_value(acc) == spec_factorial(i as nat),
        decreases n - i,
    {
        i = i + 1;
        let step = big_from_usize(i);
        let next = big_mul(&acc, &step);
        assert(big_value(next) == spec_factorial(i as nat)) by (nonlinear_arith)
            requires
                big_value(next) == big_value(acc) * (i as nat) && big_value(acc) == spec_factorial(
                    (i - 1) as nat,
                ) && i >= 1 && spec_factorial(i as nat) == (i as nat) * spec_factorial(
                    (i - 1) as nat,
                ),
        ;
        acc = next;
    }
    acc
}

/// The binomial coefficient `C(n, k) = n! / (k! * (n - k)!)`, computed
/// exactly with arbitrary-precision arithmetic.
pub fn nchoosek(n: usize, k: usize) -> (r: BigUint)
    requires
        k <= n,
    ensures
        big_value(r) == spec_factorial(n as nat) / (spec_factorial(k as nat) * spec_factorial(
            (n - k) as nat,
        )),
{
    let top = factorial(n);
    let left = factorial(k);
    let right = factorial(n - k);
    let denom = big_mul(&left, &right);
    proof {
        lemma_factorial_at_least_one(k as nat);
        lemma_factorial_at_least_one((n - k) as nat);
        assert(big_value(denom) >= 1) by (nonlinear_arith)
            requires
                big_value(denom) == spec_factorial(k as nat) * spec_factorial((n - k) as nat)
                    && spec_factorial(k as nat) >= 1 && spec_factorial((n - k) as nat) >= 1,
        ;
    }
    big_div(&top, &denom)
}

/// The exact number of comparisons that `n` options require:
/// `n * (n - 1) / 2`, for every `n`, zero- and one-option lists included.
pub fn pair_count(n: usize) -> (r: BigUint)
    ensures
        big_value(r) == spec_pair_count(n as int),
{
    if n < 2 {
        assert(spec_pair_count(n as int) == 0) by (nonlinear_arith)
            requires
                0 <= n < 2,
        ;
        big_from_usize(0)
    } else {
        let r = nchoosek(n, 2);
        proof {
            lemma_pair_count_factorial(n as int);
        }
        r
    }
}

} // verus!
