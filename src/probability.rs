//! Factorials, permutations and combinations.

use vstd::prelude::*;
use vstd::arithmetic::div_mod::lemma_div_denominator;
use vstd::arithmetic::div_mod::lemma_div_multiples_vanish;
use crate::errors::MathError;

verus! {

/// `n!`
pub open spec fn factorial_spec(n: nat) -> nat
    decreases n,
{
    if n == 0 {
        1
    } else {
        n * factorial_spec((n - 1) as nat)
    }
}

/// The falling factorial `n · (n-1) · … · (n-r+1)`: the number of ordered
/// selections of `r` items out of `n`.
pub open spec fn permutation_spec(n: nat, r: nat) -> nat
    decreases r,
{
    if r == 0 {
        1
    } else {
        n * permutation_spec((n - 1) as nat, (r - 1) as nat)
    }
}

/// `n! / (r! · (n-r)!)`: the number of unordered selections of `r` items out of `n`.
pub open spec fn combination_spec(n: nat, r: nat) -> nat {
    factorial_spec(n) / (factorial_spec(r) * factorial_spec((n - r) as nat))
}

/// Factorials are positive.
pub proof fn lemma_factorial_positive(n: nat)
    ensures
        factorial_spec(n) >= 1,
    decreases n,
{
    if n > 0 {
        lemma_factorial_positive((n - 1) as nat);
        assert(n * factorial_spec((n - 1) as nat) >= 1) by (nonlinear_arith)
            requires
                n >= 1,
                factorial_spec((n - 1) as nat) >= 1,
        ;
    }
}

/// Factorials do not decrease.
pub proof fn lemma_factorial_monotone(m: nat, n: nat)
    requires
        m <= n,
    ensures
        factorial_spec(m) <= factorial_spec(n),
    decreases n - m,
{
    if m < n {
        lemma_factorial_monotone(m, (n - 1) as nat);
        lemma_factorial_positive((n - 1) as nat);
        assert(factorial_spec((n - 1) as nat) <= n * factorial_spec((n - 1) as nat)) by (nonlinear_arith)
            requires
                n >= 1,
        ;
    }
}

/// `n! == P(n, k) · (n-k)!`
pub proof fn lemma_factorial_split(n: nat, k: nat)
    requires
        k <= n,
    ensures
        factorial_spec(n) == permutation_spec(n, k) * factorial_spec((n - k) as nat),
    decreases k,
{
    if k > 0 {
        lemma_factorial_split((n - 1) as nat, (k - 1) as nat);
        let p = permutation_spec((n - 1) as nat, (k - 1) as nat);
        let f = factorial_spec((n - k) as nat);
        assert(((n - 1) as nat - (k - 1) as nat) as nat == (n - k) as nat);
        assert(factorial_spec(n) == n * factorial_spec((n - 1) as nat));
        assert(permutation_spec(n, k) == n * p);
        assert(factorial_spec((n - 1) as nat) == p * f);
        assert(n * (p * f) == (n * p) * f) by (nonlinear_arith);
    } else {
        assert(permutation_spec(n, 0) == 1);
        assert((n - 0) as nat == n);
        assert(1 * factorial_spec(n) == factorial_spec(n));
    }
}

/// Lengthening the selection never shrinks the count: `P(m, j) <= P(m + 1, j + 1)`,
/// hence `P(n - r + j, j) <= P(n, r)` for `j <= r <= n`.
pub proof fn lemma_permutation_grows(n: nat, r: nat, j: nat)
    requires
        j <= r <= n,
    ensures
        permutation_spec((n - r + j) as nat, j) <= permutation_spec(n, r),
    decreases r - j,
{
    if j < r {
        lemma_permutation_grows(n, r, j + 1);
        let m = (n - r + j) as nat;
        let p = permutation_spec(m, j);
        assert(p <= (m + 1) * p) by (nonlinear_arith);
        assert(((m + 1) - 1) as nat == m);
    }
}

/// `r! <= P(n, r)` when `r <= n`.
pub proof fn lemma_factorial_le_permutation(n: nat, r: nat)
    requires
        r <= n,
    ensures
        factorial_spec(r) <= permutation_spec(n, r),
    decreases r,
{
    if r > 0 {
        lemma_factorial_le_permutation((n - 1) as nat, (r - 1) as nat);
        let f = factorial_spec((r - 1) as nat);
        let p = permutation_spec((n - 1) as nat, (r - 1) as nat);
        assert(r * f <= n * p) by (nonlinear_arith)
            requires
                r <= n,
                f <= p,
        ;
    }
}

/// Choosing `r` items is the same as choosing the `n - r` to leave out.
pub proof fn lemma_combination_symmetric(n: nat, r: nat)
    requires
        r <= n,
    ensures
        combination_spec(n, r) == combination_spec(n, (n - r) as nat),
{
    assert((n - (n - r) as nat) as nat == r);
    let a = factorial_spec(r);
    let b = factorial_spec((n - r) as nat);
    assert(a * b == b * a) by (nonlinear_arith);
}

/// `C(n, r) == P(n, r) / r!`
pub proof fn lemma_combination_by_permutation(n: nat, r: nat)
    requires
        r <= n,
    ensures
        combination_spec(n, r) == permutation_spec(n, r) / factorial_spec(r),
{
    lemma_factorial_split(n, r);
    lemma_factorial_positive(r);
    lemma_factorial_positive((n - r) as nat);
    let p = permutation_spec(n, r);
    let f = factorial_spec((n - r) as nat);
    let fr = factorial_spec(r);
    lemma_div_denominator((p * f) as int, f as int, fr as int);
    lemma_div_multiples_vanish(p as int, f as int);
    assert(p * f == f * p) by (nonlinear_arith);
    assert(f * fr == fr * f) by (nonlinear_arith);
}

/// Relies on std's `format!`: the refusal message names both arguments.
#[verifier::external_body]
fn range_message(r: u64, n: u64) -> String {
    format!("r ({}) cannot be greater than n ({})", r, n)
}

/// `n!`; the product must fit in a `u64`, which holds up to `20!`.
pub fn factorial(n: u64) -> (r: u64)
    requires
        factorial_spec(n as nat) <= u64::MAX,
    ensures
        r == factorial_spec(n as nat),
{
    let mut acc: u64 = 1;
    let mut i: u64 = 0;
    while i < n
        invariant
            i <= n,
            factorial_spec(n as nat) <= u64::MAX,
            acc == factorial_spec(i as nat),
        decreases n - i,
    {
        i = i + 1;
        proof {
            lemma_factorial_monotone(i as nat, n as nat);
            let f = factorial_spec((i - 1) as nat);
            assert(factorial_spec(i as nat) == i * f);
            assert(acc * i == i * f) by (nonlinear_arith)
                requires
                    acc == f,
            ;
        }
        acc = acc * i;
    }
    acc
}

/// Relies on std's `format!`: the overflow message names both arguments.
#[verifier::external_body]
fn overflow_message(n: u64, r: u64) -> String {
    format!("the count for n = {}, r = {} does not fit in 64 bits", n, r)
}

/// The smaller of `r` and `n - r`, the number of factors that `combination` multiplies.
pub open spec fn short_side(n: nat, r: nat) -> nat {
    if r <= n - r {
        r
    } else {
        (n - r) as nat
    }
}

/// `P(n, r) = n! / (n-r)!`, the ordered selections of `r` out of `n`.
/// Fails with `InvalidRange` when `r > n`, and with `OutOfRange` when the
/// count does not fit in a `u64`.
pub fn permutation(n: u64, r: u64) -> (res: Result<u64, MathError>)
    ensures
        match res {
            Ok(v) => r <= n && v == permutation_spec(n as nat, r as nat),
            Err(e) => {
                ||| r > n && e matches MathError::InvalidRange(_)
                ||| r <= n && permutation_spec(n as nat, r as nat) > u64::MAX && e matches MathError::OutOfRange(_)
            },
        },
{
    if r > n {
        return Err(MathError::InvalidRange(range_message(r, n)));
    }
    if r == 0 {
        return Ok(1);
    }
    let mut acc: u64 = 1;
    let mut j: u64 = 0;
    while j < r
        invariant
            j <= r <= n,
            acc == permutation_spec((n - r + j) as nat, j as nat),
        decreases r - j,
    {
        let m = n - r + j + 1;
        proof {
            lemma_permutation_grows(n as nat, r as nat, (j + 1) as nat);
            assert((m - 1) as nat == (n - r + j) as nat);
            let p = permutation_spec((m - 1) as nat, j as nat);
            assert(permutation_spec(m as nat, (j + 1) as nat) == m * p);
            assert(acc * m == m * p) by (nonlinear_arith)
                requires
                    acc == p,
            ;
        }
        match acc.checked_mul(m) {
            Some(v) => {
                acc = v;
            },
            None => {
                return Err(MathError::OutOfRange(overflow_message(n, r)));
            },
        }
        j = j + 1;
    }
    Ok(acc)
}

/// `C(n, r) = n! / (r! · (n-r)!)`, computed as `P(n, k) / k!` with
/// `k = min(r, n - r)`. Fails with `InvalidRange` when `r > n`, and with
/// `OutOfRange` when `P(n, k)` does not fit in a `u64`.
pub fn combination(n: u64, r: u64) -> (res: Result<u64, MathError>)
    ensures
        match res {
            Ok(v) => r <= n && v == combination_spec(n as nat, r as nat),
            Err(e) => {
                ||| r > n && e matches MathError::InvalidRange(_)
                ||| r <= n && permutation_spec(n as nat, short_side(n as nat, r as nat)) > u64::MAX
                    && e matches MathError::OutOfRange(_)
            },
        },
{
    if r > n {
        return Err(MathError::InvalidRange(range_message(r, n)));
    }
    let k = if r <= n - r { r } else { n - r };
    proof {
        lemma_combination_symmetric(n as nat, r as nat);
        lemma_combination_by_permutation(n as nat, k as nat);
    }
    if k == 0 {
        assert(permutation_spec(n as nat, 0) == 1);
        assert(factorial_spec(0) == 1);
        assert(combination_spec(n as nat, k as nat) == permutation_spec(n as nat, 0) / factorial_spec(0));
        assert(1nat / 1nat == 1);
        assert(combination_spec(n as nat, r as nat) == combination_spec(n as nat, k as nat));
        return Ok(1);
    }
    let perm = match permutation(n, k) {
        Ok(v) => v,
        Err(e) => return Err(e),
    };
    proof {
        lemma_factorial_le_permutation(n as nat, k as nat);
    }
    let fact_k = factorial(k);
    proof {
        lemma_factorial_positive(k as nat);
    }
    Ok(perm / fact_k)
}

} // verus!
