//! Primality, prime factorisation, divisors, GCD and LCM.

use vstd::prelude::*;
use vstd::arithmetic::div_mod::{lemma_fundamental_div_mod, lemma_mod_multiples_basic};
use vstd::arithmetic::power::{pow, lemma_pow0, lemma_pow_adds, lemma_pow1, lemma_pow_increases};
use std::collections::HashMap;
use crate::errors::MathError;

verus! {

/// `d` divides `n` (only positive divisors are considered).
pub open spec fn divides(d: nat, n: nat) -> bool {
    d > 0 && n % d == 0
}

/// `n` is a prime: at least 2, and no number in `2..n` divides it.
pub open spec fn is_prime_spec(n: nat) -> bool {
    n >= 2 && forall|k: nat| 2 <= k < n ==> #[trigger] (n % k) != 0
}

/// Greatest common divisor, by Euclid's recurrence.
pub open spec fn gcd_spec(a: nat, b: nat) -> nat
    decreases b,
{
    if b == 0 {
        a
    } else {
        gcd_spec(b, a % b)
    }
}

/// Least common multiple; zero when either argument is zero.
pub open spec fn lcm_spec(a: nat, b: nat) -> nat {
    if a == 0 || b == 0 {
        0
    } else {
        (a * b) / gcd_spec(a, b)
    }
}

/// A multiple of `g` plus a multiple of `g` is a multiple of `g`.
pub proof fn lemma_divides_combination(g: nat, b: nat, q: nat, r: nat)
    requires
        g > 0,
        b % g == 0,
        r % g == 0,
    ensures
        (b * q + r) % g == 0,
{
    lemma_fundamental_div_mod(b as int, g as int);
    lemma_fundamental_div_mod(r as int, g as int);
    let k1 = b / g;
    let k2 = r / g;
    assert(b * q + r == g * (k1 * q + k2)) by (nonlinear_arith)
        requires
            b == g * k1,
            r == g * k2,
    ;
    lemma_mod_multiples_basic((k1 * q + k2) as int, g as int);
    assert((k1 * q + k2) * g == g * (k1 * q + k2)) by (nonlinear_arith);
}

/// Divisibility is transitive.
pub proof fn lemma_divides_trans(a: nat, b: nat, c: nat)
    requires
        divides(a, b),
        divides(b, c),
    ensures
        divides(a, c),
{
    lemma_fundamental_div_mod(c as int, b as int);
    assert(c == b * (c / b));
    lemma_divides_combination(a, b, c / b, 0);
    assert(0nat % a == 0);
}

/// The GCD divides both of its arguments, and is positive unless both are zero.
pub proof fn lemma_gcd_divides(a: nat, b: nat)
    ensures
        a > 0 || b > 0 ==> gcd_spec(a, b) > 0,
        gcd_spec(a, b) > 0 ==> a % gcd_spec(a, b) == 0 && b % gcd_spec(a, b) == 0,
    decreases b,
{
    if b == 0 {
        if a > 0 {
            lemma_mod_multiples_basic(1, a as int);
        }
    } else {
        lemma_gcd_divides(b, a % b);
        let g = gcd_spec(b, a % b);
        if g > 0 {
            lemma_fundamental_div_mod(a as int, b as int);
            lemma_divides_combination(g, b, a / b, a % b);
            assert(a == b * (a / b) + a % b);
        }
    }
}

/// Every common divisor of `a` and `b` divides their GCD.
pub proof fn lemma_gcd_greatest(a: nat, b: nat, d: nat)
    requires
        d > 0,
        a % d == 0,
        b % d == 0,
    ensures
        gcd_spec(a, b) % d == 0,
    decreases b,
{
    if b > 0 {
        lemma_fundamental_div_mod(a as int, b as int);
        lemma_fundamental_div_mod(a as int, d as int);
        lemma_fundamental_div_mod(b as int, d as int);
        let q = a / b;
        let r = a % b;
        let k1 = a / d;
        let k2 = b / d;
        let k = k1 - k2 * q;
        assert(r == d * k) by (nonlinear_arith)
            requires
                a == b * q + r,
                a == d * k1,
                b == d * k2,
                k == k1 - k2 * q,
        ;
        lemma_mod_multiples_basic(k, d as int);
        assert(k * d == d * k) by (nonlinear_arith);
        lemma_gcd_greatest(b, r, d);
    }
}

/// A number at least 2 with no divisor in `2..d`, where `d * d > n`, is prime.
pub proof fn lemma_no_small_divisor_is_prime(n: nat, d: nat)
    requires
        n >= 2,
        d * d > n,
        forall|k: nat| 2 <= k < d ==> #[trigger] (n % k) != 0,
    ensures
        is_prime_spec(n),
{
    assert forall|k: nat| 2 <= k < n implies #[trigger] (n % k) != 0 by {
        if k >= d && n % k == 0 {
            lemma_fundamental_div_mod(n as int, k as int);
            let j = n / k;
            assert(n == k * j);
            if j >= d {
                assert(k * j >= d * d) by (nonlinear_arith)
                    requires
                        k >= d,
                        j >= d,
                ;
            }
            if j <= 1 {
                assert(k * j <= k) by (nonlinear_arith)
                    requires
                        j <= 1,
                ;
            }
            lemma_mod_multiples_basic(k as int, j as int);
            assert(n % j == 0);
            assert((n % j) != 0);
        }
    }
}

/// An odd number is not a multiple of an even one.
pub proof fn lemma_odd_not_multiple_of_even(n: nat, k: nat)
    requires
        n % 2 == 1,
        k % 2 == 0,
        k > 0,
    ensures
        n % k != 0,
{
    if n % k == 0 {
        lemma_divides_trans(2, k, n);
    }
}

/// `d <= n / d` holds exactly when `d * d <= n`.
pub proof fn lemma_square_le(n: nat, d: nat)
    requires
        d > 0,
    ensures
        d <= n / d <==> d * d <= n,
{
    lemma_fundamental_div_mod(n as int, d as int);
    let q = n / d;
    let r = n % d;
    assert(n == d * q + r && r < d);
    if d <= q {
        assert(d * d <= n) by (nonlinear_arith)
            requires
                d <= q,
                n == d * q + r,
                r >= 0,
        ;
    } else {
        assert(d * d > n) by (nonlinear_arith)
            requires
                q + 1 <= d,
                n == d * q + r,
                r < d,
        ;
    }
}

/// True exactly when `n` is a prime; tries odd divisors up to the square root.
pub fn is_prime(n: u64) -> (r: bool)
    ensures
        r == is_prime_spec(n as nat),
{
    if n < 2 {
        return false;
    }
    if n == 2 {
        return true;
    }
    if n % 2 == 0 {
        assert((n as nat) % 2 == 0);
        return false;
    }
    let mut divisor: u64 = 3;
    while divisor <= n / divisor
        invariant
            3 <= divisor <= n,
            divisor % 2 == 1,
            n % 2 == 1,
            forall|k: nat| 2 <= k < divisor ==> #[trigger] ((n as nat) % k) != 0,
        decreases n - divisor,
    {
        if n % divisor == 0 {
            assert((n as nat) % (divisor as nat) == 0);
            assert(divisor < n) by {
                lemma_square_le(n as nat, divisor as nat);
                assert((divisor as nat) * (divisor as nat) > divisor) by (nonlinear_arith)
                    requires
                        divisor >= 3,
                ;
            }
            return false;
        }
        proof {
            lemma_odd_not_multiple_of_even(n as nat, (divisor + 1) as nat);
            lemma_square_le(n as nat, divisor as nat);
            assert((divisor as nat) * (divisor as nat) >= 3 * divisor) by (nonlinear_arith)
                requires
                    divisor >= 3,
            ;
        }
        divisor = divisor + 2;
    }
    proof {
        lemma_square_le(n as nat, divisor as nat);
        lemma_no_small_divisor_is_prime(n as nat, divisor as nat);
    }
    true
}

/// Greatest common divisor, by the Euclidean algorithm: it divides both
/// arguments and every common divisor divides it; `gcd(0, 0) == 0`.
pub fn gcd(a: u64, b: u64) -> (r: u64)
    ensures
        r == gcd_spec(a as nat, b as nat),
        r > 0 ==> a % r == 0 && b % r == 0,
        r == 0 <==> a == 0 && b == 0,
        forall|d: nat| d > 0 && #[trigger] ((a as nat) % d) == 0 && (b as nat) % d == 0 ==> (r as nat) % d == 0,
{
    proof {
        lemma_gcd_divides(a as nat, b as nat);
        assert forall|d: nat| d > 0 && #[trigger] ((a as nat) % d) == 0 && (b as nat) % d == 0 implies gcd_spec(a as nat, b as nat) % d == 0 by {
            lemma_gcd_greatest(a as nat, b as nat, d);
        }
        if a == 0 && b == 0 {
            assert(gcd_spec(0, 0) == 0);
        }
    }
    let mut x = a;
    let mut y = b;
    while y != 0
        invariant
            gcd_spec(x as nat, y as nat) == gcd_spec(a as nat, b as nat),
        decreases y,
    {
        let t = y;
        y = x % y;
        x = t;
    }
    x
}

/// Least common multiple; zero when either argument is zero.
pub fn lcm(a: u64, b: u64) -> (r: u64)
    requires
        lcm_spec(a as nat, b as nat) <= u64::MAX,
    ensures
        r == lcm_spec(a as nat, b as nat),
{
    if a == 0 || b == 0 {
        return 0;
    }
    let g = gcd(a, b);
    proof {
        lemma_gcd_divides(a as nat, b as nat);
        lemma_fundamental_div_mod(a as int, g as int);
        let q = (a as nat) / (g as nat);
        assert(a == g * q);
        assert((a as nat) * (b as nat) == g * (q * b)) by (nonlinear_arith)
            requires
                a == g * q,
        ;
        lemma_mod_multiples_basic((q * b) as int, g as int);
        lemma_fundamental_div_mod((a as nat * b as nat) as int, g as int);
        assert(g * (q * b) == (q * b) * g) by (nonlinear_arith);
        assert((a as nat * b as nat) / (g as nat) == q * b) by (nonlinear_arith)
            requires
                (a as nat * b as nat) == g * (q * b),
                g > 0,
        ;
    }
    (a / g) * b
}

/// The product of `p^e` over the entries `(p, e)` of `s`.
pub open spec fn factor_product(s: Seq<(u64, u32)>) -> int
    decreases s.len(),
{
    if s.len() == 0 {
        1
    } else {
        factor_product(s.drop_last()) * pow(s.last().0 as int, s.last().1 as nat)
    }
}

/// `s` lists primes in strictly increasing order, each with a positive
/// exponent, and the product of the prime powers is `n`.
pub open spec fn is_prime_factorization(s: Seq<(u64, u32)>, n: nat) -> bool {
    &&& forall|i: int| 0 <= i < s.len() ==> is_prime_spec(#[trigger] s[i].0 as nat) && s[i].1 >= 1
    &&& forall|i: int, j: int| 0 <= i < j < s.len() ==> #[trigger] s[i].0 < #[trigger] s[j].0
    &&& factor_product(s) == n
}

/// The map sends each prime of `s` to its exponent, and holds nothing else.
pub open spec fn tabulates(m: Map<u64, u32>, s: Seq<(u64, u32)>) -> bool {
    &&& forall|p: u64| #[trigger] m.contains_key(p) <==> exists|i: int| 0 <= i < s.len() && #[trigger] s[i].0 == p
    &&& forall|i: int| 0 <= i < s.len() ==> m[#[trigger] s[i].0] == s[i].1
}

/// Divides `d` out of `m` as often as it goes, returning the quotient and the count.
fn strip_factor(m: u64, d: u64) -> (r: (u64, u32))
    requires
        m >= 1,
        d >= 2,
    ensures
        r.0 >= 1,
        r.0 % d != 0,
        pow(d as int, r.1 as nat) * r.0 == m,
{
    let mut q = m;
    let mut e: u32 = 0;
    proof {
        lemma_pow0(d as int);
        lemma_pow0(2);
    }
    while q % d == 0
        invariant
            d >= 2,
            q >= 1,
            pow(d as int, e as nat) * q == m,
            pow(2, e as nat) * q <= m,
        decreases q,
    {
        let q2 = q / d;
        proof {
            lemma_fundamental_div_mod(q as int, d as int);
            assert(q == d * q2);
            lemma_pow_adds(d as int, e as nat, 1);
            lemma_pow_adds(2, e as nat, 1);
            lemma_pow1(d as int);
            lemma_pow1(2);
            let pd = pow(d as int, e as nat);
            let two_pow = pow(2, e as nat);
            vstd::arithmetic::power::lemma_pow_positive(2, e as nat);
            assert(pd * d * q2 == m) by (nonlinear_arith)
                requires
                    pd * q == m,
                    q == d * q2,
            ;
            assert(two_pow * 2 * q2 <= m) by (nonlinear_arith)
                requires
                    two_pow * q <= m,
                    q == d * q2,
                    d >= 2,
                    two_pow >= 0,
                    q2 >= 0,
            ;
            assert(q2 >= 1) by (nonlinear_arith)
                requires
                    q == d * q2,
                    q >= 1,
            ;
            assert(two_pow * 2 <= m) by (nonlinear_arith)
                requires
                    two_pow * 2 * q2 <= m,
                    q2 >= 1,
                    two_pow >= 0,
            ;
            if e >= 64 {
                lemma_pow_increases(2, 64, e as nat);
                vstd::arithmetic::power2::lemma2_to64();
                vstd::arithmetic::power2::lemma_pow2(64);
                assert(two_pow >= 0x1_0000_0000_0000_0000);
                assert(false);
            }
            assert(q2 < q) by (nonlinear_arith)
                requires
                    q == d * q2,
                    d >= 2,
                    q >= 1,
            ;
        }
        q = q2;
        e = e + 1;
    }
    (q, e)
}

/// The prime factors of `n >= 2`, in increasing order, with their exponents.
fn prime_factor_list(n: u64) -> (r: Vec<(u64, u32)>)
    requires
        n >= 2,
    ensures
        is_prime_factorization(r@, n as nat),
{
    let mut m: u64 = n;
    let mut list: Vec<(u64, u32)> = Vec::new();
    let mut d: u64 = 2;
    while d <= m / d
        invariant
            2 <= d <= n + 2,
            1 <= m <= n,
            d > 2 ==> d % 2 == 1 && m % 2 == 1,
            factor_product(list@) * m == n,
            forall|k: nat| 2 <= k < d ==> #[trigger] ((m as nat) % k) != 0,
            forall|i: int| 0 <= i < list@.len() ==> is_prime_spec(#[trigger] list@[i].0 as nat) && list@[i].1 >= 1 && list@[i].0 < d,
            forall|i: int, j: int| 0 <= i < j < list@.len() ==> #[trigger] list@[i].0 < #[trigger] list@[j].0,
        decreases n + 2 - d,
    {
        let ghost old_list = list@;
        let ghost old_m = m;
        let (q, e) = strip_factor(m, d);
        let ghost pd = pow(d as int, e as nat);
        proof {
            vstd::arithmetic::power::lemma_pow_positive(d as int, e as nat);
            lemma_mod_multiples_basic(pd, q as int);
            assert(pd * q == q * pd) by (nonlinear_arith);
            assert(q <= m) by (nonlinear_arith)
                requires
                    pd * q == m,
                    pd >= 1,
                    q >= 1,
            ;
            lemma_square_le(m as nat, d as nat);
            assert(2 * d <= d * d) by (nonlinear_arith)
                requires
                    d >= 2,
            ;
            assert forall|k: nat| 2 <= k < d implies #[trigger] ((q as nat) % k) != 0 by {
                if (q as nat) % k == 0 {
                    lemma_divides_trans(k, q as nat, m as nat);
                }
            }
        }
        if e > 0 {
            proof {
                assert forall|k: nat| 2 <= k < d implies #[trigger] ((d as nat) % k) != 0 by {
                    if (d as nat) % k == 0 {
                        assert((m as nat) % (d as nat) == 0) by {
                            lemma_pow_adds(d as int, 1, (e - 1) as nat);
                            lemma_pow1(d as int);
                            let rest = pow(d as int, (e - 1) as nat) * q;
                            assert(m == d * rest) by (nonlinear_arith)
                                requires
                                    pd * q == m,
                                    pd == d * pow(d as int, (e - 1) as nat),
                                    rest == pow(d as int, (e - 1) as nat) * q,
                            ;
                            vstd::arithmetic::power::lemma_pow_positive(d as int, (e - 1) as nat);
                            lemma_mod_multiples_basic(rest, d as int);
                            assert(rest * d == d * rest) by (nonlinear_arith);
                        }
                        lemma_divides_trans(k, d as nat, m as nat);
                    }
                }
            }
            list.push((d, e));
            proof {
                assert(list@.drop_last() =~= old_list);
                assert(factor_product(list@) * q == n) by (nonlinear_arith)
                    requires
                        factor_product(list@) == factor_product(old_list) * pd,
                        factor_product(old_list) * old_m == n,
                        pd * q == old_m,
                ;
            }
        } else {
            proof {
                lemma_pow0(d as int);
            }
        }
        proof {
            if d > 2 {
                if (q as nat) % 2 == 0 {
                    lemma_divides_trans(2, q as nat, m as nat);
                }
                lemma_odd_not_multiple_of_even(q as nat, (d + 1) as nat);
            }
        }
        m = q;
        d = if d == 2 { 3 } else { d + 2 };
    }
    proof {
        lemma_square_le(m as nat, d as nat);
    }
    if m > 1 {
        proof {
            lemma_no_small_divisor_is_prime(m as nat, d as nat);
            if m < d {
                assert((m as nat) % (m as nat) == 0) by {
                    lemma_mod_multiples_basic(1, m as int);
                }
            }
        }
        let ghost old_list = list@;
        list.push((m, 1));
        proof {
            assert(list@.drop_last() =~= old_list);
            lemma_pow1(m as int);
        }
    }
    list
}

/// The prime factorisation of `n`: a map from each prime factor to its exponent.
/// Numbers below 2 have none and are refused.
pub fn prime_factorize(n: u64) -> (r: Result<HashMap<u64, u32>, MathError>)
    ensures
        match r {
            Ok(m) => n >= 2 && exists|s: Seq<(u64, u32)>| is_prime_factorization(s, n as nat) && tabulates(m@, s),
            Err(e) => n < 2 && e matches MathError::InvalidInput(_),
        },
{
    broadcast use vstd::std_specs::hash::group_hash_axioms;
    if n < 2 {
        return Err(MathError::InvalidInput("Number must be >= 2 for factorization".to_string()));
    }
    let list = prime_factor_list(n);
    let mut factors: HashMap<u64, u32> = HashMap::new();
    let mut i: usize = 0;
    while i < list.len()
        invariant
            i <= list@.len(),
            is_prime_factorization(list@, n as nat),
            tabulates(factors@, list@.subrange(0, i as int)),
        decreases list@.len() - i,
    {
        let (p, e) = list[i];
        let ghost before = factors@;
        factors.insert(p, e);
        proof {
            let s = list@.subrange(0, i as int);
            let s2 = list@.subrange(0, i + 1);
            assert forall|q: u64| #[trigger] factors@.contains_key(q) <==> exists|j: int| 0 <= j < s2.len() && #[trigger] s2[j].0 == q by {
                if factors@.contains_key(q) && q != p {
                    assert(before.contains_key(q));
                    let j = choose|j: int| 0 <= j < s.len() && #[trigger] s[j].0 == q;
                    assert(s2[j].0 == q);
                }
                if q == p {
                    assert(s2[i as int].0 == q);
                }
                if exists|j: int| 0 <= j < s2.len() && #[trigger] s2[j].0 == q {
                    let j = choose|j: int| 0 <= j < s2.len() && #[trigger] s2[j].0 == q;
                    if j < i {
                        assert(s[j].0 == q);
                    }
                }
            }
            assert forall|j: int| 0 <= j < s2.len() implies factors@[#[trigger] s2[j].0] == s2[j].1 by {
                if j < i {
                    assert(s[j].0 == s2[j].0);
                    assert(list@[j].0 < list@[i as int].0);
                }
            }
        }
        i = i + 1;
    }
    proof {
        assert(list@.subrange(0, list@.len() as int) =~= list@);
    }
    Ok(factors)
}

/// A divisor `d` of `n` splits it exactly: `n == d * (n / d)`, and the cofactor divides `n` too.
pub proof fn lemma_cofactor(n: nat, d: nat)
    requires
        divides(d, n),
        n > 0,
    ensures
        n == d * (n / d),
        divides(n / d, n),
        n / (n / d) == d,
        d <= n,
{
    lemma_fundamental_div_mod(n as int, d as int);
    let q = n / d;
    if q == 0 {
        assert(d * q == 0) by (nonlinear_arith)
            requires
                q == 0,
        ;
    }
    lemma_mod_multiples_basic(d as int, q as int);
    assert(d * q == q * d) by (nonlinear_arith);
    vstd::arithmetic::div_mod::lemma_div_multiples_vanish(d as int, q as int);
    assert(d <= n) by (nonlinear_arith)
        requires
            n == d * q,
            q >= 1,
    ;
}

/// All positive divisors of `n` in ascending order; none for zero.
pub fn get_divisors(n: u64) -> (r: Vec<u64>)
    ensures
        n == 0 ==> r@.len() == 0,
        forall|i: int, j: int| 0 <= i < j < r@.len() ==> #[trigger] r@[i] < #[trigger] r@[j],
        forall|i: int| 0 <= i < r@.len() ==> divides(#[trigger] r@[i] as nat, n as nat),
        n > 0 ==> forall|d: u64| #[trigger] divides(d as nat, n as nat) ==> r@.contains(d),
{
    if n == 0 {
        return Vec::new();
    }
    let mut small: Vec<u64> = Vec::new();
    let mut large: Vec<u64> = Vec::new();
    let mut i: u64 = 1;
    while i <= n / i
        invariant
            n > 0,
            1 <= i <= n + 1,
            (i - 1) * (i - 1) <= n,
            forall|j: int| 0 <= j < small@.len() ==> {
                &&& 1 <= #[trigger] small@[j] < i
                &&& divides(small@[j] as nat, n as nat)
                &&& small@[j] * small@[j] <= n
            },
            forall|a: int, b: int| 0 <= a < b < small@.len() ==> #[trigger] small@[a] < #[trigger] small@[b],
            forall|k: u64| 1 <= k < i && #[trigger] divides(k as nat, n as nat) ==> small@.contains(k),
            forall|j: int| 0 <= j < large@.len() ==> {
                &&& divides(#[trigger] large@[j] as nat, n as nat)
                &&& large@[j] * large@[j] > n
                &&& n / large@[j] < i
            },
            forall|a: int, b: int| 0 <= a < b < large@.len() ==> #[trigger] large@[a] > #[trigger] large@[b],
            forall|k: u64| 1 <= k < i && #[trigger] divides(k as nat, n as nat) && k != n / k ==> large@.contains((n / k) as u64),
        decreases n + 1 - i,
    {
        proof {
            lemma_square_le(n as nat, i as nat);
        }
        let ghost small0 = small@;
        let ghost large0 = large@;
        if n % i == 0 {
            let q = n / i;
            proof {
                lemma_cofactor(n as nat, i as nat);
            }
            small.push(i);
            if i != q {
                proof {
                    assert(q * q > n) by (nonlinear_arith)
                        requires
                            n == i * q,
                            i < q,
                    ;
                    assert forall|j: int| 0 <= j < large@.len() implies large@[j] > q by {
                        let l = large@[j];
                        lemma_cofactor(n as nat, l as nat);
                        let k = n / l;
                        assert(l > q) by (nonlinear_arith)
                            requires
                                n == l * k,
                                n == i * q,
                                k < i,
                                l > 0,
                        ;
                    }
                }
                large.push(q);
                assert(large@[large@.len() - 1] == q);
            }
            assert(small@[small@.len() - 1] == i);
        }
        proof {
            assert forall|k: u64| 1 <= k < i + 1 && #[trigger] divides(k as nat, n as nat) implies small@.contains(k) by {
                if k < i {
                    let t = choose|t: int| 0 <= t < small0.len() && small0[t] == k;
                    assert(small@[t] == k);
                }
            }
            assert forall|k: u64| 1 <= k < i + 1 && #[trigger] divides(k as nat, n as nat) && k != n / k implies large@.contains((n / k) as u64) by {
                if k < i {
                    let t = choose|t: int| 0 <= t < large0.len() && large0[t] == (n / k) as u64;
                    assert(large@[t] == large0[t]);
                }
            }
        }
        proof {
            assert(i * i <= n);
            assert(i <= n) by (nonlinear_arith)
                requires
                    i * i <= n,
                    i >= 1,
            ;
            assert(i < 0x1_0000_0000) by (nonlinear_arith)
                requires
                    i * i <= n,
                    n <= 0xffff_ffff_ffff_ffff,
            ;
        }
        i = i + 1;
    }
    proof {
        lemma_square_le(n as nat, i as nat);
    }
    let mut r = small.clone();
    let mut j: usize = large.len();
    while j > 0
        invariant
            j <= large@.len(),
            r@.len() == small@.len() + (large@.len() - j),
            forall|t: int| 0 <= t < small@.len() ==> r@[t] == small@[t],
            forall|t: int| small@.len() <= t < r@.len() ==> #[trigger] r@[t] == large@[large@.len() - 1 - (t - small@.len())],
        decreases j,
    {
        j = j - 1;
        r.push(large[j]);
    }
    proof {
        let ns = small@.len() as int;
        let nl = large@.len() as int;
        assert forall|t: int| 0 <= t < r@.len() implies divides(#[trigger] r@[t] as nat, n as nat)
            && (t < ns ==> r@[t] * r@[t] <= n) && (t >= ns ==> r@[t] * r@[t] > n) by {
        }
        assert forall|a: int, b: int| 0 <= a < b < r@.len() implies #[trigger] r@[a] < #[trigger] r@[b] by {
            if b < ns {
            } else if a >= ns {
            } else {
                let x = r@[a];
                let y = r@[b];
                assert(x < y) by (nonlinear_arith)
                    requires
                        x * x <= n,
                        y * y > n,
                ;
            }
        }
        assert forall|d: u64| #[trigger] divides(d as nat, n as nat) implies r@.contains(d) by {
            if d < i {
                let t = choose|t: int| 0 <= t < small@.len() && small@[t] == d;
                assert(r@[t] == d);
            } else {
                lemma_cofactor(n as nat, d as nat);
                let k = (n / d) as u64;
                lemma_cofactor(n as nat, k as nat);
                assert(k < i) by {
                    vstd::arithmetic::div_mod::lemma_div_is_ordered_by_denominator(n as int, i as int, d as int);
                }
                assert(k >= 1) by (nonlinear_arith)
                    requires
                        n == d * k,
                        n > 0,
                ;
                assert(large@.contains(d));
                let t = choose|t: int| 0 <= t < nl && large@[t] == d;
                assert(r@[ns + (nl - 1 - t)] == large@[t]);
            }
        }
    }
    r
}

} // verus!
