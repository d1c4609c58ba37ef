//! Factoring `ax² + bx + c` into `(px + q)(rx + s)` over the integers.

use vstd::prelude::*;
use crate::prime::{divides, lemma_cofactor, lemma_square_le};

verus! {

/// `|v|`
pub open spec fn abs_spec(v: int) -> int {
    if v < 0 {
        -v
    } else {
        v
    }
}

/// The factor pairs considered for `m >= 0`: every `(x, y)` of positive
/// integers with `x · y == m`; for zero, just `(1, 0)` and `(0, 1)`.
pub open spec fn is_listed_pair(m: int, x: int, y: int) -> bool {
    if m == 0 {
        (x == 1 && y == 0) || (x == 0 && y == 1)
    } else {
        x >= 1 && y >= 1 && x * y == m
    }
}

/// `x` with the sign of `v` applied: negated when `v` is negative.
pub open spec fn sign_as(v: int, x: int) -> int {
    if v < 0 {
        -x
    } else {
        x
    }
}

/// `(px + q)(rx + s) == ax² + bx + c`, coefficient by coefficient.
pub open spec fn factors_as(a: int, b: int, c: int, p: int, q: int, r: int, s: int) -> bool {
    p * r == a && q * s == c && p * s + r * q == b
}

/// The factor pairs `(x, y)` of `|a|` and `(u, v)` of `|c|`, signed as `a` and
/// `c` are, give a factorisation `(±x·t ± u)(±y·t ± v)`.
pub open spec fn candidate_works(a: int, b: int, c: int, x: int, y: int, u: int, v: int) -> bool {
    factors_as(a, b, c, sign_as(a, x), sign_as(c, u), sign_as(a, y), sign_as(c, v))
}

/// The largest `s` with `s * s <= m`.
fn integer_sqrt(m: i32) -> (s: i32)
    requires
        m >= 0,
    ensures
        s >= 0,
        s * s <= m,
        (s + 1) * (s + 1) > m,
        s <= 46340,
{
    let mut s: i32 = 0;
    while s + 1 <= m / (s + 1)
        invariant
            0 <= s <= 46340,
            s * s <= m,
            m <= i32::MAX,
        decreases m - s,
    {
        proof {
            lemma_square_le(m as nat, (s + 1) as nat);
            assert(s + 1 <= m) by (nonlinear_arith)
                requires
                    (s + 1) * (s + 1) <= m,
                    s >= 0,
            ;
            assert(s + 1 <= 46340) by (nonlinear_arith)
                requires
                    (s + 1) * (s + 1) <= m,
                    m <= 0x7fff_ffff,
                    s >= 0,
            ;
        }
        s = s + 1;
    }
    proof {
        lemma_square_le(m as nat, (s + 1) as nat);
    }
    s
}

/// Every factor pair of `|n|`: for each divisor `i` up to one past the
/// square root, `(i, |n| / i)` and, unless equal, `(|n| / i, i)`.
fn get_factor_pairs(n: i32) -> (r: Vec<(i32, i32)>)
    requires
        n > i32::MIN,
    ensures
        forall|k: int| 0 <= k < r@.len() ==> is_listed_pair(abs_spec(n as int), #[trigger] r@[k].0 as int, r@[k].1 as int),
        forall|x: int, y: int| #[trigger] is_listed_pair(abs_spec(n as int), x, y) ==> r@.contains((x as i32, y as i32)),
{
    let m: i32 = if n < 0 { -n } else { n };
    let mut pairs: Vec<(i32, i32)> = Vec::new();
    if m == 0 {
        pairs.push((1, 0));
        pairs.push((0, 1));
        proof {
            assert(pairs@[0] == (1i32, 0i32));
            assert(pairs@[1] == (0i32, 1i32));
        }
        return pairs;
    }
    let bound = integer_sqrt(m) + 1;
    let mut i: i32 = 1;
    while i <= bound
        invariant
            m > 0,
            m == abs_spec(n as int),
            1 <= i <= bound + 1,
            bound * bound > m,
            bound <= 46341,
            forall|k: int| 0 <= k < pairs@.len() ==> is_listed_pair(m as int, #[trigger] pairs@[k].0 as int, pairs@[k].1 as int),
            forall|x: int, y: int| #[trigger] is_listed_pair(m as int, x, y) && x <= y && x < i
                ==> pairs@.contains((x as i32, y as i32)) && pairs@.contains((y as i32, x as i32)),
        decreases bound + 1 - i,
    {
        let ghost before = pairs@;
        if m % i == 0 {
            let q = m / i;
            proof {
                lemma_cofactor(m as nat, i as nat);
                assert(q >= 1) by (nonlinear_arith)
                    requires
                        m == i * q,
                        m > 0,
                        i >= 1,
                ;
            }
            pairs.push((i, q));
            proof {
                assert(pairs@[pairs@.len() - 1] == (i, q));
                assert(is_listed_pair(m as int, i as int, q as int));
                assert(q * i == i * q) by (nonlinear_arith);
                assert(is_listed_pair(m as int, q as int, i as int));
            }
            if i != q {
                pairs.push((q, i));
                proof {
                    assert(pairs@[pairs@.len() - 1] == (q, i));
                    assert(pairs@[pairs@.len() - 2] == (i, q));
                }
            }
        }
        proof {
            assert forall|x: int, y: int| #[trigger] is_listed_pair(m as int, x, y) && x <= y && x < i + 1
                implies pairs@.contains((x as i32, y as i32)) && pairs@.contains((y as i32, x as i32)) by {
                if x < i {
                    let k1 = choose|k: int| 0 <= k < before.len() && before[k] == (x as i32, y as i32);
                    let k2 = choose|k: int| 0 <= k < before.len() && before[k] == (y as i32, x as i32);
                    assert(pairs@[k1] == before[k1]);
                    assert(pairs@[k2] == before[k2]);
                } else {
                    vstd::arithmetic::div_mod::lemma_mod_multiples_basic(y, x);
                    assert(x * y == y * x) by (nonlinear_arith);
                    assert((m as nat) % (i as nat) == 0);
                    lemma_cofactor(m as nat, i as nat);
                    vstd::arithmetic::div_mod::lemma_div_multiples_vanish(y, x);
                    assert(m / i == y);
                    if x == y {
                        assert(pairs@[pairs@.len() - 1] == (x as i32, y as i32));
                    } else {
                        assert(pairs@[pairs@.len() - 1] == (y as i32, x as i32));
                        assert(pairs@[pairs@.len() - 2] == (x as i32, y as i32));
                    }
                }
            }
        }
        i = i + 1;
    }
    proof {
        assert forall|x: int, y: int| #[trigger] is_listed_pair(m as int, x, y) implies pairs@.contains((x as i32, y as i32)) by {
            if x <= y {
                assert(x * x <= x * y) by (nonlinear_arith)
                    requires
                        1 <= x <= y,
                ;
                if x >= i {
                    assert(x * x >= bound * bound) by (nonlinear_arith)
                        requires
                            x >= bound >= 0,
                    ;
                }
                assert(is_listed_pair(m as int, x, y));
            } else {
                assert(y * y <= y * x) by (nonlinear_arith)
                    requires
                        1 <= y <= x,
                ;
                assert(y * x == x * y) by (nonlinear_arith);
                if y >= i {
                    assert(y * y >= bound * bound) by (nonlinear_arith)
                        requires
                            y >= bound >= 0,
                    ;
                }
                assert(is_listed_pair(m as int, y, x));
            }
        }
    }
    pairs
}

/// Searches the factor pairs of `|a|` and of `|c|`, signed as `a` and `c` are,
/// for `(px + q)(rx + s) == ax² + bx + c`. Returns the first `(p, q, r, s)`
/// found, or `None` when no such pairing works.
pub fn factor_integer_quadratic(a: i32, b: i32, c: i32) -> (res: Option<(i32, i32, i32, i32)>)
    requires
        a > i32::MIN,
        c > i32::MIN,
    ensures
        match res {
            Some((p, q, r, s)) => factors_as(a as int, b as int, c as int, p as int, q as int, r as int, s as int),
            None => forall|x: int, y: int, u: int, v: int|
                is_listed_pair(abs_spec(a as int), x, y) && is_listed_pair(abs_spec(c as int), u, v)
                    ==> !#[trigger] candidate_works(a as int, b as int, c as int, x, y, u, v),
        },
{
    let a_pairs = get_factor_pairs(if a < 0 { -a } else { a });
    let c_pairs = get_factor_pairs(if c < 0 { -c } else { c });
    proof {
        assert(abs_spec(abs_spec(a as int)) == abs_spec(a as int));
        assert(abs_spec(abs_spec(c as int)) == abs_spec(c as int));
    }
    let mut i: usize = 0;
    while i < a_pairs.len()
        invariant
            i <= a_pairs@.len(),
            forall|k: int| 0 <= k < a_pairs@.len() ==> is_listed_pair(abs_spec(a as int), #[trigger] a_pairs@[k].0 as int, a_pairs@[k].1 as int),
            forall|k: int| 0 <= k < c_pairs@.len() ==> is_listed_pair(abs_spec(c as int), #[trigger] c_pairs@[k].0 as int, c_pairs@[k].1 as int),
            forall|k1: int, k2: int| 0 <= k1 < i && 0 <= k2 < c_pairs@.len() ==> !#[trigger] candidate_works(
                a as int, b as int, c as int,
                a_pairs@[k1].0 as int, a_pairs@[k1].1 as int, c_pairs@[k2].0 as int, c_pairs@[k2].1 as int),
        decreases a_pairs@.len() - i,
    {
        let (x, y) = a_pairs[i];
        let p: i64 = if a < 0 { -(x as i64) } else { x as i64 };
        let r: i64 = if a < 0 { -(y as i64) } else { y as i64 };
        proof {
            assert(is_listed_pair(abs_spec(a as int), a_pairs@[i as int].0 as int, a_pairs@[i as int].1 as int));
            if abs_spec(a as int) != 0 {
                assert(x <= abs_spec(a as int) && y <= abs_spec(a as int)) by (nonlinear_arith)
                    requires
                        x >= 1,
                        y >= 1,
                        x * y == abs_spec(a as int),
                ;
            }
        }
        let mut j: usize = 0;
        while j < c_pairs.len()
            invariant
                i < a_pairs@.len(),
                j <= c_pairs@.len(),
                (x, y) == a_pairs@[i as int],
                0 <= x <= i32::MAX,
                0 <= y <= i32::MAX,
                p == sign_as(a as int, x as int),
                r == sign_as(a as int, y as int),
                forall|k: int| 0 <= k < c_pairs@.len() ==> is_listed_pair(abs_spec(c as int), #[trigger] c_pairs@[k].0 as int, c_pairs@[k].1 as int),
                forall|k2: int| 0 <= k2 < j ==> !#[trigger] candidate_works(
                    a as int, b as int, c as int, x as int, y as int, c_pairs@[k2].0 as int, c_pairs@[k2].1 as int),
            decreases c_pairs@.len() - j,
        {
            let (u, v) = c_pairs[j];
            proof {
                assert(is_listed_pair(abs_spec(c as int), c_pairs@[j as int].0 as int, c_pairs@[j as int].1 as int));
                if abs_spec(c as int) != 0 {
                    assert(u <= abs_spec(c as int) && v <= abs_spec(c as int)) by (nonlinear_arith)
                        requires
                            u >= 1,
                            v >= 1,
                            u * v == abs_spec(c as int),
                    ;
                }
            }
            let q: i64 = if c < 0 { -(u as i64) } else { u as i64 };
            let s: i64 = if c < 0 { -(v as i64) } else { v as i64 };
            proof {
                assert(-0x4000_0000_0000_0000 < p * r < 0x4000_0000_0000_0000) by (nonlinear_arith)
                    requires
                        -0x7fff_ffff <= p <= 0x7fff_ffff,
                        -0x7fff_ffff <= r <= 0x7fff_ffff,
                ;
                assert(-0x4000_0000_0000_0000 < q * s < 0x4000_0000_0000_0000) by (nonlinear_arith)
                    requires
                        -0x7fff_ffff <= q <= 0x7fff_ffff,
                        -0x7fff_ffff <= s <= 0x7fff_ffff,
                ;
                assert(-0x4000_0000_0000_0000 < p * s < 0x4000_0000_0000_0000) by (nonlinear_arith)
                    requires
                        -0x7fff_ffff <= p <= 0x7fff_ffff,
                        -0x7fff_ffff <= s <= 0x7fff_ffff,
                ;
                assert(-0x4000_0000_0000_0000 < r * q < 0x4000_0000_0000_0000) by (nonlinear_arith)
                    requires
                        -0x7fff_ffff <= r <= 0x7fff_ffff,
                        -0x7fff_ffff <= q <= 0x7fff_ffff,
                ;
            }
            if p * r == a as i64 && q * s == c as i64 && p * s + r * q == b as i64 {
                return Some((p as i32, q as i32, r as i32, s as i32));
            }
            j = j + 1;
        }
        i = i + 1;
    }
    proof {
        assert forall|x: int, y: int, u: int, v: int|
            is_listed_pair(abs_spec(a as int), x, y) && is_listed_pair(abs_spec(c as int), u, v)
                implies !#[trigger] candidate_works(a as int, b as int, c as int, x, y, u, v) by {
            assert(is_listed_pair(abs_spec(a as int), x, y));
            assert(is_listed_pair(abs_spec(c as int), u, v));
            let k1 = choose|k: int| 0 <= k < a_pairs@.len() && a_pairs@[k] == (x as i32, y as i32);
            let k2 = choose|k: int| 0 <= k < c_pairs@.len() && c_pairs@[k] == (u as i32, v as i32);
            if abs_spec(a as int) != 0 {
                assert(x <= abs_spec(a as int) && y <= abs_spec(a as int)) by (nonlinear_arith)
                    requires
                        x >= 1,
                        y >= 1,
                        x * y == abs_spec(a as int),
                ;
            }
            if abs_spec(c as int) != 0 {
                assert(u <= abs_spec(c as int) && v <= abs_spec(c as int)) by (nonlinear_arith)
                    requires
                        u >= 1,
                        v >= 1,
                        u * v == abs_spec(c as int),
                ;
            }
            assert(a_pairs@[k1].0 as int == x && a_pairs@[k1].1 as int == y);
            assert(c_pairs@[k2].0 as int == u && c_pairs@[k2].1 as int == v);
            assert(!candidate_works(a as int, b as int, c as int,
                a_pairs@[k1].0 as int, a_pairs@[k1].1 as int, c_pairs@[k2].0 as int, c_pairs@[k2].1 as int));
        }
    }
    None
}

} // verus!
