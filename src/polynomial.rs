//! Polynomials with exact rational coefficients. The fraction arithmetic is
//! num_rational's, on `Ratio<i64>`; sums and products that overflow `i64`
//! are reported instead of wrapping.

use vstd::prelude::*;
use num::traits::{CheckedAdd, CheckedMul};
use num_rational::Rational64;
use crate::tui::push_char;

verus! {

/// The fraction `numer / denom`, with `denom > 0` in every value this module makes.
#[derive(Debug, Clone, Copy, PartialEq, Eq, Structural)]
pub struct Rational {
    pub numer: i64,
    pub denom: i64,
}

/// A coefficient list `[a0, a1, a2, ...]` standing for `a0 + a1·x + a2·x² + ...`.
#[derive(Debug, Clone, PartialEq, Eq)]
pub struct Polynomial {
    pub coeffs: Vec<Rational>,
}

/// Every denominator is positive.
pub open spec fn all_wf(s: Seq<Rational>) -> bool {
    forall|i: int| 0 <= i < s.len() ==> (#[trigger] s[i]).denom > 0
}

/// `r` has the value `n / d`.
pub open spec fn value_eq(r: Rational, n: int, d: int) -> bool {
    r.numer * d == n * r.denom
}

/// Coefficient `i`, zero past the end.
pub open spec fn coeff_at(s: Seq<Rational>, i: int) -> Rational {
    if 0 <= i < s.len() {
        s[i]
    } else {
        Rational { numer: 0, denom: 1 }
    }
}

/// Numerator and denominator both below `2^31` in size: the sum of two such
/// fractions never overflows inside num_rational.
pub open spec fn is_small(r: Rational) -> bool {
    -0x8000_0000 < r.numer < 0x8000_0000 && 0 < r.denom < 0x8000_0000
}

/// Fewer than `2^20` coefficients, each an integer below `2^20` in size: no
/// product of two such polynomials overflows.
pub open spec fn int_bounded(s: Seq<Rational>) -> bool {
    &&& s.len() < 0x10_0000
    &&& forall|i: int| 0 <= i < s.len() ==> (#[trigger] s[i]).denom == 1 && -0x10_0000 < s[i].numer < 0x10_0000
}

/// The value of `r` as a pair `(numer, denom)`.
pub open spec fn val(r: Rational) -> (int, int) {
    (r.numer as int, r.denom as int)
}

/// `n1/d1 + n2/d2` as an unreduced pair.
pub open spec fn pair_add(x: (int, int), y: (int, int)) -> (int, int) {
    (x.0 * y.1 + y.0 * x.1, x.1 * y.1)
}

/// `Σ a[i] · b[t - i]` over `0 <= i < k`, as an unreduced pair.
pub open spec fn convolution(a: Seq<Rational>, b: Seq<Rational>, t: int, k: int) -> (int, int)
    decreases k,
{
    if k <= 0 {
        (0, 1)
    } else {
        let prev = convolution(a, b, t, k - 1);
        let i = k - 1;
        if i < a.len() && 0 <= t - i < b.len() {
            pair_add(prev, (a[i].numer * b[t - i].numer, a[i].denom * b[t - i].denom))
        } else {
            prev
        }
    }
}

/// Relies on num_rational's `CheckedAdd` for `Ratio<i64>`: the sum of two
/// fractions with positive denominators, or `None` when a step overflows.
/// For two integers (denominator 1) every step is exact: the sum, over 1,
/// exactly when it fits in an `i64`.
#[verifier::external_body]
fn checked_sum(a: Rational, b: Rational) -> (r: Option<Rational>)
    requires
        a.denom > 0,
        b.denom > 0,
    ensures
        r matches Some(s) ==> s.denom > 0 && value_eq(s, a.numer * b.denom + b.numer * a.denom, a.denom * b.denom),
        is_small(a) && is_small(b) ==> r is Some,
        a.denom == 1 && b.denom == 1 ==> r == if i64::MIN <= a.numer + b.numer <= i64::MAX {
            Some(Rational { numer: (a.numer + b.numer) as i64, denom: 1 })
        } else {
            None
        },
{
    let x = Rational64::new_raw(a.numer, a.denom);
    let y = Rational64::new_raw(b.numer, b.denom);
    match x.checked_add(&y) {
        Some(s) => Some(Rational { numer: *s.numer(), denom: *s.denom() }),
        None => None,
    }
}

/// Relies on num_rational's `CheckedMul` for `Ratio<i64>`: the product of two
/// fractions with positive denominators, or `None` when a step overflows.
/// Small numerators and denominators keep every step under `2^62`; for two
/// integers the result is the product, over 1, exactly when it fits.
#[verifier::external_body]
fn checked_product(a: Rational, b: Rational) -> (r: Option<Rational>)
    requires
        a.denom > 0,
        b.denom > 0,
    ensures
        r matches Some(s) ==> s.denom > 0 && value_eq(s, a.numer * b.numer, a.denom * b.denom),
        is_small(a) && is_small(b) ==> r is Some,
        a.denom == 1 && b.denom == 1 ==> r == if i64::MIN <= a.numer * b.numer <= i64::MAX {
            Some(Rational { numer: (a.numer * b.numer) as i64, denom: 1 })
        } else {
            None
        },
{
    let x = Rational64::new_raw(a.numer, a.denom);
    let y = Rational64::new_raw(b.numer, b.denom);
    match x.checked_mul(&y) {
        Some(s) => Some(Rational { numer: *s.numer(), denom: *s.denom() }),
        None => None,
    }
}

/// Equal values may replace each other in a sum: if `x = N/D`, `p = M/E`
/// and `r = x + p`, then `r = N/D + M/E`.
pub proof fn lemma_sum_of_equals(r: Rational, x: Rational, p: Rational, nd: (int, int), me: (int, int))
    requires
        x.denom > 0,
        p.denom > 0,
        r.denom > 0,
        value_eq(x, nd.0, nd.1),
        value_eq(p, me.0, me.1),
        value_eq(r, x.numer * p.denom + p.numer * x.denom, x.denom * p.denom),
    ensures
        value_eq(r, pair_add(nd, me).0, pair_add(nd, me).1),
{
    let xn = x.numer as int;
    let xd = x.denom as int;
    let pn = p.numer as int;
    let pd = p.denom as int;
    let rn = r.numer as int;
    let rd = r.denom as int;
    let n = nd.0;
    let d = nd.1;
    let m = me.0;
    let e = me.1;
    let k = xd * pd;
    assert(k > 0) by (nonlinear_arith)
        requires
            xd > 0,
            pd > 0,
            k == xd * pd,
    ;
    assert(xn * d == n * xd);
    assert(pn * e == m * pd);
    assert(rn * k == (xn * pd + pn * xd) * rd);
    let de = d * e;
    let a1 = xn * pd;
    let b1 = pn * xd;
    let c = n * e + m * d;
    lemma_mul3(rn, de, k);
    lemma_mul3(de, a1 + b1, rd);
    vstd::arithmetic::mul::lemma_mul_is_distributive_add(de, a1, b1);
    lemma_swap4(d, e, xn, pd);
    lemma_swap4(n, xd, e, pd);
    assert(d * xn == xn * d) by (nonlinear_arith);
    assert(de * a1 == (n * e) * k);
    lemma_swap4(e, d, pn, xd);
    lemma_swap4(m, pd, d, xd);
    assert(e * d == de) by (nonlinear_arith)
        requires
            de == d * e,
    ;
    assert(e * pn == pn * e) by (nonlinear_arith);
    assert(pd * xd == k) by (nonlinear_arith)
        requires
            k == xd * pd,
    ;
    assert(de * b1 == (m * d) * k);
    vstd::arithmetic::mul::lemma_mul_is_distributive_add_other_way(k, n * e, m * d);
    assert(de * (a1 + b1) == c * k);
    lemma_mul3(c, k, rd);
    lemma_mul3(c, rd, k);
    assert(k * (rn * de) == k * (c * rd)) by (nonlinear_arith)
        requires
            rn * de * k == c * rd * k,
    ;
    vstd::arithmetic::mul::lemma_mul_equality_converse(k, rn * de, c * rd);
}

/// `(a · b) · c` regrouped and reordered.
pub proof fn lemma_mul3(a: int, b: int, c: int)
    ensures
        (a * b) * c == b * (a * c),
        (a * b) * c == (a * c) * b,
        a * (b * c) == (a * b) * c,
{
    assert((a * b) * c == b * (a * c)) by (nonlinear_arith);
    assert((a * b) * c == (a * c) * b) by (nonlinear_arith);
    assert(a * (b * c) == (a * b) * c) by (nonlinear_arith);
}

/// `(a · b) · (c · d) == (a · c) · (b · d)`
pub proof fn lemma_swap4(a: int, b: int, c: int, d: int)
    ensures
        (a * b) * (c * d) == (a * c) * (b * d),
{
    assert((a * b) * (c * d) == (a * c) * (b * d)) by (nonlinear_arith);
}

impl Rational {
    /// The integer `n` as the fraction `n / 1`.
    pub fn from_integer(n: i64) -> (r: Rational)
        ensures
            r == (Rational { numer: n, denom: 1 }),
    {
        Rational { numer: n, denom: 1 }
    }
}

impl Polynomial {
    /// The polynomial with the given integer coefficients, constant term first.
    pub fn new(coeffs: Vec<i64>) -> (p: Polynomial)
        ensures
            p.coeffs@.len() == coeffs@.len(),
            forall|i: int| 0 <= i < coeffs@.len() ==> #[trigger] p.coeffs@[i] == (Rational { numer: coeffs@[i], denom: 1 }),
    {
        let mut r: Vec<Rational> = Vec::new();
        let mut i: usize = 0;
        while i < coeffs.len()
            invariant
                i <= coeffs@.len(),
                r@.len() == i,
                forall|k: int| 0 <= k < i ==> #[trigger] r@[k] == (Rational { numer: coeffs@[k], denom: 1 }),
            decreases coeffs@.len() - i,
        {
            r.push(Rational::from_integer(coeffs[i]));
            i = i + 1;
        }
        Polynomial { coeffs: r }
    }

    /// The index of the last coefficient; zero for no coefficients.
    pub fn degree(&self) -> (d: usize)
        ensures
            d == if self.coeffs@.len() == 0 { 0 } else { self.coeffs@.len() - 1 },
    {
        if self.coeffs.len() == 0 {
            0
        } else {
            self.coeffs.len() - 1
        }
    }

    /// Coefficient `i`, zero past the end.
    pub fn coeff(&self, i: usize) -> (c: Rational)
        ensures
            c == coeff_at(self.coeffs@, i as int),
    {
        if i < self.coeffs.len() {
            self.coeffs[i]
        } else {
            Rational { numer: 0, denom: 1 }
        }
    }

    /// The sum, coefficient by coefficient, as long as the longer of the two.
    /// `None` when a coefficient sum overflows inside num_rational, which
    /// cannot happen when all coefficients are small.
    pub fn add(&self, other: &Polynomial) -> (r: Option<Polynomial>)
        requires
            all_wf(self.coeffs@),
            all_wf(other.coeffs@),
        ensures
            match r {
                Some(p) => {
                    &&& all_wf(p.coeffs@)
                    &&& p.coeffs@.len() == if self.coeffs@.len() >= other.coeffs@.len() {
                        self.coeffs@.len()
                    } else {
                        other.coeffs@.len()
                    }
                    &&& forall|t: int| 0 <= t < p.coeffs@.len() ==> value_eq(#[trigger] p.coeffs@[t],
                        pair_add(val(coeff_at(self.coeffs@, t)), val(coeff_at(other.coeffs@, t))).0,
                        pair_add(val(coeff_at(self.coeffs@, t)), val(coeff_at(other.coeffs@, t))).1)
                },
                None => !((forall|i: int| 0 <= i < self.coeffs@.len() ==> is_small(#[trigger] self.coeffs@[i]))
                    && (forall|i: int| 0 <= i < other.coeffs@.len() ==> is_small(#[trigger] other.coeffs@[i]))),
            },
    {
        let la = self.coeffs.len();
        let lb = other.coeffs.len();
        let n = if la >= lb { la } else { lb };
        let mut result: Vec<Rational> = Vec::new();
        let mut i: usize = 0;
        while i < n
            invariant
                n == if la >= lb { la } else { lb },
                la == self.coeffs@.len(),
                lb == other.coeffs@.len(),
                all_wf(self.coeffs@),
                all_wf(other.coeffs@),
                i <= n,
                result@.len() == i,
                all_wf(result@),
                forall|t: int| 0 <= t < i ==> value_eq(#[trigger] result@[t],
                    pair_add(val(coeff_at(self.coeffs@, t)), val(coeff_at(other.coeffs@, t))).0,
                    pair_add(val(coeff_at(self.coeffs@, t)), val(coeff_at(other.coeffs@, t))).1),
            decreases n - i,
        {
            let c = if i < la && i < lb {
                match checked_sum(self.coeffs[i], other.coeffs[i]) {
                    Some(s) => s,
                    None => {
                        return None;
                    },
                }
            } else if i < la {
                let c = self.coeffs[i];
                assert(c.numer * (c.denom * 1) == (c.numer * 1 + 0 * c.denom) * c.denom) by (nonlinear_arith);
                c
            } else {
                let c = other.coeffs[i];
                assert(c.numer * (1 * c.denom) == (0 * c.denom + c.numer * 1) * c.denom) by (nonlinear_arith);
                c
            };
            result.push(c);
            i = i + 1;
        }
        Some(Polynomial { coeffs: result })
    }

    /// The product: coefficient `t` is `Σ a[i] · b[t - i]`; no coefficients
    /// when either factor has none. `None` when a product or a partial sum
    /// overflows inside num_rational, which cannot happen when both factors
    /// have fewer than `2^20` integer coefficients below `2^20` in size.
    pub fn mul(&self, other: &Polynomial) -> (r: Option<Polynomial>)
        requires
            all_wf(self.coeffs@),
            all_wf(other.coeffs@),
            self.coeffs@.len() + other.coeffs@.len() <= usize::MAX,
        ensures
            match r {
                Some(p) => {
                    &&& all_wf(p.coeffs@)
                    &&& (self.coeffs@.len() == 0 || other.coeffs@.len() == 0) ==> p.coeffs@.len() == 0
                    &&& (self.coeffs@.len() > 0 && other.coeffs@.len() > 0) ==> {
                        &&& p.coeffs@.len() == self.coeffs@.len() + other.coeffs@.len() - 1
                        &&& forall|t: int| 0 <= t < p.coeffs@.len() ==> value_eq(#[trigger] p.coeffs@[t],
                            convolution(self.coeffs@, other.coeffs@, t, self.coeffs@.len() as int).0,
                            convolution(self.coeffs@, other.coeffs@, t, self.coeffs@.len() as int).1)
                    }
                },
                None => {
                    &&& self.coeffs@.len() > 0
                    &&& other.coeffs@.len() > 0
                    &&& !(int_bounded(self.coeffs@) && int_bounded(other.coeffs@))
                },
            },
    {
        let la = self.coeffs.len();
        let lb = other.coeffs.len();
        if la == 0 || lb == 0 {
            return Some(Polynomial { coeffs: Vec::new() });
        }
        let n = la + lb - 1;
        let mut result: Vec<Rational> = Vec::new();
        let mut k: usize = 0;
        while k < n
            invariant
                k <= n,
                result@.len() == k,
                forall|t: int| 0 <= t < k ==> #[trigger] result@[t] == (Rational { numer: 0, denom: 1 }),
            decreases n - k,
        {
            result.push(Rational { numer: 0, denom: 1 });
            k = k + 1;
        }
        let ghost a = self.coeffs@;
        let ghost b = other.coeffs@;
        let ghost bounded = int_bounded(a) && int_bounded(b);
        let mut i: usize = 0;
        while i < la
            invariant
                a == self.coeffs@,
                b == other.coeffs@,
                la == a.len(),
                lb == b.len(),
                la > 0,
                lb > 0,
                n == la + lb - 1,
                all_wf(a),
                all_wf(b),
                i <= la,
                result@.len() == n,
                all_wf(result@),
                forall|t: int| 0 <= t < n ==> value_eq(#[trigger] result@[t],
                    convolution(a, b, t, i as int).0, convolution(a, b, t, i as int).1),
                bounded == (int_bounded(a) && int_bounded(b)),
                bounded ==> forall|t: int| 0 <= t < n ==> (#[trigger] result@[t]).denom == 1
                    && -(i * 0x100_0000_0000) <= result@[t].numer <= i * 0x100_0000_0000,
            decreases la - i,
        {
            let mut j: usize = 0;
            while j < lb
                invariant
                    a == self.coeffs@,
                    b == other.coeffs@,
                    la == a.len(),
                    lb == b.len(),
                    n == la + lb - 1,
                    all_wf(a),
                    all_wf(b),
                    i < la,
                    j <= lb,
                    result@.len() == n,
                    all_wf(result@),
                    forall|t: int| 0 <= t < n ==> value_eq(#[trigger] result@[t],
                        convolution(a, b, t, if i <= t < i + j { i + 1 } else { i as int }).0,
                        convolution(a, b, t, if i <= t < i + j { i + 1 } else { i as int }).1),
                    bounded == (int_bounded(a) && int_bounded(b)),
                    bounded ==> forall|t: int| 0 <= t < n ==> (#[trigger] result@[t]).denom == 1
                        && -((if i <= t < i + j { i + 1 } else { i as int }) * 0x100_0000_0000) <= result@[t].numer
                        && result@[t].numer <= (if i <= t < i + j { i + 1 } else { i as int }) * 0x100_0000_0000,
                decreases lb - j,
            {
                proof {
                    if bounded {
                        let x = a[i as int].numer as int;
                        let y = b[j as int].numer as int;
                        assert(-0x100_0000_0000 < x * y < 0x100_0000_0000) by (nonlinear_arith)
                            requires
                                -0x10_0000 < x < 0x10_0000,
                                -0x10_0000 < y < 0x10_0000,
                        ;
                        assert(i + 1 <= 0x10_0000);
                        assert((i + 1) * 0x100_0000_0000 <= 0x10_0000 * 0x100_0000_0000) by (nonlinear_arith)
                            requires
                                i + 1 <= 0x10_0000,
                        ;
                        assert(i * 0x100_0000_0000 + 0x100_0000_0000 == (i + 1) * 0x100_0000_0000) by (nonlinear_arith);
                    }
                }
                let prod = match checked_product(self.coeffs[i], other.coeffs[j]) {
                    Some(p) => p,
                    None => {
                        return None;
                    },
                };
                let t = i + j;
                let x = result[t];
                let s = match checked_sum(x, prod) {
                    Some(s) => s,
                    None => {
                        return None;
                    },
                };
                proof {
                    let ai = a[i as int];
                    let bj = b[j as int];
                    assert(convolution(a, b, t as int, i + 1) == pair_add(convolution(a, b, t as int, i as int),
                        (ai.numer * bj.numer, ai.denom * bj.denom)));
                    lemma_sum_of_equals(s, x, prod, convolution(a, b, t as int, i as int),
                        (ai.numer * bj.numer, ai.denom * bj.denom));
                }
                result.set(t, s);
                j = j + 1;
            }
            proof {
                assert forall|t: int| 0 <= t < n implies value_eq(#[trigger] result@[t],
                    convolution(a, b, t, i + 1).0, convolution(a, b, t, i + 1).1) by {
                    if !(i <= t < i + lb) {
                        assert(convolution(a, b, t, i + 1) == convolution(a, b, t, i as int));
                    }
                }
            }
            i = i + 1;
        }
        Some(Polynomial { coeffs: result })
    }
}

/// The character of the decimal digit `d`.
pub open spec fn digit_char(d: int) -> char {
    if d <= 0 {
        '0'
    } else if d == 1 {
        '1'
    } else if d == 2 {
        '2'
    } else if d == 3 {
        '3'
    } else if d == 4 {
        '4'
    } else if d == 5 {
        '5'
    } else if d == 6 {
        '6'
    } else if d == 7 {
        '7'
    } else if d == 8 {
        '8'
    } else {
        '9'
    }
}

/// The decimal digits of `m`, most significant first, without leading zeros.
pub open spec fn digits_of(m: nat) -> Seq<char>
    decreases m,
{
    if m < 10 {
        seq![digit_char(m as int)]
    } else {
        digits_of(m / 10) + seq![digit_char((m % 10) as int)]
    }
}

/// `n` in decimal, with a leading `-` when negative.
pub open spec fn decimal_of(n: int) -> Seq<char> {
    if n < 0 {
        seq!['-'] + digits_of((-n) as nat)
    } else {
        digits_of(n as nat)
    }
}

/// The fraction `n / d` as text: `n` alone when `d` is 1, else `n/d`.
pub open spec fn ratio_text(n: int, d: int) -> Seq<char> {
    if d == 1 {
        decimal_of(n)
    } else {
        decimal_of(n) + seq!['/'] + decimal_of(d)
    }
}

/// Relies on num_rational's `Display` for `Ratio<i64>`, which writes the
/// numerator alone when the denominator is 1, else `numer/denom`, each as
/// std writes an `i64`.
#[verifier::external_body]
fn ratio_string(r: Rational) -> (s: String)
    ensures
        s@ == ratio_text(r.numer as int, r.denom as int),
{
    Rational64::new_raw(r.numer, r.denom).to_string()
}

/// The character of the digit `d < 10`.
fn digit(d: u64) -> (c: char)
    requires
        d < 10,
    ensures
        c == digit_char(d as int),
{
    if d == 0 {
        '0'
    } else if d == 1 {
        '1'
    } else if d == 2 {
        '2'
    } else if d == 3 {
        '3'
    } else if d == 4 {
        '4'
    } else if d == 5 {
        '5'
    } else if d == 6 {
        '6'
    } else if d == 7 {
        '7'
    } else if d == 8 {
        '8'
    } else {
        '9'
    }
}

/// Appends the decimal digits of `m`.
fn push_digits(s: &mut String, m: u64)
    ensures
        final(s)@ == old(s)@ + digits_of(m as nat),
    decreases m,
{
    if m >= 10 {
        push_digits(s, m / 10);
    }
    push_char(s, digit(m % 10));
    proof {
        if m >= 10 {
            assert(old(s)@ + digits_of((m / 10) as nat) + seq![digit_char((m % 10) as int)]
                =~= old(s)@ + digits_of(m as nat));
        } else {
            assert(old(s)@.push(digit_char((m % 10) as int)) =~= old(s)@ + digits_of(m as nat));
        }
    }
}

/// `i` in decimal.
fn decimal_string(i: usize) -> (s: String)
    ensures
        s@ == decimal_of(i as int),
{
    let mut s = String::new();
    push_digits(&mut s, i as u64);
    proof {
        assert(s@ =~= digits_of(i as nat));
    }
    s
}

/// The text of the term of degree `i` with coefficient `c`: the coefficient
/// (left out when it is 1, but for the constant term), then `x` or `x^i`.
pub open spec fn term_text(i: int, c: Rational) -> Seq<char> {
    let coeff = if i == 0 || c.numer != c.denom {
        ratio_text(c.numer as int, c.denom as int)
    } else {
        Seq::empty()
    };
    if i == 0 {
        coeff
    } else if i == 1 {
        coeff + seq!['x']
    } else {
        coeff + seq!['x', '^'] + decimal_of(i)
    }
}

/// Some coefficient of degree `i` or more is non-zero.
pub open spec fn has_terms_from(s: Seq<Rational>, i: int) -> bool {
    exists|k: int| i <= k < s.len() && (#[trigger] s[k]).numer != 0
}

/// The non-zero terms of degree `i` or more, highest degree first, joined by ` + `.
pub open spec fn rendered_from(s: Seq<Rational>, i: int) -> Seq<char>
    decreases s.len() - i,
{
    if i < 0 || i >= s.len() {
        Seq::empty()
    } else if s[i].numer == 0 {
        rendered_from(s, i + 1)
    } else if has_terms_from(s, i + 1) {
        rendered_from(s, i + 1) + seq![' ', '+', ' '] + term_text(i, s[i])
    } else {
        term_text(i, s[i])
    }
}

impl Polynomial {
    /// The polynomial as text, highest degree first: `3x^2 + 2x + 1`; `0`
    /// when every coefficient is zero.
    pub fn to_string(&self) -> (r: String)
        ensures
            r@ == if has_terms_from(self.coeffs@, 0) { rendered_from(self.coeffs@, 0) } else { seq!['0'] },
    {
        let ghost s = self.coeffs@;
        let mut out = String::new();
        let mut started = false;
        let mut i: usize = self.coeffs.len();
        while i > 0
            invariant
                s == self.coeffs@,
                i <= s.len(),
                out@ == rendered_from(s, i as int),
                started == has_terms_from(s, i as int),
            decreases i,
        {
            i = i - 1;
            let c = self.coeffs[i];
            proof {
                if started {
                    let k = choose|k: int| i + 1 <= k < s.len() && (#[trigger] s[k]).numer != 0;
                    assert(i <= k < s.len() && s[k].numer != 0);
                }
                if c.numer != 0 {
                    assert(s[i as int].numer != 0);
                }
                if !started && c.numer == 0 {
                    assert forall|k: int| i <= k < s.len() implies (#[trigger] s[k]).numer == 0 by {
                        if k > i {
                            assert(!(i + 1 <= k < s.len() && s[k].numer != 0));
                        }
                    }
                }
            }
            if c.numer != 0 {
                let mut term = if i == 0 || c.numer != c.denom {
                    ratio_string(c)
                } else {
                    String::new()
                };
                if i == 1 {
                    term.append("x");
                } else if i > 1 {
                    term.append("x^");
                    let d = decimal_string(i);
                    term.append(d.as_str());
                }
                proof {
                    reveal_strlit("x");
                    reveal_strlit("x^");
                    assert(term@ =~= term_text(i as int, c));
                }
                if started {
                    out.append(" + ");
                    out.append(term.as_str());
                    proof {
                        reveal_strlit(" + ");
                    }
                } else {
                    out = term;
                }
                started = true;
            }
        }
        if !started {
            out = String::from_str("0");
            proof {
                reveal_strlit("0");
                assert(out@ =~= seq!['0']);
            }
        }
        out
    }
}

} // verus!
