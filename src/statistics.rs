//! The index and counting rules of the statistics calculators: which sorted
//! positions give the median and the quartiles, and which (quantised) values
//! are the modes. The arithmetic on the sample values is floating point and
//! happens in the caller.

use vstd::prelude::*;
use crate::errors::MathError;
use std::collections::HashMap;

verus! {

/// Two positions of the sorted sample whose values are averaged; equal when
/// one value is taken as it is.
#[derive(Debug, Clone, Copy, PartialEq, Eq, Structural)]
pub struct Span {
    pub lo: usize,
    pub hi: usize,
}

/// The span at fraction `num / 4` of a sample of `n`: index `k = num·n / 4`,
/// and when `num·n` is a multiple of 4 the two neighbours `k - 1` and `k`.
pub open spec fn span_at(n: int, num: int) -> Span {
    let k = num * n / 4;
    if (num * n) % 4 == 0 {
        Span { lo: (k - 1) as usize, hi: k as usize }
    } else {
        Span { lo: k as usize, hi: k as usize }
    }
}

/// The median of a sorted sample of `n` values: the middle one, or the two
/// middle ones when `n` is even. An empty sample has none: `InvalidInput`.
pub fn median_span(n: usize) -> (r: Result<Span, MathError>)
    ensures
        match r {
            Ok(s) => {
                &&& n > 0
                &&& s == span_at(n as int, 2)
                &&& s.lo <= s.hi < n
                &&& n % 2 == 0 ==> s == (Span { lo: (n / 2 - 1) as usize, hi: (n / 2) as usize })
                &&& n % 2 == 1 ==> s == (Span { lo: n / 2, hi: n / 2 })
            },
            Err(e) => n == 0 && e matches MathError::InvalidInput(_),
        },
{
    if n == 0 {
        return Err(MathError::InvalidInput("Data cannot be empty".to_string()));
    }
    let mid = n / 2;
    if n % 2 == 0 {
        Ok(Span { lo: mid - 1, hi: mid })
    } else {
        Ok(Span { lo: mid, hi: mid })
    }
}

/// The quartiles of a sorted sample of `n` values, at positions `n/4`,
/// `n/2` and `3n/4`, each averaged with its left neighbour when the position
/// falls exactly on a boundary. An empty sample has none: `InvalidInput`.
pub fn quartile_spans(n: usize) -> (r: Result<(Span, Span, Span), MathError>)
    requires
        n <= usize::MAX / 3,
    ensures
        match r {
            Ok(q) => {
                &&& n > 0
                &&& q.0 == span_at(n as int, 1)
                &&& q.1 == span_at(n as int, 2)
                &&& q.2 == span_at(n as int, 3)
                &&& q.0.lo <= q.0.hi < n
                &&& q.1.lo <= q.1.hi < n
                &&& q.2.lo <= q.2.hi < n
            },
            Err(e) => n == 0 && e matches MathError::InvalidInput(_),
        },
{
    let q2 = match median_span(n) {
        Ok(s) => s,
        Err(e) => return Err(e),
    };
    let q1_index = n / 4;
    let q1 = if n % 4 == 0 {
        Span { lo: q1_index - 1, hi: q1_index }
    } else {
        Span { lo: q1_index, hi: q1_index }
    };
    let q3_index = (3 * n) / 4;
    let q3 = if (3 * n) % 4 == 0 {
        Span { lo: q3_index - 1, hi: q3_index }
    } else {
        Span { lo: q3_index, hi: q3_index }
    };
    Ok((q1, q2, q3))
}

/// How often `k` occurs in `s`.
pub open spec fn count_of(s: Seq<i64>, k: i64) -> nat
    decreases s.len(),
{
    if s.len() == 0 {
        0
    } else {
        count_of(s.drop_last(), k) + if s.last() == k { 1nat } else { 0nat }
    }
}

/// `k` occurs in `s`, and no value occurs more often.
pub open spec fn is_mode(s: Seq<i64>, k: i64) -> bool {
    &&& count_of(s, k) > 0
    &&& forall|j: int| 0 <= j < s.len() ==> count_of(s, #[trigger] s[j]) <= count_of(s, k)
}

/// A value that occurs in `s` occurs at least once.
pub proof fn lemma_count_positive(s: Seq<i64>, j: int)
    requires
        0 <= j < s.len(),
    ensures
        count_of(s, s[j]) > 0,
    decreases s.len(),
{
    if j < s.len() - 1 {
        lemma_count_positive(s.drop_last(), j);
    }
}

/// A value with a positive count occurs in `s`.
pub proof fn lemma_count_witness(s: Seq<i64>, k: i64)
    requires
        count_of(s, k) > 0,
    ensures
        s.contains(k),
    decreases s.len(),
{
    if s.last() != k {
        lemma_count_witness(s.drop_last(), k);
        let j = choose|j: int| 0 <= j < s.drop_last().len() && s.drop_last()[j] == k;
        assert(s[j] == k);
    } else {
        assert(s[s.len() - 1] == k);
    }
}

/// A value occurs at most as often as there are elements.
pub proof fn lemma_count_le_len(s: Seq<i64>, k: i64)
    ensures
        count_of(s, k) <= s.len(),
    decreases s.len(),
{
    if s.len() > 0 {
        lemma_count_le_len(s.drop_last(), k);
    }
}

/// Puts `x` into the strictly increasing `v`, unless it is there already.
fn insert_sorted(v: &mut Vec<i64>, x: i64)
    requires
        forall|a: int, b: int| 0 <= a < b < old(v)@.len() ==> #[trigger] old(v)@[a] < #[trigger] old(v)@[b],
    ensures
        forall|a: int, b: int| 0 <= a < b < final(v)@.len() ==> #[trigger] final(v)@[a] < #[trigger] final(v)@[b],
        forall|y: i64| final(v)@.contains(y) <==> old(v)@.contains(y) || y == x,
{
    let mut pos: usize = 0;
    while pos < v.len() && v[pos] < x
        invariant
            pos <= v@.len(),
            forall|a: int| 0 <= a < pos ==> #[trigger] v@[a] < x,
        decreases v@.len() - pos,
    {
        pos = pos + 1;
    }
    if pos < v.len() && v[pos] == x {
        assert(v@.contains(x)) by {
            assert(v@[pos as int] == x);
        }
        return;
    }
    let ghost before = v@;
    v.insert(pos, x);
    proof {
        assert(v@ == before.insert(pos as int, x));
        assert forall|a: int, b: int| 0 <= a < b < v@.len() implies #[trigger] v@[a] < #[trigger] v@[b] by {
            if b < pos {
            } else if a > pos {
                assert(v@[a] == before[a - 1] && v@[b] == before[b - 1]);
            } else if a == pos {
                assert(v@[b] == before[b - 1]);
                assert(before[pos as int] > x);
                if b - 1 > pos {
                    assert(before[pos as int] < before[b - 1]);
                }
            } else {
                assert(v@[a] == before[a]);
                if b == pos {
                } else {
                    assert(v@[b] == before[b - 1]);
                    assert(before[a] < x);
                    assert(before[pos as int] > x);
                    if b - 1 > pos {
                        assert(before[pos as int] < before[b - 1]);
                    }
                }
            }
        }
        assert forall|y: i64| v@.contains(y) <==> before.contains(y) || y == x by {
            if v@.contains(y) {
                let j = choose|j: int| 0 <= j < v@.len() && v@[j] == y;
                if j < pos {
                    assert(before[j] == y);
                } else if j > pos {
                    assert(before[j - 1] == y);
                }
            }
            if before.contains(y) {
                let j = choose|j: int| 0 <= j < before.len() && before[j] == y;
                if j < pos {
                    assert(v@[j] == y);
                } else {
                    assert(v@[j + 1] == y);
                }
            }
            if y == x {
                assert(v@[pos as int] == x);
            }
        }
    }
}

/// The values that occur most often in `keys`, counted in a frequency
/// table, ascending and without repeats; every value when all occur equally often; none for no keys.
pub fn most_frequent_keys(keys: &[i64]) -> (r: Vec<i64>)
    ensures
        forall|a: int, b: int| 0 <= a < b < r@.len() ==> #[trigger] r@[a] < #[trigger] r@[b],
        forall|k: i64| r@.contains(k) <==> is_mode(keys@, k),
{
    broadcast use vstd::std_specs::hash::group_hash_axioms;
    let n = keys.len();
    let mut frequency: HashMap<i64, usize> = HashMap::new();
    let mut i: usize = 0;
    while i < n
        invariant
            n == keys@.len(),
            i <= n,
            forall|k: i64| #[trigger] frequency@.contains_key(k) == (count_of(keys@.subrange(0, i as int), k) > 0),
            forall|k: i64| frequency@.contains_key(k) ==> #[trigger] frequency@[k] == count_of(keys@.subrange(0, i as int), k),
        decreases n - i,
    {
        let k = keys[i];
        proof {
            assert(keys@.subrange(0, i + 1).drop_last() =~= keys@.subrange(0, i as int));
            lemma_count_le_len(keys@.subrange(0, i as int), k);
        }
        let c: usize = match frequency.get(&k) {
            Some(c) => *c,
            None => 0,
        };
        frequency.insert(k, c + 1);
        i = i + 1;
    }
    proof {
        assert(keys@.subrange(0, n as int) =~= keys@);
    }
    let mut counts: Vec<usize> = Vec::new();
    let mut best: usize = 0;
    let mut i: usize = 0;
    while i < n
        invariant
            n == keys@.len(),
            i <= n,
            counts@.len() == i,
            forall|j: int| 0 <= j < i ==> #[trigger] counts@[j] == count_of(keys@, keys@[j]),
            forall|j: int| 0 <= j < i ==> #[trigger] count_of(keys@, keys@[j]) <= best,
            i > 0 ==> exists|j: int| 0 <= j < i && count_of(keys@, #[trigger] keys@[j]) == best,
            i == 0 ==> best == 0,
            forall|k: i64| #[trigger] frequency@.contains_key(k) == (count_of(keys@, k) > 0),
            forall|k: i64| frequency@.contains_key(k) ==> #[trigger] frequency@[k] == count_of(keys@, k),
        decreases n - i,
    {
        proof {
            lemma_count_positive(keys@, i as int);
        }
        let c: usize = match frequency.get(&keys[i]) {
            Some(c) => *c,
            None => 0,
        };
        counts.push(c);
        proof {
            lemma_count_positive(keys@, i as int);
        }
        let ghost old_best = best;
        if c > best {
            best = c;
        }
        proof {
            if c == best {
                assert(count_of(keys@, keys@[i as int]) == best);
            } else {
                let j = choose|j: int| 0 <= j < i && count_of(keys@, #[trigger] keys@[j]) == old_best;
                assert(count_of(keys@, keys@[j]) == best);
            }
        }
        i = i + 1;
    }
    let mut r: Vec<i64> = Vec::new();
    let mut i: usize = 0;
    while i < n
        invariant
            n == keys@.len(),
            i <= n,
            counts@.len() == n,
            forall|j: int| 0 <= j < n ==> #[trigger] counts@[j] == count_of(keys@, keys@[j]),
            forall|j: int| 0 <= j < n ==> #[trigger] count_of(keys@, keys@[j]) <= best,
            n > 0 ==> exists|j: int| 0 <= j < n && count_of(keys@, #[trigger] keys@[j]) == best,
            forall|a: int, b: int| 0 <= a < b < r@.len() ==> #[trigger] r@[a] < #[trigger] r@[b],
            forall|k: i64| r@.contains(k) <==> exists|j: int| 0 <= j < i && #[trigger] keys@[j] == k && count_of(keys@, k) == best,
        decreases n - i,
    {
        if counts[i] == best {
            insert_sorted(&mut r, keys[i]);
        }
        proof {
            assert forall|k: i64| r@.contains(k) <==> exists|j: int| 0 <= j < i + 1 && #[trigger] keys@[j] == k && count_of(keys@, k) == best by {
                if exists|j: int| 0 <= j < i + 1 && #[trigger] keys@[j] == k && count_of(keys@, k) == best {
                    let j = choose|j: int| 0 <= j < i + 1 && #[trigger] keys@[j] == k && count_of(keys@, k) == best;
                    if j < i {
                        assert(exists|j: int| 0 <= j < i && #[trigger] keys@[j] == k && count_of(keys@, k) == best);
                    }
                }
                if r@.contains(k) && k == keys@[i as int] && count_of(keys@, k) == best {
                    assert(keys@[i as int] == k);
                }
            }
        }
        i = i + 1;
    }
    proof {
        assert forall|k: i64| r@.contains(k) <==> is_mode(keys@, k) by {
            if is_mode(keys@, k) {
                lemma_count_witness(keys@, k);
                let j = choose|j: int| 0 <= j < keys@.len() && keys@[j] == k;
                let w = choose|j: int| 0 <= j < n && count_of(keys@, #[trigger] keys@[j]) == best;
                assert(count_of(keys@, keys@[w]) <= count_of(keys@, k));
                assert(count_of(keys@, keys@[j]) <= best);
                assert(keys@[j] == k && count_of(keys@, k) == best);
            }
            if r@.contains(k) {
                let j = choose|j: int| 0 <= j < n && #[trigger] keys@[j] == k && count_of(keys@, k) == best;
                lemma_count_positive(keys@, j);
            }
        }
    }
    r
}

} // verus!
