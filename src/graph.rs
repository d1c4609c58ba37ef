//! Text sparklines: one block character per value, its height proportional
//! to the value's place between the smallest and the largest.

use vstd::prelude::*;
use crate::tui::push_char;

verus! {

/// The largest value of `s`; zero for an empty sequence.
pub open spec fn seq_max(s: Seq<u8>) -> u8
    decreases s.len(),
{
    if s.len() == 0 {
        0
    } else if s.len() == 1 {
        s[0]
    } else if s.last() > seq_max(s.drop_last()) {
        s.last()
    } else {
        seq_max(s.drop_last())
    }
}

/// The smallest value of `s`; zero for an empty sequence.
pub open spec fn seq_min(s: Seq<u8>) -> u8
    decreases s.len(),
{
    if s.len() == 0 {
        0
    } else if s.len() == 1 {
        s[0]
    } else if s.last() < seq_min(s.drop_last()) {
        s.last()
    } else {
        seq_min(s.drop_last())
    }
}

/// The bar height, 0 to 7, for a value `d` above the minimum when the values
/// span `range`: `7 · d / range` rounded to the nearest integer, halves up.
pub open spec fn spark_level(d: int, range: int) -> int {
    (14 * d + range) / (2 * range)
}

/// The block character of height `level`.
pub open spec fn spark_char(level: int) -> char {
    if level <= 0 {
        '\u{2581}'
    } else if level == 1 {
        '\u{2582}'
    } else if level == 2 {
        '\u{2583}'
    } else if level == 3 {
        '\u{2584}'
    } else if level == 4 {
        '\u{2585}'
    } else if level == 5 {
        '\u{2586}'
    } else if level == 6 {
        '\u{2587}'
    } else {
        '\u{2588}'
    }
}

/// The flat line drawn when all values are equal.
pub open spec fn flat_char() -> char {
    '\u{2500}'
}

/// The block character of height `level`, as `spark_char` gives it.
fn level_char(level: u32) -> (c: char)
    ensures
        c == spark_char(level as int),
{
    if level == 0 {
        '\u{2581}'
    } else if level == 1 {
        '\u{2582}'
    } else if level == 2 {
        '\u{2583}'
    } else if level == 3 {
        '\u{2584}'
    } else if level == 4 {
        '\u{2585}'
    } else if level == 5 {
        '\u{2586}'
    } else if level == 6 {
        '\u{2587}'
    } else {
        '\u{2588}'
    }
}

/// A sparkline of the first `width` values of `data`: empty for no data, a
/// flat line `width` long when all values are equal, else one block per value.
pub fn draw_sparkline(data: &[u8], width: usize) -> (r: String)
    ensures
        data@.len() == 0 ==> r@.len() == 0,
        data@.len() > 0 && seq_max(data@) == seq_min(data@) ==> r@ == Seq::new(width as nat, |i: int| flat_char()),
        data@.len() > 0 && seq_max(data@) != seq_min(data@) ==> {
            &&& r@.len() == if width < data@.len() { width as int } else { data@.len() as int }
            &&& forall|i: int| 0 <= i < r@.len() ==> #[trigger] r@[i] == spark_char(
                spark_level(data@[i] - seq_min(data@), seq_max(data@) - seq_min(data@)))
        },
{
    if data.len() == 0 {
        return String::new();
    }
    let mut hi: u8 = data[0];
    let mut lo: u8 = data[0];
    let mut k: usize = 1;
    proof {
        assert(data@.subrange(0, 1) =~= seq![data@[0]]);
    }
    while k < data.len()
        invariant
            1 <= k <= data@.len(),
            hi == seq_max(data@.subrange(0, k as int)),
            lo == seq_min(data@.subrange(0, k as int)),
        decreases data@.len() - k,
    {
        proof {
            assert(data@.subrange(0, k + 1).drop_last() =~= data@.subrange(0, k as int));
        }
        if data[k] > hi {
            hi = data[k];
        }
        if data[k] < lo {
            lo = data[k];
        }
        k = k + 1;
    }
    proof {
        assert(data@.subrange(0, data@.len() as int) =~= data@);
    }
    let mut r = String::new();
    if hi == lo {
        let mut j: usize = 0;
        while j < width
            invariant
                j <= width,
                r@ == Seq::new(j as nat, |i: int| flat_char()),
            decreases width - j,
        {
            push_char(&mut r, '\u{2500}');
            j = j + 1;
            proof {
                assert(r@ =~= Seq::new(j as nat, |i: int| flat_char()));
            }
        }
        return r;
    }
    assert(seq_min(data@) <= seq_max(data@)) by {
        lemma_min_le_max(data@);
    }
    let range = (hi - lo) as u32;
    let mut j: usize = 0;
    while j < data.len() && j < width
        invariant
            j <= data@.len(),
            j <= width,
            hi == seq_max(data@),
            lo == seq_min(data@),
            hi > lo,
            range == hi - lo,
            r@.len() == j,
            forall|i: int| 0 <= i < j ==> #[trigger] r@[i] == spark_char(spark_level(data@[i] - lo, range as int)),
        decreases data@.len() - j,
    {
        proof {
            lemma_within_bounds(data@, j as int);
        }
        let d = (data[j] - lo) as u32;
        let level = (14 * d + range) / (2 * range);
        push_char(&mut r, level_char(level));
        j = j + 1;
    }
    r
}

/// The minimum is at most the maximum.
pub proof fn lemma_min_le_max(s: Seq<u8>)
    ensures
        seq_min(s) <= seq_max(s),
    decreases s.len(),
{
    if s.len() > 1 {
        lemma_min_le_max(s.drop_last());
    }
}

/// Every value lies between the minimum and the maximum.
pub proof fn lemma_within_bounds(s: Seq<u8>, i: int)
    requires
        0 <= i < s.len(),
    ensures
        seq_min(s) <= s[i] <= seq_max(s),
    decreases s.len(),
{
    if s.len() > 1 && i < s.len() - 1 {
        lemma_within_bounds(s.drop_last(), i);
    }
}

} // verus!
