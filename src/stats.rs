use vstd::prelude::*;
use vstd::relations::sorted_by;
use vstd::seq_lib::lemma_sorted_unique;

use crate::frequency::{Bin, FrequencyValue, value_of, values_of};

verus! {

broadcast use vstd::seq_lib::group_to_multiset_ensures;

/// Index of the first bin among `s[0..n]` whose magnitude is smallest.
pub open spec fn min_index(s: Seq<Bin>, n: int) -> int
    decreases n,
{
    if n <= 1 {
        0
    } else {
        let k = min_index(s, n - 1);
        if value_of(s[n - 1]) < value_of(s[k]) {
            n - 1
        } else {
            k
        }
    }
}

/// Index of the last bin among `s[0..n]` whose magnitude is largest.
pub open spec fn max_index(s: Seq<Bin>, n: int) -> int
    decreases n,
{
    if n <= 1 {
        0
    } else {
        let k = max_index(s, n - 1);
        if value_of(s[n - 1]) >= value_of(s[k]) {
            n - 1
        } else {
            k
        }
    }
}

/// The bin holding the smallest magnitude (the first such bin).
pub open spec fn min_bin(s: Seq<Bin>) -> Bin {
    s[min_index(s, s.len() as int)]
}

/// The bin holding the largest magnitude (the last such bin).
pub open spec fn max_bin(s: Seq<Bin>) -> Bin {
    s[max_index(s, s.len() as int)]
}

/// Sum of a sequence of integers.
pub open spec fn sum(s: Seq<int>) -> int
    decreases s.len(),
{
    if s.len() == 0 {
        0
    } else {
        sum(s.drop_last()) + s.last()
    }
}

/// Arithmetic mean, rounded down.
pub open spec fn mean(s: Seq<int>) -> int {
    sum(s) / (s.len() as int)
}

/// Median, rounded down: the middle element of the sorted sequence, or the
/// mean of the two middle elements when the length is even.
pub open spec fn median(s: Seq<int>) -> int {
    let t = s.sort();
    let n = t.len() as int;
    if n % 2 == 0 {
        (t[n / 2 - 1] + t[n / 2]) / 2
    } else {
        t[n / 2]
    }
}

/// An `i64` sequence read as mathematical integers.
pub open spec fn ints(s: Seq<i64>) -> Seq<int> {
    s.map_values(|x: i64| x as int)
}

/// `min_index` and `max_index` name bins of extreme magnitude.
pub proof fn lemma_extreme_indices(s: Seq<Bin>, n: int)
    requires
        1 <= n <= s.len(),
    ensures
        0 <= min_index(s, n) < n,
        0 <= max_index(s, n) < n,
        forall|j: int| 0 <= j < n ==> value_of(s[min_index(s, n)]) <= #[trigger] value_of(s[j]),
        forall|j: int| 0 <= j < n ==> #[trigger] value_of(s[j]) <= value_of(s[max_index(s, n)]),
    decreases n,
{
    if n > 1 {
        lemma_extreme_indices(s, n - 1);
    }
}

/// Each element is at most every later one.
pub open spec fn nondecreasing(s: Seq<int>) -> bool {
    forall|a: int, b: int| 0 <= a < b < s.len() ==> s[a] <= s[b]
}

/// The copy of the magnitudes of `data`, in ascending order.
fn sorted_values(data: &Vec<Bin>) -> (r: Vec<i64>)
    ensures
        r@.len() == data@.len(),
        ints(r@) == values_of(data@).sort(),
{
    let ghost vals = values_of(data@);
    let mut r: Vec<i64> = Vec::new();
    let mut i: usize = 0;
    while i < data.len()
        invariant
            0 <= i <= data.len(),
            vals == values_of(data@),
            nondecreasing(ints(r@)),
            ints(r@).to_multiset() == vals.take(i as int).to_multiset(),
        decreases data.len() - i,
    {
        let x = data[i].1.0;
        let mut p: usize = 0;
        while p < r.len() && r[p] <= x
            invariant
                0 <= p <= r.len(),
                forall|j: int| 0 <= j < p ==> r@[j] <= x,
            decreases r.len() - p,
        {
            p = p + 1;
        }
        let ghost before = ints(r@);
        r.insert(p, x);
        proof {
            assert(ints(r@) =~= before.insert(p as int, x as int));
            assert(vals.take(i as int + 1) =~= vals.take(i as int).push(x as int));
            assert forall|a: int, b: int| 0 <= a < b < ints(r@).len() implies ints(r@)[a]
                <= ints(r@)[b] by {
                if b < p {
                    assert(before[a] <= before[b]);
                } else if b == p {
                } else if a < p {
                    assert(before[a] <= before[b - 1]);
                } else if a == p {
                    assert(before[b - 1] >= before[p as int]);
                } else {
                    assert(before[a - 1] <= before[b - 1]);
                }
            }
        }
        i = i + 1;
    }
    proof {
        assert(vals.take(data.len() as int) =~= vals);
        assert(sorted_by(ints(r@), |x: int, y: int| x <= y)) by {
            assert forall|a: int, b: int| 0 <= a < b < ints(r@).len() implies (|x: int, y: int|
                x <= y)(ints(r@)[a], ints(r@)[b]) by {}
        }
        vals.lemma_sort_ensures();
        vstd::seq_lib::to_multiset_len(ints(r@));
        vstd::seq_lib::to_multiset_len(vals);
        lemma_sorted_unique(ints(r@), vals.sort(), |x: int, y: int| x <= y);
    }
    r
}

/// Halves `a + b`, rounding down.
fn floor_mean2(a: i64, b: i64) -> (r: i64)
    ensures
        r == (a + b) / 2,
{
    let s: i128 = a as i128 + b as i128;
    match s.checked_div_euclid(2) {
        Some(q) => {
            assert(s / 2 <= i64::MAX && s / 2 >= i64::MIN);
            q as i64
        },
        None => {
            a
        },
    }
}

/// Computes the four statistics of a spectrum's bins: the bin of smallest
/// magnitude, the bin of largest magnitude, the mean and the median magnitude.
pub fn calc_statistics(data: &Vec<Bin>) -> (r: (Bin, Bin, FrequencyValue, FrequencyValue))
    requires
        data.len() >= 1,
    ensures
        r.0 == min_bin(data@),
        r.1 == max_bin(data@),
        r.2.0 == mean(values_of(data@)),
        r.3.0 == median(values_of(data@)),
{
    let n = data.len();
    let ghost s = data@;
    let ghost vals = values_of(s);
    let mut mi: usize = 0;
    let mut ma: usize = 0;
    let mut total: i128 = data[0].1.0 as i128;
    proof {
        assert(vals.take(1).drop_last() =~= Seq::<int>::empty());
        assert(vals.take(1).last() == vals[0]);
        assert(vals[0] == value_of(s[0]));
        assert(sum(vals.take(1)) == sum(vals.take(1).drop_last()) + vals.take(1).last());
    }
    let mut i: usize = 1;
    while i < n
        invariant
            1 <= i <= n,
            n == data.len(),
            s == data@,
            vals == values_of(s),
            mi == min_index(s, i as int),
            ma == max_index(s, i as int),
            total == sum(vals.take(i as int)),
            (i as int) * (i64::MIN as int) <= total <= (i as int) * (i64::MAX as int),
        decreases n - i,
    {
        proof {
            lemma_extreme_indices(s, i as int);
        }
        let v = data[i].1.0;
        if v < data[mi].1.0 {
            mi = i;
        }
        if v >= data[ma].1.0 {
            ma = i;
        }
        proof {
            assert(vals.take(i as int + 1).drop_last() =~= vals.take(i as int));
        }
        total = total + v as i128;
        i = i + 1;
    }
    proof {
        assert(vals.take(n as int) =~= vals);
        lemma_extreme_indices(s, n as int);
    }
    proof {
        assert((total as int) / (n as int) <= i64::MAX) by (nonlinear_arith)
            requires
                total <= (n as int) * (i64::MAX as int),
                n >= 1,
        ;
        assert((total as int) / (n as int) >= i64::MIN) by (nonlinear_arith)
            requires
                total >= (n as int) * (i64::MIN as int),
                n >= 1,
        ;
        assert(vals.len() == n);
    }
    let avg = match total.checked_div_euclid(n as i128) {
        Some(q) => q as i64,
        None => 0,
    };
    let sorted = sorted_values(data);
    let med = if n % 2 == 0 {
        floor_mean2(sorted[n / 2 - 1], sorted[n / 2])
    } else {
        sorted[n / 2]
    };
    (data[mi], data[ma], FrequencyValue(avg), FrequencyValue(med))
}

} // verus!
