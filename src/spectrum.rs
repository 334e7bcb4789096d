use vstd::prelude::*;
use vstd::arithmetic::div_mod::{lemma_fundamental_div_mod, lemma_fundamental_div_mod_converse};
use std::collections::BTreeMap;

use crate::error::SpectrumError;
use crate::frequency::{
    Bin, Frequency, FrequencyValue, MICROHERTZ_PER_HERTZ, freq_of, strictly_ascending, value_of,
    values_of,
};
use crate::stats::{calc_statistics, lemma_extreme_indices, max_bin, max_index, mean, median, min_bin};

verus! {

broadcast use vstd::laws_cmp::group_laws_cmp;

/// The frequency-ascending bins of one analysed block of samples, with their
/// statistics kept up to date.
///
/// Frequencies rise strictly from bin to bin and there are at least two bins.
/// `min`, `max`, `average` and `median` always describe the current
/// magnitudes: they are computed when the spectrum is built and again after
/// each rescale.
pub struct FrequencySpectrum {
    data: Vec<Bin>,
    frequency_resolution: Frequency,
    average: FrequencyValue,
    median: FrequencyValue,
    min: Bin,
    max: Bin,
}

/// The line through bins `a` and `b`, read at frequency `x` and rounded down.
pub open spec fn lerp(a: Bin, b: Bin, x: int) -> int {
    value_of(a) + (value_of(b) - value_of(a)) * (x - freq_of(a)) / (freq_of(b) - freq_of(a))
}

/// `f` lies within the frequencies that `s` covers.
pub open spec fn in_range(s: Seq<Bin>, f: int) -> bool {
    freq_of(s[0]) <= f <= freq_of(s.last())
}

/// Bins `k` and `k + 1` enclose `f`: `f` is above the first and at most the second.
pub open spec fn encloses(s: Seq<Bin>, k: int, f: int) -> bool {
    0 <= k < s.len() - 1 && freq_of(s[k]) < f <= freq_of(s[k + 1])
}

/// The index of the pair of adjacent bins that encloses `f`.
pub open spec fn window(s: Seq<Bin>, f: int) -> int {
    choose|k: int| encloses(s, k, f)
}

/// The magnitude at `f`: the lowest bin's own value at its frequency, and
/// otherwise the linear interpolation between the two bins that enclose `f`.
pub open spec fn interpolated(s: Seq<Bin>, f: int) -> int {
    if f == freq_of(s[0]) {
        value_of(s[0])
    } else {
        lerp(s[window(s, f)], s[window(s, f) + 1], f)
    }
}

/// The bin nearest to `f`: the lowest or highest bin at its own frequency, and
/// otherwise the lower of the two enclosing bins when `f` is less than half a
/// resolution step above it, else the upper one.
pub open spec fn closest(s: Seq<Bin>, resolution: int, f: int) -> Bin {
    if f == freq_of(s[0]) {
        s[0]
    } else if f == freq_of(s.last()) {
        s.last()
    } else if 2 * (f - freq_of(s[window(s, f)])) < resolution {
        s[window(s, f)]
    } else {
        s[window(s, f) + 1]
    }
}

/// The integer key of a frequency: its whole hertz, with negative frequencies
/// at 0 and the largest ones at `u32::MAX`.
pub open spec fn hertz_key(f: int) -> u32 {
    if f < 0 {
        0
    } else if f / (MICROHERTZ_PER_HERTZ as int) > u32::MAX {
        u32::MAX
    } else {
        (f / (MICROHERTZ_PER_HERTZ as int)) as u32
    }
}

/// The map that inserting `keys[i] -> vals[i]` for each `i` in order yields:
/// a later bin replaces an earlier one with the same key.
pub open spec fn build_map(keys: Seq<u32>, vals: Seq<Bin>) -> Map<u32, FrequencyValue>
    decreases keys.len(),
{
    if keys.len() == 0 {
        Map::empty()
    } else {
        build_map(keys.drop_last(), vals).insert(keys.last(), vals[keys.len() - 1].1)
    }
}

/// Exactly one pair of adjacent bins encloses a frequency above the lowest
/// one and at most the highest one.
pub proof fn lemma_window_unique(s: Seq<Bin>, f: int, k: int)
    requires
        s.len() >= 2,
        strictly_ascending(s),
        encloses(s, k, f),
    ensures
        window(s, f) == k,
{
    let w = window(s, f);
    if w < k {
        assert(freq_of(s[w + 1]) <= freq_of(s[k]));
    } else if w > k {
        assert(freq_of(s[k + 1]) <= freq_of(s[w]));
    }
}

/// The line through two bins passes through the second one.
pub proof fn lemma_lerp_at_upper(a: Bin, b: Bin)
    requires
        freq_of(a) < freq_of(b),
    ensures
        lerp(a, b, freq_of(b)) == value_of(b),
{
    let d = freq_of(b) - freq_of(a);
    let dy = value_of(b) - value_of(a);
    lemma_fundamental_div_mod_converse(dy * d, d, dy, 0);
}

/// The smallest magnitude never exceeds the largest.
pub proof fn lemma_min_le_max(s: Seq<Bin>)
    requires
        s.len() >= 1,
    ensures
        value_of(min_bin(s)) <= value_of(max_bin(s)),
{
    lemma_extreme_indices(s, s.len() as int);
    assert(value_of(min_bin(s)) <= value_of(s[max_index(s, s.len() as int)]));
}

/// Querying a spectrum exactly at one of its bins' frequencies gives that
/// bin's own magnitude, with no interpolation error.
pub proof fn lemma_interpolated_at_bin(s: Seq<Bin>, i: int)
    requires
        s.len() >= 2,
        strictly_ascending(s),
        0 <= i < s.len(),
    ensures
        in_range(s, freq_of(s[i])),
        interpolated(s, freq_of(s[i])) == value_of(s[i]),
{
    if i > 0 {
        assert(freq_of(s[0]) < freq_of(s[i]));
        assert(encloses(s, i - 1, freq_of(s[i])));
        lemma_window_unique(s, freq_of(s[i]), i - 1);
        lemma_lerp_at_upper(s[i - 1], s[i]);
    }
    if i < s.len() - 1 {
        assert(freq_of(s[i]) < freq_of(s.last()));
    }
}

/// The y coordinate at `x_coord` of the line through `(x1, y1)` and `(x2, y2)`,
/// rounded down.
pub fn calculate_y_coord_between_points(p1: (i64, i64), p2: (i64, i64), x_coord: i64) -> (r: i64)
    requires
        p1.0 < p2.0,
        p1.0 <= x_coord <= p2.0,
    ensures
        r == p1.1 + (p2.1 - p1.1) * (x_coord - p1.0) / (p2.0 - p1.0),
{
    let (x1, y1) = p1;
    let (x2, y2) = p2;
    let dy: i128 = y2 as i128 - y1 as i128;
    let mag: u128 = if dy >= 0 {
        dy as u128
    } else {
        (-dy) as u128
    };
    let dx: u128 = (x_coord as i128 - x1 as i128) as u128;
    let span: u128 = (x2 as i128 - x1 as i128) as u128;
    assert(mag * dx <= 0xffff_ffff_ffff_ffffu128 * 0xffff_ffff_ffff_ffffu128) by (nonlinear_arith)
        requires
            mag <= 0xffff_ffff_ffff_ffffu128,
            dx <= 0xffff_ffff_ffff_ffffu128,
    ;
    let prod: u128 = mag * dx;
    let q: u128 = prod / span;
    let rem: u128 = prod % span;
    proof {
        lemma_fundamental_div_mod(prod as int, span as int);
        assert(prod == span * q + rem);
        assert(q <= mag) by (nonlinear_arith)
            requires
                prod == span * q + rem,
                prod == mag * dx,
                dx <= span,
                span > 0,
                rem >= 0,
        ;
        assert(rem > 0 ==> q < mag) by (nonlinear_arith)
            requires
                prod == span * q + rem,
                prod == mag * dx,
                dx <= span,
                span > 0,
                rem >= 0,
                q <= mag,
        ;
    }
    let offset: i128 = if dy >= 0 {
        q as i128
    } else if rem == 0 {
        -(q as i128)
    } else {
        -(q as i128) - 1
    };
    proof {
        let num = (y2 - y1) * (x_coord - x1);
        let d = (x2 - x1) as int;
        assert(dy >= 0 ==> num == prod) by (nonlinear_arith)
            requires
                num == (y2 - y1) * (x_coord - x1),
                dy == y2 - y1,
                dx == x_coord - x1,
                dy >= 0 ==> mag == dy,
                prod == mag * dx,
        ;
        assert(dy < 0 ==> num == -(prod as int)) by (nonlinear_arith)
            requires
                num == (y2 - y1) * (x_coord - x1),
                dy == y2 - y1,
                dx == x_coord - x1,
                dy < 0 ==> mag == -dy,
                prod == mag * dx,
        ;
        if dy >= 0 {
            assert(num == prod);
            lemma_fundamental_div_mod_converse(num, d, q as int, rem as int);
        } else if rem == 0 {
            assert(num == -(prod as int));
            assert(num == (-(q as int)) * d + 0) by (nonlinear_arith)
                requires
                    num == -(prod as int),
                    prod == span * q + rem,
                    rem == 0,
                    d == span,
            ;
            lemma_fundamental_div_mod_converse(num, d, -(q as int), 0);
        } else {
            assert(num == -(prod as int));
            assert(num == (-(q as int) - 1) * d + (d - rem)) by (nonlinear_arith)
                requires
                    num == -(prod as int),
                    prod == span * q + rem,
                    d == span,
            ;
            lemma_fundamental_div_mod_converse(num, d, -(q as int) - 1, d - rem);
        }
    }
    (y1 as i128 + offset) as i64
}

impl FrequencySpectrum {
    /// The stored bins, frequency-ascending.
    pub closed spec fn bins(&self) -> Seq<Bin> {
        self.data@
    }

    /// The frequency step of the transform the bins came from.
    pub closed spec fn resolution(&self) -> Frequency {
        self.frequency_resolution
    }

    #[verifier::type_invariant]
    spec fn well_formed(&self) -> bool {
        &&& self.data.len() >= 2
        &&& strictly_ascending(self.data@)
        &&& self.min == min_bin(self.data@)
        &&& self.max == max_bin(self.data@)
        &&& self.average.0 == mean(values_of(self.data@))
        &&& self.median.0 == median(values_of(self.data@))
    }

    /// Builds a spectrum from frequency-ascending bins and computes its
    /// statistics. Fails with `EmptySpectrum` when fewer than two bins are given.
    pub fn new(data: Vec<Bin>, frequency_resolution: Frequency) -> (r: Result<
        FrequencySpectrum,
        SpectrumError,
    >)
        requires
            strictly_ascending(data@),
        ensures
            data@.len() < 2 <==> r is Err,
            r is Err ==> r == Err::<FrequencySpectrum, SpectrumError>(SpectrumError::EmptySpectrum),
            r matches Ok(s) ==> s.bins() == data@ && s.resolution() == frequency_resolution,
    {
        if data.len() < 2 {
            return Err(SpectrumError::EmptySpectrum);
        }
        let (min, max, average, median) = calc_statistics(&data);
        Ok(FrequencySpectrum { data, frequency_resolution, average, median, min, max })
    }

    /// Mean magnitude, rounded down.
    pub fn average(&self) -> (r: FrequencyValue)
        ensures
            r.0 == mean(values_of(self.bins())),
    {
        proof {
            use_type_invariant(self);
        }
        self.average
    }

    /// Median magnitude, rounded down.
    pub fn median(&self) -> (r: FrequencyValue)
        ensures
            r.0 == median(values_of(self.bins())),
    {
        proof {
            use_type_invariant(self);
        }
        self.median
    }

    /// The bin of largest magnitude (the last one, where several share it).
    pub fn max(&self) -> (r: Bin)
        ensures
            r == max_bin(self.bins()),
    {
        proof {
            use_type_invariant(self);
        }
        self.max
    }

    /// The bin of smallest magnitude (the first one, where several share it).
    pub fn min(&self) -> (r: Bin)
        ensures
            r == min_bin(self.bins()),
    {
        proof {
            use_type_invariant(self);
        }
        self.min
    }

    /// Largest magnitude minus smallest magnitude.
    pub fn range(&self) -> (r: i128)
        ensures
            r == value_of(max_bin(self.bins())) - value_of(min_bin(self.bins())),
    {
        proof {
            use_type_invariant(self);
        }
        self.max.1.0 as i128 - self.min.1.0 as i128
    }

    /// The bins: at least two, with strictly rising frequencies.
    pub fn data(&self) -> (r: &Vec<Bin>)
        ensures
            r@ == self.bins(),
            r@.len() >= 2,
            strictly_ascending(r@),
    {
        proof {
            use_type_invariant(self);
        }
        &self.data
    }

    /// The frequency step of the transform the bins came from.
    pub fn frequency_resolution(&self) -> (r: Frequency)
        ensures
            r == self.resolution(),
    {
        self.frequency_resolution
    }

    /// The highest frequency in the spectrum.
    pub fn max_fr(&self) -> (r: Frequency)
        ensures
            r == self.bins().last().0,
    {
        proof {
            use_type_invariant(self);
        }
        self.data[self.data.len() - 1].0
    }

    /// The lowest frequency in the spectrum.
    pub fn min_fr(&self) -> (r: Frequency)
        ensures
            r == self.bins()[0].0,
    {
        proof {
            use_type_invariant(self);
        }
        self.data[0].0
    }

    /// The magnitude at 0 Hz, present only when the lowest bin lies exactly there.
    pub fn dc_component(&self) -> (r: Option<FrequencyValue>)
        ensures
            freq_of(self.bins()[0]) == 0 ==> r == Some(self.bins()[0].1),
            freq_of(self.bins()[0]) != 0 ==> r is None,
    {
        proof {
            use_type_invariant(self);
        }
        let (fr, val) = self.data[0];
        if fr.0 == 0 {
            Some(val)
        } else {
            None
        }
    }

    /// Finds the pair of adjacent bins that encloses `search_fr`, which lies
    /// above the lowest frequency and at most at the highest.
    fn find_window(&self, search_fr: i64) -> (k: usize)
        requires
            freq_of(self.bins()[0]) < search_fr <= freq_of(self.bins().last()),
        ensures
            encloses(self.bins(), k as int, search_fr as int),
            window(self.bins(), search_fr as int) == k,
    {
        proof {
            use_type_invariant(self);
        }
        let n = self.data.len();
        let mut k: usize = 0;
        while self.data[k + 1].0.0 < search_fr
            invariant
                n == self.data.len(),
                n >= 2,
                0 <= k <= n - 2,
                freq_of(self.data@[k as int]) < search_fr,
                search_fr <= freq_of(self.data@[n - 1]),
            decreases n - k,
        {
            k = k + 1;
        }
        proof {
            lemma_window_unique(self.bins(), search_fr as int, k as int);
        }
        k
    }

    /// The magnitude at `search_fr`: a bin's own value at its frequency, and
    /// the linear interpolation between the two neighbouring bins in between.
    /// Fails with `FrequencyOutOfRange` outside the spectrum's frequencies.
    pub fn freq_val_exact(&self, search_fr: i64) -> (r: Result<FrequencyValue, SpectrumError>)
        ensures
            in_range(self.bins(), search_fr as int) <==> r is Ok,
            r matches Ok(v) ==> v.0 == interpolated(self.bins(), search_fr as int),
            r is Err ==> r == Err::<FrequencyValue, SpectrumError>(
                SpectrumError::FrequencyOutOfRange,
            ),
    {
        proof {
            use_type_invariant(self);
        }
        let n = self.data.len();
        let (min_fr, min_fr_val) = self.data[0];
        let (max_fr, max_fr_val) = self.data[n - 1];
        if search_fr == min_fr.0 {
            return Ok(min_fr_val);
        }
        if search_fr == max_fr.0 {
            proof {
                let s = self.bins();
                assert(encloses(s, n - 2, search_fr as int));
                lemma_window_unique(s, search_fr as int, n - 2);
                lemma_lerp_at_upper(s[n - 2], s[n - 1]);
            }
            return Ok(max_fr_val);
        }
        if search_fr < min_fr.0 || search_fr > max_fr.0 {
            return Err(SpectrumError::FrequencyOutOfRange);
        }
        let k = self.find_window(search_fr);
        let (a_fr, a_val) = self.data[k];
        let (b_fr, b_val) = self.data[k + 1];
        let y = calculate_y_coord_between_points((a_fr.0, a_val.0), (b_fr.0, b_val.0), search_fr);
        Ok(FrequencyValue(y))
    }

    /// The bin nearest to `search_fr`: the lowest or highest bin at its own
    /// frequency; in between, the lower enclosing bin when `search_fr` lies
    /// less than half a resolution step above it, else the upper one. Fails
    /// with `FrequencyOutOfRange` outside the spectrum's frequencies.
    pub fn freq_val_closest(&self, search_fr: i64) -> (r: Result<Bin, SpectrumError>)
        ensures
            in_range(self.bins(), search_fr as int) <==> r is Ok,
            r matches Ok(b) ==> b == closest(
                self.bins(),
                self.resolution().0 as int,
                search_fr as int,
            ),
            r is Err ==> r == Err::<Bin, SpectrumError>(SpectrumError::FrequencyOutOfRange),
    {
        proof {
            use_type_invariant(self);
        }
        let n = self.data.len();
        let min = self.data[0];
        let max = self.data[n - 1];
        if search_fr == min.0.0 {
            return Ok(min);
        }
        if search_fr == max.0.0 {
            return Ok(max);
        }
        if search_fr < min.0.0 || search_fr > max.0.0 {
            return Err(SpectrumError::FrequencyOutOfRange);
        }
        let k = self.find_window(search_fr);
        let a = self.data[k];
        let b = self.data[k + 1];
        let delta_to_a: i128 = search_fr as i128 - a.0.0 as i128;
        if 2 * delta_to_a < self.frequency_resolution.0 as i128 {
            Ok(a)
        } else {
            Ok(b)
        }
    }

    /// Rescales every magnitude. `total_scaling_fn` is called once with the
    /// current smallest magnitude, largest magnitude, mean and median; the
    /// function it returns is then applied to each magnitude in turn.
    /// Frequencies and their order stay as they were; the statistics are
    /// recomputed from the new magnitudes.
    pub fn apply_complex_scaling_fn<F, G>(&mut self, total_scaling_fn: F)
        where
            F: Fn(i64, i64, i64, i64) -> G,
            G: Fn(i64) -> i64,
        requires
            total_scaling_fn.requires(
                (
                    value_of(min_bin(old(self).bins())) as i64,
                    value_of(max_bin(old(self).bins())) as i64,
                    mean(values_of(old(self).bins())) as i64,
                    median(values_of(old(self).bins())) as i64,
                ),
            ),
            forall|g: G, x: i64|
                total_scaling_fn.ensures(
                    (
                        value_of(min_bin(old(self).bins())) as i64,
                        value_of(max_bin(old(self).bins())) as i64,
                        mean(values_of(old(self).bins())) as i64,
                        median(values_of(old(self).bins())) as i64,
                    ),
                    g,
                ) ==> #[trigger] g.requires((x,)),
        ensures
            final(self).bins().len() == old(self).bins().len(),
            final(self).resolution() == old(self).resolution(),
            strictly_ascending(final(self).bins()),
            forall|i: int|
                0 <= i < old(self).bins().len() ==> (#[trigger] final(self).bins()[i]).0 == old(
                    self,
                ).bins()[i].0,
            exists|g: G|
                {
                    &&& #[trigger] total_scaling_fn.ensures(
                        (
                            value_of(min_bin(old(self).bins())) as i64,
                            value_of(max_bin(old(self).bins())) as i64,
                            mean(values_of(old(self).bins())) as i64,
                            median(values_of(old(self).bins())) as i64,
                        ),
                        g,
                    )
                    &&& forall|i: int|
                        0 <= i < old(self).bins().len() ==> g.ensures(
                            (old(self).bins()[i].1.0,),
                            (#[trigger] final(self).bins()[i]).1.0,
                        )
                },
    {
        proof {
            use_type_invariant(&*self);
        }
        let scale_fn = total_scaling_fn(self.min.1.0, self.max.1.0, self.average.0, self.median.0);
        let n = self.data.len();
        let mut data: Vec<Bin> = Vec::new();
        let mut i: usize = 0;
        while i < n
            invariant
                n == self.data.len(),
                0 <= i <= n,
                data.len() == i,
                forall|x: i64| scale_fn.requires((x,)),
                forall|j: int| 0 <= j < i ==> (#[trigger] data@[j]).0 == self.data@[j].0,
                forall|j: int|
                    0 <= j < i ==> scale_fn.ensures(
                        (self.data@[j].1.0,),
                        (#[trigger] data@[j]).1.0,
                    ),
            decreases n - i,
        {
            let (fr, val) = self.data[i];
            let scaled = scale_fn(val.0);
            data.push((fr, FrequencyValue(scaled)));
            i = i + 1;
        }
        proof {
            assert forall|a: int, b: int| 0 <= a < b < data@.len() implies freq_of(data@[a])
                < freq_of(data@[b]) by {
                assert(freq_of(self.data@[a]) < freq_of(self.data@[b]));
            }
        }
        let (min, max, average, median) = calc_statistics(&data);
        *self = FrequencySpectrum {
            data,
            frequency_resolution: self.frequency_resolution,
            average,
            median,
            min,
            max,
        };
    }

    /// The magnitudes keyed by an integer derived from each frequency:
    /// `scale_fn` where it is given, otherwise the frequency's whole hertz.
    /// Where two bins share a key, the higher frequency's magnitude is kept.
    pub fn to_map<F>(&self, scale_fn: Option<F>) -> (r: BTreeMap<u32, FrequencyValue>)
        where
            F: Fn(Frequency) -> u32,
        requires
            scale_fn matches Some(f) ==> forall|fr: Frequency| #[trigger] f.requires((fr,)),
        ensures
            scale_fn is None ==> r@ == build_map(
                self.bins().map_values(|b: Bin| hertz_key(freq_of(b))),
                self.bins(),
            ),
            scale_fn matches Some(f) ==> exists|keys: Seq<u32>|
                {
                    &&& keys.len() == self.bins().len()
                    &&& forall|i: int|
                        0 <= i < keys.len() ==> f.ensures((self.bins()[i].0,), #[trigger] keys[i])
                    &&& r@ == #[trigger] build_map(keys, self.bins())
                },
    {
        let n = self.data.len();
        let mut map: BTreeMap<u32, FrequencyValue> = BTreeMap::new();
        let ghost mut keys: Seq<u32> = Seq::empty();
        let mut i: usize = 0;
        while i < n
            invariant
                n == self.data.len(),
                0 <= i <= n,
                keys.len() == i,
                map@ == build_map(keys, self.bins()),
                scale_fn matches Some(f) ==> forall|fr: Frequency| #[trigger] f.requires((fr,)),
                scale_fn is None ==> forall|j: int|
                    0 <= j < i ==> #[trigger] keys[j] == hertz_key(freq_of(self.bins()[j])),
                scale_fn matches Some(f) ==> forall|j: int|
                    0 <= j < i ==> f.ensures((self.bins()[j].0,), #[trigger] keys[j]),
            decreases n - i,
        {
            let (fr, val) = self.data[i];
            let key: u32 = match &scale_fn {
                Some(f) => f(fr),
                None => {
                    if fr.0 < 0 {
                        0
                    } else {
                        let hz: u64 = fr.0 as u64 / MICROHERTZ_PER_HERTZ;
                        if hz > u32::MAX as u64 {
                            u32::MAX
                        } else {
                            hz as u32
                        }
                    }
                },
            };
            map.insert(key, val);
            proof {
                let old_keys = keys;
                keys = keys.push(key);
                assert(keys.drop_last() =~= old_keys);
            }
            i = i + 1;
        }
        proof {
            if scale_fn is None {
                assert(keys =~= self.bins().map_values(|b: Bin| hertz_key(freq_of(b))));
            }
        }
        map
    }
}

} // verus!
