use vstd::prelude::*;
use vstd::arithmetic::div_mod::{lemma_div_is_ordered, lemma_div_plus_one};

use crate::error::SpectrumError;
use crate::fft::{Complex, fits_magnitude, magnitude};
use crate::frequency::{
    Bin, Frequency, FrequencyValue, MICROHERTZ_PER_HERTZ, freq_of, strictly_ascending, value_of,
};
use crate::limit::{FrequencyLimit, within};
use crate::spectrum::FrequencySpectrum;

verus! {

/// Frequency step between adjacent FFT coefficients, in microhertz, rounded down.
pub open spec fn resolution_of(sampling_rate: int, samples_len: int) -> int {
    sampling_rate * (MICROHERTZ_PER_HERTZ as int) / samples_len
}

/// Frequency of FFT coefficient `i`, in microhertz, rounded down.
pub open spec fn frequency_at(i: int, sampling_rate: int, samples_len: int) -> int {
    i * sampling_rate * (MICROHERTZ_PER_HERTZ as int) / samples_len
}

/// The (frequency, magnitude) pairs that coefficients `0..upto` of `fft`
/// contribute, in index order: those whose frequency passes `limit`.
pub open spec fn kept_bins(
    fft: Seq<Complex>,
    sampling_rate: int,
    samples_len: int,
    limit: FrequencyLimit,
    upto: int,
) -> Seq<(int, int)>
    decreases upto,
{
    if upto <= 0 {
        Seq::empty()
    } else {
        let prev = kept_bins(fft, sampling_rate, samples_len, limit, upto - 1);
        let f = frequency_at(upto - 1, sampling_rate, samples_len);
        if within(limit, f) {
            prev.push((f, magnitude(fft[upto - 1])))
        } else {
            prev
        }
    }
}

/// The (frequency, magnitude) pairs of the relevant coefficients, from 0 Hz
/// up to the Nyquist frequency, that pass `limit`.
pub open spec fn relevant_bins(
    fft: Seq<Complex>,
    sampling_rate: int,
    samples_len: int,
    limit: FrequencyLimit,
) -> Seq<(int, int)> {
    kept_bins(fft, sampling_rate, samples_len, limit, samples_len / 2 + 1)
}

/// Consecutive coefficients lie at strictly rising frequencies once the
/// resolution is at least one microhertz.
pub proof fn lemma_frequency_rises(i: int, sampling_rate: int, samples_len: int)
    requires
        0 <= i,
        1 <= samples_len <= sampling_rate * (MICROHERTZ_PER_HERTZ as int),
    ensures
        frequency_at(i, sampling_rate, samples_len) < frequency_at(i + 1, sampling_rate, samples_len),
        0 <= frequency_at(i, sampling_rate, samples_len),
{
    let r = sampling_rate * (MICROHERTZ_PER_HERTZ as int);
    assert((i + 1) * sampling_rate * (MICROHERTZ_PER_HERTZ as int) == i * r + r) by (nonlinear_arith)
        requires
            r == sampling_rate * (MICROHERTZ_PER_HERTZ as int),
    ;
    assert(i * sampling_rate * (MICROHERTZ_PER_HERTZ as int) == i * r) by (nonlinear_arith)
        requires
            r == sampling_rate * (MICROHERTZ_PER_HERTZ as int),
    ;
    assert(i * r >= 0) by (nonlinear_arith)
        requires
            i >= 0,
            r >= 1,
    ;
    lemma_div_plus_one(i * r, samples_len);
    lemma_div_is_ordered(i * r + samples_len, i * r + r, samples_len);
    lemma_div_is_ordered(0, i * r, samples_len);
}

/// Without a frequency limit every relevant coefficient is kept: 0 Hz up to
/// the Nyquist frequency, `samples_len / 2 + 1` bins in all, the first at 0 Hz
/// and the last at the Nyquist frequency.
pub proof fn lemma_no_limit_keeps_all(fft: Seq<Complex>, sampling_rate: int, samples_len: int)
    requires
        2 <= samples_len,
        1 <= sampling_rate,
    ensures
        relevant_bins(fft, sampling_rate, samples_len, FrequencyLimit::All).len() == samples_len
            / 2 + 1,
        relevant_bins(fft, sampling_rate, samples_len, FrequencyLimit::All)[0].0 == 0,
        relevant_bins(fft, sampling_rate, samples_len, FrequencyLimit::All).last().0
            == frequency_at(samples_len / 2, sampling_rate, samples_len),
{
    lemma_kept_all(fft, sampling_rate, samples_len, samples_len / 2 + 1);
}

proof fn lemma_kept_all(fft: Seq<Complex>, sampling_rate: int, samples_len: int, upto: int)
    requires
        1 <= upto,
        1 <= samples_len,
    ensures
        kept_bins(fft, sampling_rate, samples_len, FrequencyLimit::All, upto).len() == upto,
        kept_bins(fft, sampling_rate, samples_len, FrequencyLimit::All, upto)[0].0 == 0,
        kept_bins(fft, sampling_rate, samples_len, FrequencyLimit::All, upto).last().0
            == frequency_at(upto - 1, sampling_rate, samples_len),
    decreases upto,
{
    if upto > 1 {
        lemma_kept_all(fft, sampling_rate, samples_len, upto - 1);
    } else {
        assert(kept_bins(fft, sampling_rate, samples_len, FrequencyLimit::All, 0).len() == 0);
        assert(0 * sampling_rate * (MICROHERTZ_PER_HERTZ as int) == 0);
    }
}

/// Frequency step between adjacent FFT coefficients for `samples_len`
/// samples taken at `sampling_rate` Hz, in microhertz, rounded down.
pub fn fft_calc_frequency_resolution(sampling_rate: u32, samples_len: u32) -> (r: Frequency)
    requires
        samples_len > 0,
    ensures
        r.0 == resolution_of(sampling_rate as int, samples_len as int),
{
    let total: u64 = sampling_rate as u64 * MICROHERTZ_PER_HERTZ;
    Frequency((total / samples_len as u64) as i64)
}

/// Frequency of FFT coefficient `i`, in microhertz, rounded down.
fn calc_frequency_at(i: usize, sampling_rate: u32, samples_len: usize) -> (r: i64)
    requires
        samples_len > 0,
        i <= samples_len / 2,
    ensures
        r == frequency_at(i as int, sampling_rate as int, samples_len as int),
{
    let rate: u128 = sampling_rate as u128 * MICROHERTZ_PER_HERTZ as u128;
    assert(MICROHERTZ_PER_HERTZ == 1_000_000);
    assert(rate <= 0xffff_ffff * 1_000_000) by (nonlinear_arith)
        requires
            rate == sampling_rate * 1_000_000,
            sampling_rate <= 0xffff_ffff,
    ;
    assert(i as int * rate <= 0x8000_0000_0000_0000 * 0x10_0000_0000_0000) by (nonlinear_arith)
        requires
            i < 0x8000_0000_0000_0000,
            rate < 0x10_0000_0000_0000,
    ;
    let num: u128 = i as u128 * rate;
    let r = num / samples_len as u128;
    proof {
        assert(i as int * sampling_rate * (MICROHERTZ_PER_HERTZ as int) == num) by (nonlinear_arith)
            requires
                num == i * rate,
                rate == sampling_rate * (MICROHERTZ_PER_HERTZ as int),
        ;
        let ni = num as int;
        let d = samples_len as int;
        assert(ni <= d * rate) by (nonlinear_arith)
            requires
                ni == i * rate,
                i <= d,
                rate >= 0,
        ;
        lemma_div_is_ordered(ni, d * rate, d);
        vstd::arithmetic::div_mod::lemma_div_multiples_vanish(rate as int, d);
        assert(r == ni / d);
    }
    r as i64
}

/// Turns the output of an FFT over `samples_len` samples, taken at
/// `sampling_rate` Hz, into a spectrum.
///
/// Only coefficients `0..=samples_len / 2` are read: 0 Hz up to the Nyquist
/// frequency; the mirrored rest is ignored. Coefficient `i` lies at
/// `i * sampling_rate / samples_len` Hz. Coefficients whose frequency fails
/// `frequency_limit` are dropped; each one kept contributes its magnitude,
/// passed through `per_element_scaling_fn` when one is given. Fails with
/// `EmptySpectrum` when fewer than two coefficients are kept.
pub fn fft_result_to_spectrum<F>(
    samples_len: usize,
    fft_result: &Vec<Complex>,
    sampling_rate: u32,
    frequency_limit: FrequencyLimit,
    per_element_scaling_fn: Option<F>,
) -> (r: Result<FrequencySpectrum, SpectrumError>)
    where
        F: Fn(i64) -> i64,
    requires
        2 <= samples_len <= u32::MAX,
        samples_len <= sampling_rate * (MICROHERTZ_PER_HERTZ as int),
        samples_len / 2 + 1 <= fft_result.len(),
        forall|i: int| 0 <= i <= samples_len / 2 ==> fits_magnitude(#[trigger] fft_result[i]),
        per_element_scaling_fn matches Some(f) ==> forall|x: i64| #[trigger] f.requires((x,)),
    ensures
        ({
            let kept = relevant_bins(
                fft_result@,
                sampling_rate as int,
                samples_len as int,
                frequency_limit,
            );
            &&& (r is Ok <==> kept.len() >= 2)
            &&& (r is Err ==> r == Err::<FrequencySpectrum, SpectrumError>(
                SpectrumError::EmptySpectrum,
            ))
            &&& (r matches Ok(s) ==> {
                &&& s.bins().len() == kept.len()
                &&& s.resolution().0 == resolution_of(sampling_rate as int, samples_len as int)
                &&& forall|j: int|
                    0 <= j < kept.len() ==> freq_of(#[trigger] s.bins()[j]) == kept[j].0
                &&& per_element_scaling_fn is None ==> forall|j: int|
                    0 <= j < kept.len() ==> value_of(#[trigger] s.bins()[j]) == kept[j].1
                &&& per_element_scaling_fn matches Some(f) ==> forall|j: int|
                    0 <= j < kept.len() ==> f.ensures(
                        (kept[j].1 as i64,),
                        (#[trigger] s.bins()[j]).1.0,
                    )
            })
        }),
{
    let ghost fft = fft_result@;
    let ghost rate = sampling_rate as int;
    let ghost n = samples_len as int;
    let frequency_resolution = fft_calc_frequency_resolution(sampling_rate, samples_len as u32);
    let count = samples_len / 2 + 1;
    let mut data: Vec<Bin> = Vec::new();
    let mut i: usize = 0;
    while i < count
        invariant
            count == samples_len / 2 + 1,
            count <= fft_result.len(),
            fft == fft_result@,
            rate == sampling_rate,
            n == samples_len,
            2 <= samples_len <= u32::MAX,
            samples_len <= sampling_rate * (MICROHERTZ_PER_HERTZ as int),
            forall|k: int| 0 <= k <= samples_len / 2 ==> fits_magnitude(#[trigger] fft_result[k]),
            per_element_scaling_fn matches Some(f) ==> forall|x: i64| #[trigger] f.requires((x,)),
            0 <= i <= count,
            data.len() == kept_bins(fft, rate, n, frequency_limit, i as int).len(),
            strictly_ascending(data@),
            forall|j: int| 0 <= j < data.len() ==> freq_of(#[trigger] data@[j]) < frequency_at(i as int, rate, n),
            forall|j: int|
                0 <= j < data.len() ==> freq_of(#[trigger] data@[j]) == kept_bins(
                    fft,
                    rate,
                    n,
                    frequency_limit,
                    i as int,
                )[j].0,
            per_element_scaling_fn is None ==> forall|j: int|
                0 <= j < data.len() ==> value_of(#[trigger] data@[j]) == kept_bins(
                    fft,
                    rate,
                    n,
                    frequency_limit,
                    i as int,
                )[j].1,
            per_element_scaling_fn matches Some(f) ==> forall|j: int|
                0 <= j < data.len() ==> f.ensures(
                    (kept_bins(fft, rate, n, frequency_limit, i as int)[j].1 as i64,),
                    (#[trigger] data@[j]).1.0,
                ),
        decreases count - i,
    {
        proof {
            lemma_frequency_rises(i as int, rate, n);
        }
        let fr = calc_frequency_at(i, sampling_rate, samples_len);
        if frequency_limit.contains(Frequency(fr)) {
            let mag = fft_result[i].norm();
            let val = match &per_element_scaling_fn {
                Some(f) => f(mag),
                None => mag,
            };
            data.push((Frequency(fr), FrequencyValue(val)));
        }
        i = i + 1;
    }
    FrequencySpectrum::new(data, frequency_resolution)
}

} // verus!
