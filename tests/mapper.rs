use spectrum_analyzer::{
    fft_calc_frequency_resolution, fft_result_to_spectrum, Complex, FftImpl, Frequency,
    FrequencyLimit, FrequencyValue, SpectrumError,
};

fn c(re: i64, im: i64) -> Complex {
    Complex { re, im }
}

/// Eight coefficients, as a full complex FFT of eight samples returns them.
fn eight_coefficients() -> Vec<Complex> {
    vec![c(10, 0), c(3, 4), c(0, 2), c(-6, 8), c(7, 0), c(-6, -8), c(0, -2), c(3, -4)]
}

#[test]
fn eight_samples_give_five_bins_from_dc_to_nyquist() {
    let spectrum = fft_result_to_spectrum(
        8,
        &eight_coefficients(),
        8,
        FrequencyLimit::All,
        None::<fn(i64) -> i64>,
    )
    .unwrap();
    let data = spectrum.data();
    assert_eq!(5, data.len());
    let freqs: Vec<i64> = data.iter().map(|b| b.0 .0).collect();
    assert_eq!(vec![0, 1_000_000, 2_000_000, 3_000_000, 4_000_000], freqs);
    let mags: Vec<i64> = data.iter().map(|b| b.1 .0).collect();
    assert_eq!(vec![10, 5, 2, 10, 7], mags);
    assert_eq!(Frequency(1_000_000), spectrum.frequency_resolution());
    assert_eq!(Some(FrequencyValue(10)), spectrum.dc_component());
}

#[test]
fn limits_are_inclusive_and_drop_bins() {
    let spectrum = fft_result_to_spectrum(
        8,
        &eight_coefficients(),
        8,
        FrequencyLimit::Range(Frequency(1_000_000), Frequency(3_000_000)),
        None::<fn(i64) -> i64>,
    )
    .unwrap();
    let freqs: Vec<i64> = spectrum.data().iter().map(|b| b.0 .0).collect();
    assert_eq!(vec![1_000_000, 2_000_000, 3_000_000], freqs);
    assert_eq!(None, spectrum.dc_component());

    let above = fft_result_to_spectrum(
        8,
        &eight_coefficients(),
        8,
        FrequencyLimit::Min(Frequency(2_500_000)),
        None::<fn(i64) -> i64>,
    )
    .unwrap();
    assert_eq!(2, above.data().len());

    let below = fft_result_to_spectrum(
        8,
        &eight_coefficients(),
        8,
        FrequencyLimit::Max(Frequency(1_000_000)),
        None::<fn(i64) -> i64>,
    )
    .unwrap();
    assert_eq!(2, below.data().len());
}

#[test]
fn too_narrow_limit_gives_empty_spectrum() {
    let r = fft_result_to_spectrum(
        8,
        &eight_coefficients(),
        8,
        FrequencyLimit::Range(Frequency(1_500_000), Frequency(2_500_000)),
        None::<fn(i64) -> i64>,
    );
    assert_eq!(Err(SpectrumError::EmptySpectrum), r.map(|s| s.average()));
}

#[test]
fn per_element_scaling_applies_after_magnitude() {
    let spectrum = fft_result_to_spectrum(
        8,
        &eight_coefficients(),
        8,
        FrequencyLimit::All,
        Some(|x: i64| 2 * x + 1),
    )
    .unwrap();
    let mags: Vec<i64> = spectrum.data().iter().map(|b| b.1 .0).collect();
    assert_eq!(vec![21, 11, 5, 21, 15], mags);
}

#[test]
fn resolution_is_rate_over_length() {
    assert_eq!(Frequency(21_533_203), fft_calc_frequency_resolution(44100, 2048));
    assert_eq!(Frequency(50_000_000), fft_calc_frequency_resolution(400, 8));
}

#[test]
fn magnitude_is_rounded_down_norm() {
    assert_eq!(5, c(3, 4).norm());
    assert_eq!(5, c(-3, -4).norm());
    assert_eq!(1, c(1, 1).norm());
    assert_eq!(0, c(0, 0).norm());
    assert_eq!(i64::MAX, c(i64::MAX, 0).norm());
}

#[test]
fn nyquist_is_unpacked_from_dc() {
    let packed = vec![c(10, 7), c(3, 4), c(0, 2), c(-6, 8)];
    let unpacked = FftImpl::unpack_nyquist(packed);
    assert_eq!(vec![c(10, 0), c(3, 4), c(0, 2), c(-6, 8), c(7, 0)], unpacked);
}

#[test]
fn supported_lengths_are_powers_of_two_up_to_16384() {
    assert!(FftImpl::supports_len(2));
    assert!(FftImpl::supports_len(8));
    assert!(FftImpl::supports_len(16384));
    assert!(!FftImpl::supports_len(0));
    assert!(!FftImpl::supports_len(1));
    assert!(!FftImpl::supports_len(12));
    assert!(!FftImpl::supports_len(32768));
    assert_eq!(Err(SpectrumError::UnsupportedLength), FftImpl::check_len(6));
    assert_eq!(Ok(()), FftImpl::check_len(1024));
    assert_eq!(5, FftImpl::fft_relevant_res_samples_count(8));
}

#[test]
fn limit_bounds_are_reported() {
    let r = FrequencyLimit::Range(Frequency(1), Frequency(2));
    assert_eq!(Some(Frequency(1)), r.maybe_min());
    assert_eq!(Some(Frequency(2)), r.maybe_max());
    assert_eq!(None, FrequencyLimit::All.maybe_min());
    assert!(r.contains(Frequency(2)));
    assert!(!r.contains(Frequency(3)));
}
