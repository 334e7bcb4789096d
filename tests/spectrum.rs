use spectrum_analyzer::{
    calculate_y_coord_between_points, Bin, Frequency, FrequencySpectrum, FrequencyValue,
    SpectrumError,
};

/// Hertz to the library's frequency unit (microhertz).
fn hz(h: i64) -> Frequency {
    Frequency(h * 1_000_000)
}

/// A magnitude with three fraction digits: `val(5)` stands for 5.0.
fn val(v: i64) -> FrequencyValue {
    FrequencyValue(v * 1000)
}

fn bin(h: i64, v: i64) -> Bin {
    (hz(h), val(v))
}

fn basic_spectrum() -> FrequencySpectrum {
    let data = vec![
        bin(0, 5),
        bin(50, 50),
        bin(100, 100),
        bin(150, 150),
        bin(200, 100),
        bin(250, 20),
        bin(300, 0),
        bin(450, 200),
    ];
    FrequencySpectrum::new(data, hz(50)).unwrap()
}

fn two_bin_spectrum() -> FrequencySpectrum {
    FrequencySpectrum::new(vec![bin(0, 5), bin(450, 200)], hz(50)).unwrap()
}

#[test]
fn test_calculate_point_between_points() {
    assert_eq!(
        500,
        calculate_y_coord_between_points((100_000, 1000), (200_000, 0), 150_000),
        "Must calculate middle point between points by laying a linear function through the two points"
    );
    assert_eq!(
        200,
        calculate_y_coord_between_points((100_000, 1000), (200_000, 0), 180_000),
        "Must calculate arbitrary point between points by laying a linear function through the two points"
    );
}

#[test]
fn test_spectrum_basic() {
    let spectrum = basic_spectrum();

    // test inner vector is ordered
    {
        assert_eq!(bin(0, 5), spectrum.data()[0], "Vector must be ordered");
        assert_eq!(bin(50, 50), spectrum.data()[1], "Vector must be ordered");
        assert_eq!(bin(100, 100), spectrum.data()[2], "Vector must be ordered");
        assert_eq!(bin(150, 150), spectrum.data()[3], "Vector must be ordered");
        assert_eq!(bin(200, 100), spectrum.data()[4], "Vector must be ordered");
        assert_eq!(bin(250, 20), spectrum.data()[5], "Vector must be ordered");
        assert_eq!(bin(300, 0), spectrum.data()[6], "Vector must be ordered");
        assert_eq!(bin(450, 200), spectrum.data()[7], "Vector must be ordered");
    }

    // test DC component getter
    assert!(spectrum.dc_component().is_some(), "Spectrum must contain DC component");
    assert_eq!(5000, spectrum.dc_component().unwrap().val(), "Spectrum must contain DC component");

    // test getters
    {
        assert_eq!(0, spectrum.min_fr().val(), "min_fr() must work");
        assert_eq!(450_000_000, spectrum.max_fr().val(), "max_fr() must work");
        assert_eq!(bin(300, 0), spectrum.min(), "min() must work");
        assert_eq!(bin(450, 200), spectrum.max(), "max() must work");
        assert_eq!(200_000 - 0, spectrum.range(), "range() must work");
        assert_eq!(78_125, spectrum.average().val(), "average() must work");
        assert_eq!((50 + 100) * 1000 / 2, spectrum.median().val(), "median() must work");
        assert_eq!(hz(50), spectrum.frequency_resolution(), "frequency resolution must be returned");
    }

    // test get frequency exact
    {
        assert_eq!(5_000, spectrum.freq_val_exact(0).unwrap().val());
        assert_eq!(50_000, spectrum.freq_val_exact(hz(50).0).unwrap().val());
        assert_eq!(150_000, spectrum.freq_val_exact(hz(150).0).unwrap().val());
        assert_eq!(100_000, spectrum.freq_val_exact(hz(200).0).unwrap().val());
        assert_eq!(20_000, spectrum.freq_val_exact(hz(250).0).unwrap().val());
        assert_eq!(0, spectrum.freq_val_exact(hz(300).0).unwrap().val());
        assert_eq!(100_000, spectrum.freq_val_exact(hz(375).0).unwrap().val());
        assert_eq!(200_000, spectrum.freq_val_exact(hz(450).0).unwrap().val());
    }

    // test get frequency closest
    {
        assert_eq!(bin(0, 5), spectrum.freq_val_closest(0).unwrap());
        assert_eq!(bin(50, 50), spectrum.freq_val_closest(hz(50).0).unwrap());
        assert_eq!(bin(450, 200), spectrum.freq_val_closest(hz(450).0).unwrap());
        assert_eq!(bin(450, 200), spectrum.freq_val_closest(hz(448).0).unwrap());
        assert_eq!(bin(450, 200), spectrum.freq_val_closest(hz(400).0).unwrap());
        assert_eq!(bin(50, 50), spectrum.freq_val_closest(47_300_000).unwrap());
        assert_eq!(bin(50, 50), spectrum.freq_val_closest(51_300_000).unwrap());
    }
}

#[test]
fn test_spectrum_get_frequency_value_exact_panic_below_min() {
    let spectrum = two_bin_spectrum();
    // -1 Hz is not included
    assert_eq!(Err(SpectrumError::FrequencyOutOfRange), spectrum.freq_val_exact(hz(-1).0));
}

#[test]
fn test_spectrum_get_frequency_value_exact_panic_below_max() {
    let spectrum = two_bin_spectrum();
    // 451 Hz is not included
    assert_eq!(Err(SpectrumError::FrequencyOutOfRange), spectrum.freq_val_exact(hz(451).0));
}

#[test]
fn test_spectrum_get_frequency_value_closest_panic_below_min() {
    let spectrum = two_bin_spectrum();
    assert_eq!(Err(SpectrumError::FrequencyOutOfRange), spectrum.freq_val_closest(hz(-1).0));
}

#[test]
fn test_spectrum_get_frequency_value_closest_panic_below_max() {
    let spectrum = two_bin_spectrum();
    assert_eq!(Err(SpectrumError::FrequencyOutOfRange), spectrum.freq_val_closest(hz(451).0));
}

#[test]
fn test_nan_safety() {
    let data: Vec<Bin> = (0..8).map(|i| (hz(50 * i), val(0))).collect();
    let spectrum = FrequencySpectrum::new(data, hz(50)).unwrap();

    assert_eq!(0, spectrum.min().1.val(), "must be 0");
    assert_eq!(0, spectrum.max().1.val(), "must be 0");
    assert_eq!(0, spectrum.average().val(), "must be 0");
    assert_eq!(0, spectrum.median().val(), "must be 0");
}

#[test]
fn test_no_dc_component() {
    let spectrum = FrequencySpectrum::new(vec![bin(150, 150), bin(200, 100)], hz(50)).unwrap();
    assert!(spectrum.dc_component().is_none(), "This spectrum should not contain a DC component!")
}

#[test]
fn new_refuses_fewer_than_two_bins() {
    assert_eq!(
        Err(SpectrumError::EmptySpectrum),
        FrequencySpectrum::new(vec![bin(0, 1)], hz(50)).map(|s| s.average())
    );
    assert_eq!(
        Err(SpectrumError::EmptySpectrum),
        FrequencySpectrum::new(Vec::new(), hz(50)).map(|s| s.average())
    );
}

#[test]
fn min_le_max_after_construction_and_rescale() {
    let mut spectrum = basic_spectrum();
    assert!(spectrum.min().1 .0 <= spectrum.max().1 .0);
    // negate every magnitude: the extremes swap
    spectrum.apply_complex_scaling_fn(|_min, _max, _avg, _median| |x: i64| -x);
    assert!(spectrum.min().1 .0 <= spectrum.max().1 .0);
    assert_eq!(bin(450, -200), spectrum.min());
    assert_eq!(bin(300, 0), spectrum.max());
}

#[test]
fn rescale_subtracting_min_recomputes_statistics() {
    let mut spectrum = FrequencySpectrum::new(
        vec![bin(0, 10), bin(50, 30), bin(100, 20), bin(150, 40)],
        hz(50),
    )
    .unwrap();
    assert_eq!(25_000, spectrum.average().val());
    assert_eq!(25_000, spectrum.median().val());
    spectrum.apply_complex_scaling_fn(|min, _max, _avg, _median| move |x: i64| x - min);
    assert_eq!(
        vec![bin(0, 0), bin(50, 20), bin(100, 10), bin(150, 30)],
        *spectrum.data()
    );
    assert_eq!(15_000, spectrum.average().val());
    assert_eq!(15_000, spectrum.median().val());
    assert_eq!(bin(0, 0), spectrum.min());
    assert_eq!(bin(150, 30), spectrum.max());
    assert_eq!(hz(50), spectrum.frequency_resolution());
}

#[test]
fn average_is_mean_rounded_down() {
    let spectrum = FrequencySpectrum::new(
        vec![(hz(0), FrequencyValue(1)), (hz(1), FrequencyValue(2)), (hz(2), FrequencyValue(2))],
        hz(1),
    )
    .unwrap();
    assert_eq!(1, spectrum.average().val());
    let negative = FrequencySpectrum::new(
        vec![(hz(0), FrequencyValue(-1)), (hz(1), FrequencyValue(-2))],
        hz(1),
    )
    .unwrap();
    assert_eq!(-2, negative.average().val());
    assert_eq!(-2, negative.median().val());
}

#[test]
fn median_of_odd_length_is_middle_value() {
    let spectrum = FrequencySpectrum::new(
        vec![bin(0, 9), bin(1, 1), bin(2, 5), bin(3, 7), bin(4, 3)],
        hz(1),
    )
    .unwrap();
    assert_eq!(5_000, spectrum.median().val());
}

#[test]
fn ties_pick_first_minimum_and_last_maximum() {
    let spectrum = FrequencySpectrum::new(
        vec![bin(0, 1), bin(1, 9), bin(2, 1), bin(3, 9)],
        hz(1),
    )
    .unwrap();
    assert_eq!(bin(0, 1), spectrum.min());
    assert_eq!(bin(3, 9), spectrum.max());
}

#[test]
fn exact_query_at_every_bin_returns_its_value() {
    let spectrum = basic_spectrum();
    for b in spectrum.data().clone() {
        assert_eq!(b.1, spectrum.freq_val_exact(b.0 .0).unwrap());
    }
}

#[test]
fn interpolation_rounds_down_on_falling_lines() {
    // from (0, 0) to (3 Hz, -1): at 1 Hz the line is at -1/3
    let spectrum = FrequencySpectrum::new(
        vec![(hz(0), FrequencyValue(0)), (hz(3), FrequencyValue(-1))],
        hz(3),
    )
    .unwrap();
    assert_eq!(FrequencyValue(-1), spectrum.freq_val_exact(hz(1).0).unwrap());
    assert_eq!(-1, calculate_y_coord_between_points((0, 0), (3, -1), 1));
    assert_eq!(0, calculate_y_coord_between_points((0, 0), (3, 1), 1));
}

#[test]
fn closest_prefers_upper_bin_at_midpoint() {
    let spectrum = basic_spectrum();
    assert_eq!(bin(300, 0), spectrum.freq_val_closest(hz(320).0).unwrap());
    assert_eq!(bin(50, 50), spectrum.freq_val_closest(hz(25).0).unwrap());
    assert_eq!(bin(0, 5), spectrum.freq_val_closest(24_999_999).unwrap());
}

#[test]
fn to_map_keys_by_whole_hertz_by_default() {
    let spectrum = FrequencySpectrum::new(
        vec![(Frequency(0), val(1)), (Frequency(1_500_000), val(2)), (Frequency(1_900_000), val(3)), (hz(7), val(4))],
        hz(1),
    )
    .unwrap();
    let map = spectrum.to_map(None::<fn(Frequency) -> u32>);
    assert_eq!(3, map.len());
    assert_eq!(Some(&val(1)), map.get(&0));
    assert_eq!(Some(&val(3)), map.get(&1));
    assert_eq!(Some(&val(4)), map.get(&7));
}

#[test]
fn to_map_uses_given_key_function() {
    let spectrum = basic_spectrum();
    let map = spectrum.to_map(Some(|f: Frequency| (f.0 / 1000) as u32));
    assert_eq!(8, map.len());
    assert_eq!(Some(&val(200)), map.get(&450_000));
    assert_eq!(Some(&val(5)), map.get(&0));
}
