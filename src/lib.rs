//! Frequency spectrum of a sampled signal: maps the complex output of a
//! real-input FFT onto (frequency, magnitude) bins and answers statistical and
//! point queries on them.
//!
//! All quantities are fixed-point integers. Frequencies are counted in
//! microhertz; magnitudes keep whatever fixed-point unit the caller chose for
//! the complex FFT output they were computed from.

pub mod error;
pub mod fft;
pub mod frequency;
pub mod limit;
pub mod mapper;
pub mod spectrum;
pub mod stats;

pub use crate::error::SpectrumError;
pub use crate::fft::{Complex, FftImpl, MAX_REAL_FFT_LEN};
pub use crate::frequency::{Bin, Frequency, FrequencyValue, MICROHERTZ_PER_HERTZ};
pub use crate::limit::FrequencyLimit;
pub use crate::mapper::{fft_calc_frequency_resolution, fft_result_to_spectrum};
pub use crate::spectrum::{FrequencySpectrum, calculate_y_coord_between_points};
