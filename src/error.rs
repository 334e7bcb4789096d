use vstd::prelude::*;

verus! {

/// Why an operation of this library refused its input.
#[derive(Clone, Copy, Debug, PartialEq, Eq, Structural)]
pub enum SpectrumError {
    /// An input sample was NaN or infinite.
    InvalidSample,
    /// A spectrum needs at least two bins.
    EmptySpectrum,
    /// A queried frequency lies outside the spectrum's frequency range.
    FrequencyOutOfRange,
    /// The FFT backend does not support this number of samples.
    UnsupportedLength,
}

} // verus!
