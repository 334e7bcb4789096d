use vstd::prelude::*;

verus! {

/// Number of microhertz in one hertz: the unit of [`Frequency`].
pub const MICROHERTZ_PER_HERTZ: u64 = 1_000_000;

/// A frequency, in microhertz.
#[derive(Clone, Copy, Debug, PartialEq, Eq, Structural)]
pub struct Frequency(pub i64);

/// The magnitude found at some frequency, in the caller's fixed-point unit.
/// It may be negative once a scaling function has been applied.
#[derive(Clone, Copy, Debug, PartialEq, Eq, Structural)]
pub struct FrequencyValue(pub i64);

/// One point of a spectrum: a frequency and its magnitude.
pub type Bin = (Frequency, FrequencyValue);

impl Frequency {
    /// The frequency in microhertz.
    pub fn val(&self) -> (r: i64)
        ensures
            r == self.0,
    {
        self.0
    }
}

impl FrequencyValue {
    /// The magnitude as a plain integer.
    pub fn val(&self) -> (r: i64)
        ensures
            r == self.0,
    {
        self.0
    }
}

/// Frequency of a bin, as a mathematical integer.
pub open spec fn freq_of(b: Bin) -> int {
    b.0.0 as int
}

/// Magnitude of a bin, as a mathematical integer.
pub open spec fn value_of(b: Bin) -> int {
    b.1.0 as int
}

/// The magnitudes of a bin sequence, in the same order.
pub open spec fn values_of(s: Seq<Bin>) -> Seq<int> {
    s.map_values(|b: Bin| value_of(b))
}

/// Frequencies rise strictly from each bin to the next.
pub open spec fn strictly_ascending(s: Seq<Bin>) -> bool {
    forall|i: int, j: int| 0 <= i < j < s.len() ==> freq_of(s[i]) < freq_of(s[j])
}

} // verus!
