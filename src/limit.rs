use vstd::prelude::*;

use crate::frequency::Frequency;

verus! {

/// Which frequencies the bin mapper keeps. Both bounds are inclusive.
#[derive(Clone, Copy, Debug, PartialEq, Eq, Structural)]
pub enum FrequencyLimit {
    /// Every frequency from 0 Hz up to the Nyquist frequency.
    All,
    /// Frequencies at or above the bound.
    Min(Frequency),
    /// Frequencies at or below the bound.
    Max(Frequency),
    /// Frequencies between the two bounds, both included.
    Range(Frequency, Frequency),
}

/// `f` passes `limit`.
pub open spec fn within(limit: FrequencyLimit, f: int) -> bool {
    match limit {
        FrequencyLimit::All => true,
        FrequencyLimit::Min(lo) => lo.0 <= f,
        FrequencyLimit::Max(hi) => f <= hi.0,
        FrequencyLimit::Range(lo, hi) => lo.0 <= f <= hi.0,
    }
}

impl FrequencyLimit {
    /// The lower bound, if there is one.
    pub fn maybe_min(&self) -> (r: Option<Frequency>)
        ensures
            r == (match *self {
                FrequencyLimit::Min(lo) => Some(lo),
                FrequencyLimit::Range(lo, _) => Some(lo),
                _ => None::<Frequency>,
            }),
    {
        match *self {
            FrequencyLimit::Min(lo) => Some(lo),
            FrequencyLimit::Range(lo, _) => Some(lo),
            _ => None,
        }
    }

    /// The upper bound, if there is one.
    pub fn maybe_max(&self) -> (r: Option<Frequency>)
        ensures
            r == (match *self {
                FrequencyLimit::Max(hi) => Some(hi),
                FrequencyLimit::Range(_, hi) => Some(hi),
                _ => None::<Frequency>,
            }),
    {
        match *self {
            FrequencyLimit::Max(hi) => Some(hi),
            FrequencyLimit::Range(_, hi) => Some(hi),
            _ => None,
        }
    }

    /// Whether `f` passes the limit.
    pub fn contains(&self, f: Frequency) -> (r: bool)
        ensures
            r == within(*self, f.0 as int),
    {
        let above = match self.maybe_min() {
            Some(lo) => f.0 >= lo.0,
            None => true,
        };
        let below = match self.maybe_max() {
            Some(hi) => f.0 <= hi.0,
            None => true,
        };
        above && below
    }
}

} // verus!
