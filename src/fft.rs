use vstd::prelude::*;

use crate::error::SpectrumError;

verus! {

/// One complex FFT coefficient, in the caller's fixed-point unit.
#[derive(Clone, Copy, Debug, PartialEq, Eq, Structural)]
pub struct Complex {
    pub re: i64,
    pub im: i64,
}

/// Largest number of samples the real-input FFT backend accepts.
pub const MAX_REAL_FFT_LEN: usize = 16384;

/// Square of the Euclidean norm of `c`.
pub open spec fn norm_sq(c: Complex) -> int {
    c.re * c.re + c.im * c.im
}

/// `r` is the square root of `x`, rounded down.
pub open spec fn is_floor_sqrt(x: int, r: int) -> bool {
    0 <= r && r * r <= x < (r + 1) * (r + 1)
}

/// The square root of `x`, rounded down.
pub open spec fn floor_sqrt(x: int) -> int {
    choose|r: int| is_floor_sqrt(x, r)
}

/// The magnitude of `c`: its Euclidean norm, rounded down.
pub open spec fn magnitude(c: Complex) -> int {
    floor_sqrt(norm_sq(c))
}

/// The magnitude of `c` fits in an `i64`.
pub open spec fn fits_magnitude(c: Complex) -> bool {
    norm_sq(c) <= (i64::MAX as int) * (i64::MAX as int)
}

/// `n` is a power of two.
pub open spec fn is_power_of_two(n: int) -> bool
    decreases n,
{
    if n <= 1 {
        n == 1
    } else {
        n % 2 == 0 && is_power_of_two(n / 2)
    }
}

/// A number of samples that the real-input FFT backend accepts.
pub open spec fn supported_len(n: int) -> bool {
    2 <= n <= MAX_REAL_FFT_LEN && is_power_of_two(n)
}

/// A floor square root is unique.
pub proof fn lemma_floor_sqrt_unique(x: int, r: int)
    requires
        is_floor_sqrt(x, r),
    ensures
        floor_sqrt(x) == r,
{
    let c = floor_sqrt(x);
    assert(is_floor_sqrt(x, c));
    if c < r {
        assert((c + 1) * (c + 1) <= r * r) by (nonlinear_arith)
            requires
                0 <= c < r,
        ;
    } else if c > r {
        assert((r + 1) * (r + 1) <= c * c) by (nonlinear_arith)
            requires
                0 <= r < c,
        ;
    }
}

impl Complex {
    /// The Euclidean norm, rounded down.
    pub fn norm(&self) -> (r: i64)
        requires
            fits_magnitude(*self),
        ensures
            r == magnitude(*self),
    {
        let re = self.re as i128;
        let im = self.im as i128;
        assert(re * re <= 0x4000_0000_0000_0000_0000_0000_0000_0000) by (nonlinear_arith)
            requires
                -0x8000_0000_0000_0000 <= re <= 0x7fff_ffff_ffff_ffff,
        ;
        assert(im * im <= 0x4000_0000_0000_0000_0000_0000_0000_0000) by (nonlinear_arith)
            requires
                -0x8000_0000_0000_0000 <= im <= 0x7fff_ffff_ffff_ffff,
        ;
        assert(re * re >= 0 && im * im >= 0) by (nonlinear_arith);
        let x: u128 = (re * re + im * im) as u128;
        let mut lo: u128 = 0;
        let mut hi: u128 = 0x8000_0000_0000_0000;
        assert(x < hi * hi) by (nonlinear_arith)
            requires
                x <= (i64::MAX as int) * (i64::MAX as int),
                hi == 0x8000_0000_0000_0000,
        ;
        while hi - lo > 1
            invariant
                lo < hi <= 0x8000_0000_0000_0000,
                lo * lo <= x,
                x < hi * hi,
            decreases hi - lo,
        {
            let mid: u128 = lo + (hi - lo) / 2;
            assert(mid * mid < 0x4000_0000_0000_0000_0000_0000_0000_0000) by (nonlinear_arith)
                requires
                    mid < 0x8000_0000_0000_0000,
            ;
            if mid * mid <= x {
                lo = mid;
            } else {
                hi = mid;
            }
        }
        proof {
            assert(hi == lo + 1);
            assert(is_floor_sqrt(x as int, lo as int));
            lemma_floor_sqrt_unique(x as int, lo as int);
            assert(lo <= i64::MAX) by (nonlinear_arith)
                requires
                    lo * lo <= x,
                    x <= (i64::MAX as int) * (i64::MAX as int),
            ;
        }
        lo as i64
    }
}

/// The real-input FFT backend: which lengths it takes, and how its packed
/// output becomes one coefficient per frequency from 0 Hz to Nyquist.
pub struct FftImpl;

impl FftImpl {
    /// Whether `samples_len` samples can be transformed: a power of two from
    /// 2 up to [`MAX_REAL_FFT_LEN`].
    pub fn supports_len(samples_len: usize) -> (r: bool)
        ensures
            r == supported_len(samples_len as int),
    {
        if samples_len < 2 || samples_len > MAX_REAL_FFT_LEN {
            return false;
        }
        let mut m: usize = samples_len;
        while m > 1 && m % 2 == 0
            invariant
                1 <= m,
                is_power_of_two(m as int) == is_power_of_two(samples_len as int),
            decreases m,
        {
            m = m / 2;
        }
        m == 1
    }

    /// Fails with `UnsupportedLength` unless `samples_len` samples can be
    /// transformed.
    pub fn check_len(samples_len: usize) -> (r: Result<(), SpectrumError>)
        ensures
            r is Ok <==> supported_len(samples_len as int),
            r is Err ==> r == Err::<(), SpectrumError>(SpectrumError::UnsupportedLength),
    {
        if Self::supports_len(samples_len) {
            Ok(())
        } else {
            Err(SpectrumError::UnsupportedLength)
        }
    }

    /// Number of coefficients that matter for `samples_len` samples: 0 Hz up
    /// to the Nyquist frequency, both included.
    pub fn fft_relevant_res_samples_count(samples_len: usize) -> (r: usize)
        ensures
            r == samples_len / 2 + 1,
    {
        samples_len / 2 + 1
    }

    /// Unpacks a real-input FFT result. The backend returns `N/2`
    /// coefficients and packs the real Nyquist coefficient into the imaginary
    /// part of the 0 Hz one. The result holds `N/2 + 1` coefficients: the 0 Hz
    /// one with a zero imaginary part, the others unchanged, and the Nyquist
    /// one appended with a zero imaginary part.
    pub fn unpack_nyquist(packed: Vec<Complex>) -> (r: Vec<Complex>)
        requires
            1 <= packed.len() < usize::MAX,
        ensures
            r.len() == packed.len() + 1,
            r[0] == (Complex { re: packed[0].re, im: 0 }),
            forall|i: int| 1 <= i < packed.len() ==> #[trigger] r[i] == packed[i],
            r[r.len() - 1] == (Complex { re: packed[0].im, im: 0 }),
    {
        let mut res = packed;
        let nyquist = res[0].im;
        let dc = Complex { re: res[0].re, im: 0 };
        res.set(0, dc);
        res.push(Complex { re: nyquist, im: 0 });
        res
    }
}

} // verus!
