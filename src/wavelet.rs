//! Wavelet descriptors and the time axis of the continuous wavelet transform.
//!
//! For each scale `a` and shift `b`, the transform correlates the signal with a
//! wavelet kernel sampled at `(t - b) / a` for `t` in `0..n`; the integer offsets
//! `t - b` are computed here.

use vstd::prelude::*;

verus! {

/// The wavelet families the transform supports.
#[derive(Clone, Copy, Debug, PartialEq, Eq, Structural)]
pub enum WaveletKind {
    /// Complex analytic wavelet `exp(i * omega * t) * exp(-t^2 / 2)`.
    Morlet,
    /// Real second derivative of a Gaussian, `(1 - (t/omega)^2) * exp(-(t/omega)^2 / 2)`.
    MexicanHat,
}

impl WaveletKind {
    /// Whether the kernel has an imaginary part.
    pub fn is_complex(&self) -> (r: bool)
        ensures
            r == (*self == WaveletKind::Morlet),
    {
        match self {
            WaveletKind::Morlet => true,
            WaveletKind::MexicanHat => false,
        }
    }
}

/// The Morlet wavelet.
#[derive(Clone, Copy, Debug, PartialEq, Eq, Structural)]
pub struct Morlet;

/// The Mexican hat (Ricker) wavelet.
#[derive(Clone, Copy, Debug, PartialEq, Eq, Structural)]
pub struct MexicanHat;

impl Morlet {
    pub fn kind(&self) -> (r: WaveletKind)
        ensures
            r == WaveletKind::Morlet,
    {
        WaveletKind::Morlet
    }
}

impl MexicanHat {
    pub fn kind(&self) -> (r: WaveletKind)
        ensures
            r == WaveletKind::MexicanHat,
    {
        WaveletKind::MexicanHat
    }
}

/// The offsets `t - b` of the samples `t` in `0..n` from the shift `b`: the
/// kernel for shift `b` at scale `a` is sampled at `offset / a`.
pub fn time_offsets(n: usize, b: usize) -> (r: Vec<i64>)
    requires
        n <= i64::MAX,
        b <= i64::MAX,
    ensures
        r@.len() == n,
        forall|t: int| 0 <= t < n ==> #[trigger] r@[t] == t - b,
{
    let mut r: Vec<i64> = Vec::new();
    let mut t: usize = 0;
    while t < n
        invariant
            t <= n,
            n <= i64::MAX,
            b <= i64::MAX,
            r@.len() == t,
            forall|j: int| 0 <= j < t ==> #[trigger] r@[j] == j - b,
        decreases n - t,
    {
        r.push(t as i64 - b as i64);
        t = t + 1;
    }
    r
}

} // verus!
