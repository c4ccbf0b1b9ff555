//! Framing of the short-time Fourier transform.
//!
//! A signal is cut into frames of `window_size` samples, `hop_size` samples
//! apart; each frame is tapered by a sine window, zero-padded to the next power
//! of two and transformed. The spectrogram has one row per frame.

use vstd::prelude::*;
use crate::pow2::{is_pow2, next_power_of_two};

verus! {

/// How a signal is cut into analysis frames.
#[derive(Clone, Copy, Debug, PartialEq, Eq)]
pub struct FramePlan {
    /// Samples per frame.
    pub window_size: usize,
    /// Samples between the starts of consecutive frames.
    pub hop_size: usize,
    /// Transform length: the smallest power of two that is at least
    /// `window_size`.
    pub padded_len: usize,
    /// Number of frames: `(signal_len - window_size) / hop_size + 1`.
    pub num_frames: usize,
    /// Number of samples of the signal.
    pub signal_len: usize,
}

impl FramePlan {
    pub open spec fn wf(&self) -> bool {
        &&& self.hop_size >= 1
        &&& self.window_size <= self.signal_len
        &&& is_pow2(self.padded_len as int)
        &&& self.padded_len >= self.window_size
        &&& (self.padded_len == 1 || self.padded_len < 2 * self.window_size)
        &&& self.num_frames == (self.signal_len - self.window_size) / (self.hop_size as int) + 1
    }

    /// Start of frame `i` in the signal.
    pub open spec fn spec_frame_start(&self, i: int) -> int {
        i * self.hop_size
    }

    /// The frames of a `signal_len`-sample signal. `None` when the hop is zero,
    /// when the signal is shorter than one window, or when the padded length or
    /// the number of frames would not fit in a `usize`.
    pub fn new(signal_len: usize, window_size: usize, hop_size: usize) -> (r: Option<FramePlan>)
        ensures
            r is None <==> (hop_size == 0 || window_size > signal_len || window_size
                > usize::MAX / 2 || (signal_len - window_size) / (hop_size as int) + 1
                > usize::MAX),
            r matches Some(p) ==> p.wf() && p.signal_len == signal_len && p.window_size
                == window_size && p.hop_size == hop_size,
    {
        if hop_size == 0 || window_size > signal_len || window_size > usize::MAX / 2 {
            return None;
        }
        let q = (signal_len - window_size) / hop_size;
        if q == usize::MAX {
            return None;
        }
        let padded_len = next_power_of_two(window_size);
        let num_frames = q + 1;
        Some(FramePlan { window_size, hop_size, padded_len, num_frames, signal_len })
    }

    /// Start of frame `i` in the signal; the frame is the samples
    /// `start..start + window_size`.
    pub fn frame_start(&self, i: usize) -> (r: usize)
        requires
            self.wf(),
            i < self.num_frames,
        ensures
            r == self.spec_frame_start(i as int),
            r + self.window_size <= self.signal_len,
    {
        proof {
            lemma_frames_fit(*self, i as int);
        }
        i * self.hop_size
    }
}

/// The frames are exactly the windows, `hop_size` apart from sample 0, that
/// fit in the signal: every frame lies inside it, and one more would not.
pub proof fn lemma_frames_fit(p: FramePlan, i: int)
    requires
        p.wf(),
        0 <= i < p.num_frames,
    ensures
        0 <= p.spec_frame_start(i),
        p.spec_frame_start(i) + p.window_size <= p.signal_len,
        p.spec_frame_start(p.num_frames as int) + p.window_size > p.signal_len,
{
    let h = p.hop_size as int;
    let d = p.signal_len - p.window_size;
    let q = d / h;
    assert(q * h <= d < q * h + h) by (nonlinear_arith)
        requires q == d / h, h >= 1, d >= 0;
    assert(0 <= i * h <= q * h) by (nonlinear_arith)
        requires 0 <= i <= q, h >= 1;
    assert((q + 1) * h == q * h + h) by (nonlinear_arith);
}

} // verus!
