//! Block layout of frequency-domain FIR filtering by overlap-add.
//!
//! A filter of `m` taps is applied with transforms of length
//! `n = 8 * next_power_of_two(m)`. The signal is cut into chunks of
//! `l = n - m + 1` samples; each chunk, zero-padded to `n`, is convolved with
//! the zero-padded taps in the frequency domain and the result is added into the
//! output at the chunk's offset. The output holds the full linear convolution:
//! `signal_len + m - 1` samples.

use vstd::prelude::*;
use crate::pow2::{is_pow2, next_power_of_two};

verus! {

/// The layout of one overlap-add run: how a signal is cut into blocks.
#[derive(Clone, Copy, Debug, PartialEq, Eq)]
pub struct BlockPlan {
    /// Number of filter taps `m`.
    pub taps: usize,
    /// Transform length `n`.
    pub block_len: usize,
    /// Useful samples per block, `l = n - m + 1`: the step between chunks.
    pub step: usize,
    /// Number of input samples.
    pub signal_len: usize,
}

/// One block of the run.
#[derive(Clone, Copy, Debug, PartialEq, Eq)]
pub struct Block {
    /// Offset of the chunk in the signal, and of its result in the output.
    pub start: usize,
    /// Number of signal samples in the chunk (the rest of the block is zero).
    pub chunk_len: usize,
    /// End (exclusive) of the output range that the block's result is added to.
    pub end: usize,
}

/// The transform length chosen for `m` taps: eight times the smallest power of
/// two that is at least `m`.
pub open spec fn is_block_len(m: int, n: int) -> bool {
    &&& n % 8 == 0
    &&& is_pow2(n / 8)
    &&& n / 8 >= m
    &&& (n / 8 == 1 || n / 8 < 2 * m)
}

/// Smallest integer `q` with `q * d >= a`.
pub open spec fn ceil_div(a: int, d: int) -> int {
    (a + d - 1) / d
}

impl BlockPlan {
    pub open spec fn wf(&self) -> bool {
        &&& self.taps >= 1
        &&& is_block_len(self.taps as int, self.block_len as int)
        &&& self.step == self.block_len - self.taps + 1
        &&& self.signal_len + self.taps - 1 <= usize::MAX
    }

    /// Length of the filtered signal: the full linear convolution.
    pub open spec fn spec_output_len(&self) -> int {
        self.signal_len + self.taps - 1
    }

    pub open spec fn spec_num_blocks(&self) -> int {
        ceil_div(self.signal_len as int, self.step as int)
    }

    /// The `i`-th block.
    pub open spec fn spec_block(&self, i: int) -> Block {
        let start = i * self.step;
        let rest = self.signal_len - start;
        let chunk_len = if rest < self.step { rest } else { self.step as int };
        let stop = start + self.block_len;
        let end = if stop < self.spec_output_len() { stop } else { self.spec_output_len() };
        Block { start: start as usize, chunk_len: chunk_len as usize, end: end as usize }
    }

    /// The plan for `taps` coefficients and `signal_len` samples. `None` when
    /// there are no taps, or when the transform length or the output length
    /// would not fit in a `usize`.
    pub fn new(taps: usize, signal_len: usize) -> (r: Option<BlockPlan>)
        ensures
            r is None <==> (taps == 0 || taps > usize::MAX / 16 || signal_len + taps - 1
                > usize::MAX),
            r matches Some(p) ==> p.wf() && p.taps == taps && p.signal_len == signal_len,
    {
        if taps == 0 || taps > usize::MAX / 16 || signal_len > usize::MAX - (taps - 1) {
            return None;
        }
        let p = next_power_of_two(taps);
        assert(p <= usize::MAX / 8);
        let block_len = 8 * p;
        assert(block_len / 8 == p);
        let step = block_len - taps + 1;
        Some(BlockPlan { taps, block_len, step, signal_len })
    }

    /// Number of output samples: `signal_len + taps - 1`.
    pub fn output_len(&self) -> (r: usize)
        requires
            self.wf(),
        ensures
            r == self.spec_output_len(),
    {
        self.signal_len + (self.taps - 1)
    }

    /// Number of chunks the signal is cut into: `ceil(signal_len / step)`.
    pub fn num_blocks(&self) -> (r: usize)
        requires
            self.wf(),
        ensures
            r == self.spec_num_blocks(),
    {
        proof {
            lemma_step_positive(*self);
            lemma_ceil_div(self.signal_len as int, self.step as int);
        }
        let q = self.signal_len / self.step;
        if self.signal_len % self.step == 0 {
            q
        } else {
            q + 1
        }
    }

    /// The `i`-th block: its chunk of the signal and the output range its
    /// result is added to.
    pub fn block(&self, i: usize) -> (b: Block)
        requires
            self.wf(),
            i < self.spec_num_blocks(),
        ensures
            b == self.spec_block(i as int),
    {
        proof {
            lemma_block_start(*self, i as int);
        }
        let start = i * self.step;
        let rest = self.signal_len - start;
        let chunk_len = if rest < self.step {
            rest
        } else {
            self.step
        };
        let out = self.output_len();
        let end = if start < out - self.block_len.min(out) {
            start + self.block_len
        } else {
            out
        };
        Block { start, chunk_len, end }
    }
}

/// Overlap-add is exact for every plan: the chunks tile the signal in order,
/// without gap or overlap, and the full linear convolution of each chunk with
/// the taps (`chunk_len + taps - 1` samples) fits in the transform length, so the
/// circular convolution computed in the frequency domain equals it, and it
/// falls entirely inside the output range the block is added to.
pub proof fn lemma_overlap_add_layout(p: BlockPlan, i: int)
    requires
        p.wf(),
        0 <= i < p.spec_num_blocks(),
    ensures
        p.spec_block(i).start == i * p.step,
        p.spec_block(i).chunk_len >= 1,
        p.spec_block(i).start + p.spec_block(i).chunk_len <= p.signal_len,
        i + 1 < p.spec_num_blocks() ==> p.spec_block(i + 1).start == p.spec_block(i).start
            + p.spec_block(i).chunk_len,
        i + 1 == p.spec_num_blocks() ==> p.spec_block(i).start + p.spec_block(i).chunk_len
            == p.signal_len,
        p.spec_block(i).chunk_len + p.taps - 1 <= p.block_len,
        p.spec_block(i).start + p.spec_block(i).chunk_len + p.taps - 1 <= p.spec_block(i).end,
        p.spec_block(i).end <= p.spec_output_len(),
        p.spec_block(i).end - p.spec_block(i).start <= p.block_len,
{
    lemma_step_positive(p);
    lemma_block_start(p, i);
    lemma_ceil_div(p.signal_len as int, p.step as int);
    let s = p.step as int;
    let len = p.signal_len as int;
    let nb = p.spec_num_blocks();
    if i + 1 < nb {
        lemma_block_start(p, i + 1);
        assert((i + 1) * s == i * s + s) by (nonlinear_arith);
    }
    if i + 1 == nb {
        let q = len / s;
        let r = len % s;
        assert(len == q * s + r && 0 <= r < s) by (nonlinear_arith)
            requires q == len / s, r == len % s, s >= 1;
        if r == 0 {
            assert(i == q - 1);
            assert(i * s + s == len) by (nonlinear_arith)
                requires i == q - 1, len == q * s;
        } else {
            assert(i == q);
            assert(i * s + r == len) by (nonlinear_arith)
                requires i == q, len == q * s + r;
        }
    }
}

/// Every sample of the signal lies in the chunk of block `j / step`.
pub proof fn lemma_sample_in_block(p: BlockPlan, j: int)
    requires
        p.wf(),
        0 <= j < p.signal_len,
    ensures
        0 <= j / (p.step as int) < p.spec_num_blocks(),
        p.spec_block(j / (p.step as int)).start <= j < p.spec_block(j / (p.step as int)).start
            + p.spec_block(j / (p.step as int)).chunk_len,
{
    lemma_step_positive(p);
    let s = p.step as int;
    let len = p.signal_len as int;
    let i = j / s;
    assert(i * s <= j < i * s + s && i >= 0) by (nonlinear_arith)
        requires i == j / s, s >= 1, j >= 0;
    assert(i < (len + s - 1) / s) by (nonlinear_arith)
        requires i * s <= j, j < len, s >= 1, i >= 0;
    lemma_overlap_add_layout(p, i);
}

/// Each block holds at least one sample.
proof fn lemma_step_positive(p: BlockPlan)
    requires
        p.wf(),
    ensures
        p.step >= 1,
        p.step + p.taps - 1 == p.block_len,
{
}

/// `ceil(a / d)` is `a / d`, plus one when `d` does not divide `a`.
proof fn lemma_ceil_div(a: int, d: int)
    requires
        a >= 0,
        d >= 1,
    ensures
        ceil_div(a, d) == a / d + (if a % d == 0 { 0int } else { 1int }),
        a / d <= a,
        a % d != 0 ==> a / d < a,
{
    let q = a / d;
    let r = a % d;
    assert(a == q * d + r && 0 <= r < d) by (nonlinear_arith)
        requires q == a / d, r == a % d, d >= 1;
    assert(q <= a && (r != 0 ==> q < a)) by (nonlinear_arith)
        requires a == q * d + r, 0 <= r, d >= 1, a >= 0;
    if r == 0 {
        assert((a + d - 1) / d == q) by (nonlinear_arith)
            requires a == q * d, d >= 1;
    } else {
        assert((a + d - 1) / d == q + 1) by (nonlinear_arith)
            requires a == q * d + r, 1 <= r < d, d >= 1;
    }
}

/// A block's chunk starts inside the signal.
proof fn lemma_block_start(p: BlockPlan, i: int)
    requires
        p.wf(),
        0 <= i < p.spec_num_blocks(),
    ensures
        0 <= i * p.step < p.signal_len,
{
    lemma_step_positive(p);
    let s = p.step as int;
    let len = p.signal_len as int;
    assert(i * s < len) by (nonlinear_arith)
        requires 0 <= i < (len + s - 1) / s, s >= 1, len >= 0;
    assert(0 <= i * s) by (nonlinear_arith)
        requires 0 <= i, s >= 1;
}

} // verus!
