//! Index structure of the radix-2 decimation-in-time FFT, and the frequency
//! axis of a transform.
//!
//! The recursive FFT works on index-strided views into one contiguous array of
//! length `n` (a power of two): the view at recursion depth `d` takes every
//! `2^d`-th element from an offset below `2^d`. Splitting a view into its
//! even- and odd-indexed halves doubles the stride and halves the length.

use vstd::prelude::*;
use crate::pow2::{is_pow2, lemma_half_pow2};

verus! {

/// The elements `offset, offset + stride, offset + 2 * stride, ...` (`len` of
/// them) of a backing array.
#[derive(Clone, Copy, Debug, PartialEq, Eq, Structural)]
pub struct StridedView {
    pub offset: usize,
    pub stride: usize,
    pub len: usize,
}

impl StridedView {
    /// Length of the backing array the view decimates: `stride * len`.
    pub open spec fn backing_len(&self) -> int {
        self.stride * self.len
    }

    /// The view is one residue class of the indices of its backing array:
    /// every index `j < stride * len` with `j % stride == offset`.
    pub open spec fn wf(&self) -> bool {
        &&& self.stride >= 1
        &&& self.offset < self.stride
        &&& self.backing_len() <= usize::MAX
    }

    /// Position in the backing array of the view's `k`-th element.
    pub open spec fn spec_index(&self, k: int) -> int {
        self.offset + k * self.stride
    }

    /// The whole backing array of length `n`.
    pub fn whole(n: usize) -> (r: StridedView)
        ensures
            r.wf(),
            r.backing_len() == n,
            forall|k: int| 0 <= k < n ==> #[trigger] r.spec_index(k) == k,
    {
        StridedView { offset: 0, stride: 1, len: n }
    }

    /// Position in the backing array of the view's `k`-th element.
    pub fn index(&self, k: usize) -> (r: usize)
        requires
            self.wf(),
            k < self.len,
        ensures
            r == self.spec_index(k as int),
            r < self.backing_len(),
    {
        proof {
            lemma_view_index_bound(*self, k as int);
        }
        self.offset + k * self.stride
    }

    /// The elements at even positions of the view.
    pub fn even(&self) -> (r: StridedView)
        requires
            self.wf(),
            self.len % 2 == 0,
            self.len > 0,
        ensures
            r.wf(),
            r == self.spec_even(),
            r.backing_len() == self.backing_len(),
            r.len == self.len / 2,
            forall|k: int| 0 <= k < r.len ==> #[trigger] r.spec_index(k) == self.spec_index(2 * k),
    {
        proof {
            lemma_double_stride(*self);
        }
        let r = StridedView { offset: self.offset, stride: 2 * self.stride, len: self.len / 2 };
        assert forall|k: int| 0 <= k < r.len implies #[trigger] r.spec_index(k) == self.spec_index(
            2 * k,
        ) by {
            assert(k * (2 * self.stride) == (2 * k) * self.stride) by (nonlinear_arith);
        }
        r
    }

    /// The elements at odd positions of the view.
    pub fn odd(&self) -> (r: StridedView)
        requires
            self.wf(),
            self.len % 2 == 0,
            self.len > 0,
        ensures
            r.wf(),
            r == self.spec_odd(),
            r.backing_len() == self.backing_len(),
            r.len == self.len / 2,
            forall|k: int|
                0 <= k < r.len ==> #[trigger] r.spec_index(k) == self.spec_index(2 * k + 1),
    {
        proof {
            lemma_double_stride(*self);
        }
        let r = StridedView {
            offset: self.offset + self.stride,
            stride: 2 * self.stride,
            len: self.len / 2,
        };
        assert forall|k: int| 0 <= k < r.len implies #[trigger] r.spec_index(k) == self.spec_index(
            2 * k + 1,
        ) by {
            assert(k * (2 * self.stride) + self.stride == (2 * k + 1) * self.stride)
                by (nonlinear_arith);
        }
        r
    }
}

/// The `k`-th element of a well-formed view lies inside the backing array.
proof fn lemma_view_index_bound(v: StridedView, k: int)
    requires
        v.wf(),
        0 <= k < v.len,
    ensures
        0 <= v.spec_index(k) < v.backing_len(),
{
    let n = v.backing_len();
    let s = v.stride as int;
    assert(0 <= k * s <= (v.len - 1) * s) by (nonlinear_arith)
        requires 0 <= k < v.len, s >= 1;
    assert((v.len - 1) * s == n - s) by (nonlinear_arith)
        requires s * v.len == n;
}

/// Doubling the stride of a view of even length keeps it inside the array.
proof fn lemma_double_stride(v: StridedView)
    requires
        v.wf(),
        v.len % 2 == 0,
    ensures
        2 * v.stride * (v.len / 2) == v.backing_len(),
        v.len > 0 ==> 2 * v.stride <= v.backing_len(),
{
    let n = v.backing_len();
    let s = v.stride as int;
    let h = v.len / 2;
    assert(2 * s * h == s * v.len) by (nonlinear_arith)
        requires v.len == 2 * h;
    if v.len > 0 {
        assert(2 * s <= n) by (nonlinear_arith)
            requires 2 * s * h == n, h >= 1, s >= 1;
    }
}

impl StridedView {
    /// The view of the even positions.
    pub open spec fn spec_even(&self) -> StridedView {
        StridedView { offset: self.offset, stride: (2 * self.stride) as usize, len: self.len / 2 }
    }

    /// The view of the odd positions.
    pub open spec fn spec_odd(&self) -> StridedView {
        StridedView {
            offset: (self.offset + self.stride) as usize,
            stride: (2 * self.stride) as usize,
            len: self.len / 2,
        }
    }
}

/// The backing-array positions of the single-element views that the radix-2
/// recursion reaches from `v`, in the order it reaches them.
pub open spec fn leaves(v: StridedView) -> Seq<int>
    decreases v.len,
{
    if v.len == 1 {
        seq![v.offset as int]
    } else if v.len >= 2 && v.len % 2 == 0 {
        leaves(v.spec_even()) + leaves(v.spec_odd())
    } else {
        Seq::empty()
    }
}

/// `x` is the position of one of the view's elements.
pub open spec fn in_view(v: StridedView, x: int) -> bool {
    exists|k: int| 0 <= k < v.len && x == v.spec_index(k)
}

/// The halves of a splittable view are well formed, and their elements are the
/// view's elements at even and odd positions.
proof fn lemma_halves(v: StridedView)
    requires
        v.wf(),
        v.len >= 2,
        v.len % 2 == 0,
    ensures
        v.spec_even().wf(),
        v.spec_odd().wf(),
        v.spec_even().len == v.len / 2,
        v.spec_even().stride == 2 * v.stride,
        v.spec_odd().stride == 2 * v.stride,
        v.spec_odd().offset == v.offset + v.stride,
        forall|k: int|
            0 <= k < v.len / 2 ==> #[trigger] v.spec_even().spec_index(k) == v.spec_index(2 * k),
        forall|k: int|
            0 <= k < v.len / 2 ==> #[trigger] v.spec_odd().spec_index(k) == v.spec_index(2 * k + 1),
{
    lemma_double_stride(v);
    let s = v.stride as int;
    assert forall|k: int| 0 <= k < v.len / 2 implies #[trigger] v.spec_even().spec_index(k)
        == v.spec_index(2 * k) by {
        assert(k * (2 * s) == (2 * k) * s) by (nonlinear_arith);
    }
    assert forall|k: int| 0 <= k < v.len / 2 implies #[trigger] v.spec_odd().spec_index(k)
        == v.spec_index(2 * k + 1) by {
        assert(k * (2 * s) + s == (2 * k + 1) * s) by (nonlinear_arith);
    }
}

/// For a view of power-of-two length, the radix-2 recursion reaches every
/// element exactly once: its leaves are as many as the view's elements, each
/// leaf is one of them, each element is a leaf, and no two leaves coincide.
pub proof fn lemma_recursion_visits_each_once(v: StridedView)
    requires
        v.wf(),
        is_pow2(v.len as int),
    ensures
        leaves(v).len() == v.len,
        forall|j: int| 0 <= j < leaves(v).len() ==> in_view(v, #[trigger] leaves(v)[j]),
        forall|k: int| 0 <= k < v.len ==> leaves(v).contains(#[trigger] v.spec_index(k)),
        leaves(v).no_duplicates(),
    decreases v.len,
{
    crate::pow2::lemma_pow2_ge_one(v.len as int);
    if v.len == 1 {
        assert(v.spec_index(0) == v.offset);
        assert(in_view(v, leaves(v)[0]));
        assert(leaves(v)[0] == v.spec_index(0));
    } else {
        lemma_half_pow2(v.len as int);
        lemma_halves(v);
        let e = v.spec_even();
        let o = v.spec_odd();
        lemma_recursion_visits_each_once(e);
        lemma_recursion_visits_each_once(o);
        let le = leaves(e);
        let lo = leaves(o);
        assert(leaves(v) == le + lo);
        let s = v.stride as int;
        assert forall|j: int| 0 <= j < leaves(v).len() implies in_view(v, #[trigger] leaves(v)[j]) by {
            if j < le.len() {
                assert(leaves(v)[j] == le[j]);
                assert(in_view(e, le[j]));
                let k = choose|k: int| 0 <= k < e.len && le[j] == e.spec_index(k);
                assert(le[j] == v.spec_index(2 * k));
            } else {
                assert(leaves(v)[j] == lo[j - le.len()]);
                assert(in_view(o, lo[j - le.len()]));
                let k = choose|k: int| 0 <= k < o.len && lo[j - le.len()] == o.spec_index(k);
                assert(lo[j - le.len()] == v.spec_index(2 * k + 1));
            }
        }
        assert forall|k: int| 0 <= k < v.len implies leaves(v).contains(
            #[trigger] v.spec_index(k),
        ) by {
            let h = k / 2;
            assert(k == 2 * h || k == 2 * h + 1);
            if k == 2 * h {
                assert(e.spec_index(h) == v.spec_index(k));
                assert(le.contains(e.spec_index(h)));
                let j = choose|j: int| 0 <= j < le.len() && le[j] == e.spec_index(h);
                assert(leaves(v)[j] == v.spec_index(k));
            } else {
                assert(o.spec_index(h) == v.spec_index(k));
                assert(lo.contains(o.spec_index(h)));
                let j = choose|j: int| 0 <= j < lo.len() && lo[j] == o.spec_index(h);
                assert(leaves(v)[le.len() + j] == v.spec_index(k));
            }
        }
        assert forall|a: int, b: int|
            0 <= a < leaves(v).len() && 0 <= b < leaves(v).len() && a != b implies leaves(v)[a]
            != leaves(v)[b] by {
            if a < le.len() && b >= le.len() {
                lemma_halves_disjoint(v, le[a], lo[b - le.len()]);
            } else if b < le.len() && a >= le.len() {
                lemma_halves_disjoint(v, le[b], lo[a - le.len()]);
            } else if a < le.len() {
                assert(leaves(v)[a] == le[a] && leaves(v)[b] == le[b]);
            } else {
                assert(leaves(v)[a] == lo[a - le.len()] && leaves(v)[b] == lo[b - le.len()]);
            }
        }
    }
}

/// No element of the even half of a view is an element of its odd half.
proof fn lemma_halves_disjoint(v: StridedView, x: int, y: int)
    requires
        v.wf(),
        v.len >= 2,
        v.len % 2 == 0,
        in_view(v.spec_even(), x),
        in_view(v.spec_odd(), y),
    ensures
        x != y,
{
    lemma_halves(v);
    let e = v.spec_even();
    let o = v.spec_odd();
    let a = choose|k: int| 0 <= k < e.len && x == e.spec_index(k);
    let b = choose|k: int| 0 <= k < o.len && y == o.spec_index(k);
    let s = v.stride as int;
    assert(x == v.offset + a * (2 * s));
    assert(y == v.offset + s + b * (2 * s));
    assert(v.offset + a * (2 * s) != v.offset + s + b * (2 * s)) by (nonlinear_arith)
        requires s >= 1;
}

/// Signed bin index of FFT bin `i` of an `n`-point transform: `i` below `n/2`,
/// `i - n` from `n/2` on (the negative frequencies).
pub open spec fn signed_bin(i: int, n: int) -> int {
    if i < n / 2 {
        i
    } else {
        i - n
    }
}

/// The signed bin index of each of the `n` bins of an FFT, in order; the
/// frequency of bin `i` is `signed_bin(i, n) * sampling_freq / n`.
pub fn signed_bins(n: usize) -> (r: Vec<i64>)
    requires
        n <= i64::MAX,
    ensures
        r@.len() == n,
        forall|i: int| 0 <= i < n ==> #[trigger] r@[i] == signed_bin(i, n as int),
{
    let mut r: Vec<i64> = Vec::new();
    let mut i: usize = 0;
    while i < n
        invariant
            i <= n,
            n <= i64::MAX,
            r@.len() == i,
            forall|j: int| 0 <= j < i ==> #[trigger] r@[j] == signed_bin(j, n as int),
        decreases n - i,
    {
        let b: i64 = if i < n / 2 {
            i as i64
        } else {
            i as i64 - n as i64
        };
        r.push(b);
        i = i + 1;
    }
    r
}

/// Number of bins of the one-sided spectrum of an `n`-point real FFT:
/// frequencies `i * sampling_freq / n` for `i` in `0..=n/2`.
pub fn num_real_bins(n: usize) -> (r: usize)
    ensures
        r == n / 2 + 1,
{
    n / 2 + 1
}

} // verus!
