//! Index maps of the Stockwell transform (S-transform) and its inverse.
//!
//! For a signal of length `n`, row `f` (`1 <= f <= n/2`) of the forward transform
//! is the inverse FFT of the spectrum shifted by `f` bins and multiplied by a
//! Gaussian that is mirrored around the Nyquist bin. Row 0 is the signal's mean.
//! The inverse sums each row into one spectral coefficient and fills the upper
//! half of the spectrum by conjugate symmetry.

use vstd::prelude::*;

verus! {

/// Number of rows of the S-transform of a length-`n` signal: frequencies
/// `0..=n/2`.
pub open spec fn spec_num_rows(n: int) -> int {
    n / 2 + 1
}

/// Circular distance of bin `j` from bin 0 in a length-`n` spectrum: the
/// argument at which the mirrored Gaussian window is evaluated at bin `j`.
pub open spec fn circular_distance(j: int, n: int) -> int {
    if j <= n - j {
        j
    } else {
        n - j
    }
}

/// Number of rows of the S-transform of a length-`n` signal.
pub fn num_rows(n: usize) -> (r: usize)
    ensures
        r == spec_num_rows(n as int),
{
    n / 2 + 1
}

/// For each bin `j` of a length-`n` spectrum, the point at which the Gaussian
/// window is evaluated: `j` for `j <= n/2`, mirrored as `n - j` above.
pub fn window_offsets(n: usize) -> (r: Vec<usize>)
    ensures
        r@.len() == n,
        forall|j: int| 0 <= j < n ==> #[trigger] r@[j] == circular_distance(j, n as int),
{
    let mut r: Vec<usize> = Vec::new();
    let mut j: usize = 0;
    while j < n
        invariant
            j <= n,
            r@.len() == j,
            forall|k: int| 0 <= k < j ==> #[trigger] r@[k] == 0,
        decreases n - j,
    {
        r.push(0);
        j = j + 1;
    }
    let half = n / 2;
    let mut i: usize = 1;
    while i <= half
        invariant
            1 <= i <= half + 1,
            half == n / 2,
            r@.len() == n,
            forall|k: int| 0 <= k < n ==> #[trigger] r@[k] == if k < i || k > n - i {
                circular_distance(k, n as int)
            } else {
                0
            },
        decreases half + 1 - i,
    {
        r.set(i, i);
        r.set(n - i, i);
        i = i + 1;
    }
    r
}

/// For each bin `i` of the shifted spectrum of row `f`, the bin of the
/// unshifted spectrum it takes: `(i + f) mod n`.
pub fn shifted_bins(n: usize, f: usize) -> (r: Vec<usize>)
    requires
        f <= n,
    ensures
        r@.len() == n,
        forall|i: int| 0 <= i < n ==> #[trigger] r@[i] == (i + f) % (n as int),
{
    let mut r: Vec<usize> = Vec::new();
    let mut i: usize = 0;
    while i < n
        invariant
            i <= n,
            f <= n,
            r@.len() == i,
            forall|k: int| 0 <= k < i ==> #[trigger] r@[k] == (k + f) % (n as int),
        decreases n - i,
    {
        let k = if i >= n - f {
            i - (n - f)
        } else {
            i + f
        };
        proof {
            if i + f >= n {
                assert((i + f) % (n as int) == i + f - n) by {
                    vstd::arithmetic::div_mod::lemma_fundamental_div_mod_converse(
                        (i + f) as int,
                        n as int,
                        1,
                        (i + f - n) as int,
                    );
                }
            } else {
                vstd::arithmetic::div_mod::lemma_small_mod((i + f) as nat, n as nat);
            }
        }
        r.push(k);
        i = i + 1;
    }
    r
}

/// Where the inverse transform takes spectral coefficient `i` from.
#[derive(Clone, Copy, Debug, PartialEq, Eq, Structural)]
pub enum BinSource {
    /// The sum of row `k` across time.
    RowSum(usize),
    /// The complex conjugate of the sum of row `k` across time.
    ConjRowSum(usize),
    /// Zero: no row provides this coefficient.
    Zero,
}

/// Where coefficient `i` comes from when the rows are first summed into bins
/// `0..nrows`.
pub open spec fn summed_source(i: int, nrows: int) -> BinSource {
    if i < nrows {
        BinSource::RowSum(i as usize)
    } else {
        BinSource::Zero
    }
}

/// The conjugate of a coefficient's source.
pub open spec fn conj_source(s: BinSource) -> BinSource {
    match s {
        BinSource::RowSum(k) => BinSource::ConjRowSum(k),
        BinSource::ConjRowSum(k) => BinSource::RowSum(k),
        BinSource::Zero => BinSource::Zero,
    }
}

/// Where the inverse transform of an `nrows x ntimes` matrix takes coefficient
/// `i` from: bins above `ntimes/2` are the conjugates of their mirror bins
/// `ntimes - i`; the others are row sums.
pub open spec fn bin_source(i: int, nrows: int, ntimes: int) -> BinSource {
    if i > ntimes / 2 {
        conj_source(summed_source(ntimes - i, nrows))
    } else {
        summed_source(i, nrows)
    }
}

/// The source of each of the `ntimes` spectral coefficients that the inverse
/// transform rebuilds from an `nrows x ntimes` matrix. `None` when there are
/// more rows than time columns: row `f` is summed into coefficient `f`, which
/// must exist.
pub fn spectrum_sources(nrows: usize, ntimes: usize) -> (r: Option<Vec<BinSource>>)
    ensures
        r is None <==> nrows > ntimes,
        r matches Some(v) ==> v@.len() == ntimes && forall|i: int|
            0 <= i < ntimes ==> #[trigger] v@[i] == bin_source(i, nrows as int, ntimes as int),
{
    if nrows > ntimes {
        return None;
    }
    let mut v: Vec<BinSource> = Vec::new();
    let mut k: usize = 0;
    while k < ntimes
        invariant
            k <= ntimes,
            v@.len() == k,
            forall|j: int| 0 <= j < k ==> #[trigger] v@[j] == summed_source(j, nrows as int),
        decreases ntimes - k,
    {
        if k < nrows {
            v.push(BinSource::RowSum(k));
        } else {
            v.push(BinSource::Zero);
        }
        k = k + 1;
    }
    let mut i: usize = ntimes / 2 + 1;
    while i < ntimes
        invariant
            ntimes / 2 + 1 <= i,
            v@.len() == ntimes,
            forall|j: int|
                0 <= j < ntimes ==> #[trigger] v@[j] == if j > ntimes / 2 && j >= i {
                    summed_source(j, nrows as int)
                } else {
                    bin_source(j, nrows as int, ntimes as int)
                },
        decreases ntimes - i,
    {
        let mirror = v[ntimes - i];
        let c = match mirror {
            BinSource::RowSum(k) => BinSource::ConjRowSum(k),
            BinSource::ConjRowSum(k) => BinSource::RowSum(k),
            BinSource::Zero => BinSource::Zero,
        };
        v.set(i, c);
        i = i + 1;
    }
    Some(v)
}

/// For the `(n/2 + 1) x n` matrix that the forward transform produces, every
/// coefficient of the rebuilt spectrum is defined: bins `0..=n/2` take their own
/// row's sum, and each bin `i` above takes the conjugate of row `n - i`'s sum,
/// so the rebuilt spectrum is conjugate-symmetric around the Nyquist bin.
pub proof fn lemma_spectrum_sources_symmetric(n: usize, i: usize)
    requires
        i < n,
    ensures
        i <= n / 2 ==> bin_source(i as int, spec_num_rows(n as int), n as int)
            == BinSource::RowSum(i),
        i > n / 2 ==> bin_source(i as int, spec_num_rows(n as int), n as int)
            == BinSource::ConjRowSum((n - i) as usize),
        0 < i && 2 * i != n ==> bin_source(n - i, spec_num_rows(n as int), n as int)
            == conj_source(bin_source(i as int, spec_num_rows(n as int), n as int)),
{
}

} // verus!
