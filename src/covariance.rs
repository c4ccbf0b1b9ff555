//! Normalisation of the covariance estimator.

use vstd::prelude::*;

verus! {

/// Which covariance estimate to form from `m` samples per variable.
#[derive(Clone, Copy, Debug, PartialEq, Eq, Structural)]
pub enum CovarianceType {
    /// Divide by `m`.
    Population,
    /// Divide by `m - 1` (Bessel's correction).
    Sample,
}

impl CovarianceType {
    /// Degrees of freedom lost to the mean: 0 for the population estimate, 1
    /// for the sample estimate.
    pub open spec fn spec_ddof(&self) -> int {
        match self {
            CovarianceType::Population => 0,
            CovarianceType::Sample => 1,
        }
    }

    /// The divisor of the sum of centred products over `m_samples` samples:
    /// `m_samples - ddof`. `None` when there are fewer samples than that.
    pub fn divisor(&self, m_samples: usize) -> (r: Option<usize>)
        ensures
            r is None <==> m_samples < self.spec_ddof(),
            r matches Some(d) ==> d == m_samples - self.spec_ddof(),
    {
        match self {
            CovarianceType::Population => Some(m_samples),
            CovarianceType::Sample => {
                if m_samples == 0 {
                    None
                } else {
                    Some(m_samples - 1)
                }
            },
        }
    }
}

} // verus!
