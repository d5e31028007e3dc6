//! Validation of a degree sample before a power-law fit.
//!
//! The fit itself takes logarithms, so every value of the sample has to be
//! positive and the sample must not be empty. This module decides exactly
//! that; the estimate of the exponent is left to the caller.

use vstd::prelude::*;

verus! {

/// Why a sample cannot be fitted.
#[derive(Clone, Copy, Debug, PartialEq, Eq, Structural)]
pub enum InvalidSample {
    /// The sample holds no value.
    Empty,
    /// The value at `index` is zero and has no logarithm. `index` is the
    /// first such position.
    NonPositive { index: usize },
}

/// `i` is the position of the first zero in `data`.
pub open spec fn is_first_zero(data: Seq<usize>, i: int) -> bool {
    &&& 0 <= i < data.len()
    &&& data[i] == 0
    &&& forall|j: int| 0 <= j < i ==> data[j] != 0
}

/// Every value of `data` is positive.
pub open spec fn all_positive(data: Seq<usize>) -> bool {
    forall|j: int| 0 <= j < data.len() ==> data[j] != 0
}

/// Whether `data` can be put to a power-law fit.
///
/// An empty sample and a sample with a zero in it are rejected, the latter
/// with the position of its first zero. Every other sample is accepted with
/// the verdict `true`: no goodness-of-fit threshold is applied, so the
/// verdict says that the fit is defined, not that it is good.
pub fn fit_power_law_distribution(data: &[usize]) -> (verdict: Result<bool, InvalidSample>)
    ensures
        data@.len() == 0 <==> verdict == Err::<bool, InvalidSample>(InvalidSample::Empty),
        data@.len() > 0 && all_positive(data@) <==> verdict == Ok::<bool, InvalidSample>(true),
        forall|i: int|
            is_first_zero(data@, i) <==> verdict == Err::<bool, InvalidSample>(
                InvalidSample::NonPositive { index: i as usize },
            ) && 0 <= i <= usize::MAX,
{
    if data.len() == 0 {
        return Err(InvalidSample::Empty);
    }
    let mut i: usize = 0;
    while i < data.len()
        invariant
            0 <= i <= data@.len(),
            forall|j: int| 0 <= j < i ==> data@[j] != 0,
        decreases data@.len() - i,
    {
        if data[i] == 0 {
            return Err(InvalidSample::NonPositive { index: i });
        }
        i += 1;
    }
    Ok(true)
}

} // verus!
