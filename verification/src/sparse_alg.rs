//! Solver configuration held across `solve` calls.
//!
//! Of the greedy matching-pursuit family, the thresholding solver is
//! the one whose configuration is a plain count: it keeps the
//! `support_size` columns whose normalized projections onto the
//! observation are largest, then solves least squares on that support.
//! The projection ranking is floating-point work done by the caller;
//! the configuration itself lives here, so that construction and
//! mutation are specified exactly.

use vstd::prelude::*;

verus! {

/// The support the thresholding solver keeps: the first `support_size`
/// entries of the ranking of column indices by projection magnitude,
/// or all of them when the ranking is shorter.
pub fn top_support_indices(ranking: &Vec<usize>, support_size: usize) -> (r: Vec<usize>)
    ensures
        r@ == ranking@.take(vstd::math::min(support_size as int, ranking@.len() as int)),
{
    let k = if support_size <= ranking.len() {
        support_size
    } else {
        ranking.len()
    };
    let mut r: Vec<usize> = Vec::new();
    let mut i: usize = 0;
    while i < k
        invariant
            i <= k,
            k <= ranking@.len(),
            r@ == ranking@.subrange(0, i as int),
        decreases k - i,
    {
        r.push(ranking[i]);
        i = i + 1;
    }
    proof {
        assert(r@ =~= ranking@.take(k as int));
    }
    r
}

/// Configuration of the one-shot thresholding solver: how many columns
/// its support may hold.
pub struct ThresholdAlg {
    support_size: usize,
}

impl ThresholdAlg {
    /// The configured support size.
    pub closed spec fn spec_support_size(&self) -> usize {
        self.support_size
    }

    /// A solver that will keep `support_size` columns.
    pub fn new(support_size: usize) -> (r: Self)
        ensures
            r.spec_support_size() == support_size,
    {
        Self { support_size }
    }

    /// Change the support size for later `solve` calls.
    pub fn set(&mut self, support_size: usize)
        ensures
            final(self).spec_support_size() == support_size,
    {
        self.support_size = support_size;
    }

    /// Read the configured support size back.
    pub fn support_size(&self) -> (r: usize)
        ensures
            r == self.spec_support_size(),
    {
        self.support_size
    }
}

} // verus!
