//! The errors of the statistics over price series.

use vstd::prelude::*;

verus! {

/// The z-score of a series could not be computed.
#[derive(Debug, Clone, Copy, PartialEq, Eq)]
pub struct ZscoreError;

/// The log difference of two series could not be computed.
#[derive(Debug, Clone, Copy, PartialEq, Eq)]
pub struct LogDiffError;

impl ZscoreError {
    /// The text shown for this error.
    pub fn message(&self) -> (m: String)
        ensures
            m@ == "Error computing zscore"@,
    {
        "Error computing zscore".to_owned()
    }
}

impl LogDiffError {
    /// The text shown for this error.
    pub fn message(&self) -> (m: String)
        ensures
            m@ == "Error computing the log diff of the 2 vec, make sure both Vec are the same size"@,
    {
        "Error computing the log diff of the 2 vec, make sure both Vec are the same size".to_owned()
    }
}

} // verus!
