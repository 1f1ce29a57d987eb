//! Request parameter shapes of the query endpoints, as plain values.

use vstd::prelude::*;

verus! {

/// Parameters of an instant query.
#[derive(Debug)]
pub struct QueryParams {
    /// Selector text.
    pub query: String,
}

/// Parameters of a range query.
#[derive(Debug)]
pub struct QueryRangeParams {
    /// Selector text.
    pub query: String,
    /// Start time, as a Unix timestamp or a relative expression.
    pub start: String,
    /// End time, as a Unix timestamp or a relative expression.
    pub end: String,
    /// Query resolution step.
    pub step: String,
}

} // verus!
