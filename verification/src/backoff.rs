//! Backoff settings of the retry and dead-letter patterns.
use vstd::prelude::*;
use crate::json::JsonNumber;

verus! {

/// The same delay before every retry.
#[derive(Debug, Clone, Copy, PartialEq, Eq, Structural)]
pub struct FixedBackoff {
    pub delay_ms: u32,
}

/// A delay that grows by a fixed increment per retry, up to a maximum.
#[derive(Debug, Clone, Copy, PartialEq, Eq, Structural)]
pub struct LinearBackoff {
    pub initial_delay_ms: u32,
    pub increment_ms: u32,
    pub max_delay_ms: u32,
}

/// A delay that is multiplied after each retry, up to a maximum.
#[derive(Debug)]
pub struct ExponentialBackoff {
    pub initial_delay_ms: u32,
    pub max_delay_ms: u32,
    /// The factor the delay grows by, as a JSON number
    pub multiplier: JsonNumber,
}

/// How the delay before a retry is chosen.
#[derive(Debug)]
pub enum BackoffStrategy {
    Fixed(FixedBackoff),
    Exponential(ExponentialBackoff),
    Linear(LinearBackoff),
}

} // verus!
