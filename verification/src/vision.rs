//! Configuration of the message-routing patterns: recipient lists, semantic
//! deduplication and confidence aggregation.
use vstd::prelude::*;
use crate::scatter_gather::AggregationStrategy;

pub use crate::wiretap::TapPoint;

verus! {

/// A recipient list: sends the input to a list of tools known only at run time.
#[derive(Debug, Clone, PartialEq, Eq)]
pub struct RecipientListSpec {
    /// JSONPath to list of tool names in input
    pub recipients_path: Option<String>,
    /// Alternatively, a tool that returns recipient list
    pub recipients_tool: Option<String>,
    /// Aggregation strategy for results
    pub aggregation: Option<AggregationStrategy>,
    /// Execute in parallel?
    pub parallel: bool,
    /// Fail if any recipient fails?
    pub fail_on_error: bool,
}

impl RecipientListSpec {
    /// The tools named by this recipient list: the tool that returns the
    /// recipients, if there is one; the recipients themselves are known only at
    /// run time.
    pub fn referenced_tools(&self) -> (r: Vec<String>)
        ensures
            match self.recipients_tool {
                Some(t) => r@ == seq![t],
                None => r@.len() == 0,
            },
    {
        match &self.recipients_tool {
            Some(t) => vec![t.clone()],
            None => Vec::new(),
        }
    }
}

/// Strategy for choosing which item to keep when duplicates are found.
#[derive(Debug, Clone, Copy, PartialEq, Eq, Structural)]
pub enum DedupKeepStrategy {
    /// Keep the first occurrence
    First,
    /// Keep the last occurrence
    Last,
    /// Keep the one with highest score field
    HighestScore,
    /// Keep the one with most populated fields
    MostComplete,
}

impl Default for DedupKeepStrategy {
    fn default() -> (r: DedupKeepStrategy)
        ensures
            r == DedupKeepStrategy::First,
    {
        DedupKeepStrategy::First
    }
}

/// Strategy for aggregating confidence-weighted results.
#[derive(Debug, Clone, Copy, PartialEq, Eq, Structural)]
pub enum ConfidenceStrategy {
    /// Use highest-weight source that returns a result
    HighestWeight,
    /// Weighted voting for consensus
    WeightedVote,
    /// Require quorum of weighted sources
    Quorum,
    /// Take all results, annotated with weights
    All,
}

impl Default for ConfidenceStrategy {
    fn default() -> (r: ConfidenceStrategy)
        ensures
            r == ConfidenceStrategy::HighestWeight,
    {
        ConfidenceStrategy::HighestWeight
    }
}

} // verus!
