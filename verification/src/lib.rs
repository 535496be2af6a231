//! Verified core of an MCP/HTTP agent gateway: registry validation, composition
//! patterns and the stateful resilience patterns around tool calls.
use vstd::prelude::*;

pub mod text;
pub mod duration;
pub mod registry_error;
pub mod client;
pub mod proxy;
pub mod wiretap;
pub mod json;
pub mod jsonpath;
pub mod clock;
pub mod circuit;
pub mod throttle;
pub mod idempotent;
pub mod deadletter;
pub mod registry;
pub mod depgraph;
pub mod validation;
pub mod runtime_hooks;
pub mod saga;
pub mod identity;
pub mod relay;
pub mod scatter_gather;
pub mod vision;
pub mod schema_map;
pub mod enricher;
pub mod executors;
pub mod pipeline;
pub mod backoff;
pub mod compiled;
pub mod output_transform;
pub mod transform;
pub mod tool_result;
pub mod claimcheck;
pub mod filter;
pub mod pattern;

verus! {

} // verus!
