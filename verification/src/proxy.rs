//! Proxy errors and the decision whether a proxied request is retried.
use vstd::prelude::*;
use crate::duration::Duration;

verus! {

/// Errors that the proxy reports for a request.
///
/// An upstream call failure carries the message of the underlying transport error.
#[derive(Debug, Clone, PartialEq, Eq)]
pub enum ProxyError {
    /// No bind matches the connection.
    BindNotFound,
    /// No listener matches the request.
    ListenerNotFound,
    /// No route matches the request.
    RouteNotFound,
    /// The request was denied by an authorization policy.
    AuthorizationFailed,
    /// The request is malformed.
    InvalidRequest,
    /// A rate limit rejected the request.
    RateLimitExceeded { limit: u64, remaining: u64, reset_seconds: u64 },
    /// No healthy endpoint is available for the backend.
    NoHealthyEndpoints,
    /// The request reached the wrong listener.
    MisdirectedRequest,
    /// The upstream did not answer in time.
    RequestTimeout,
    /// The upstream host name could not be resolved.
    DnsResolution,
    /// The call to the upstream failed.
    UpstreamCallFailed(String),
    /// A request with the same idempotency key is already known.
    DuplicateRequest,
    /// Processing the request failed with the given message.
    ProcessingString(String),
}

/// The errors after which the upstream may recover: a failed upstream call, a
/// timeout, a DNS failure.
pub open spec fn spec_is_retryable(e: ProxyError) -> bool {
    match e {
        ProxyError::UpstreamCallFailed(_) => true,
        ProxyError::RequestTimeout => true,
        ProxyError::DnsResolution => true,
        _ => false,
    }
}

impl ProxyError {
    /// Whether a retry may succeed after this error.
    pub fn is_retryable(&self) -> (r: bool)
        ensures
            r == spec_is_retryable(*self),
    {
        match self {
            ProxyError::UpstreamCallFailed(_) => true,
            ProxyError::RequestTimeout => true,
            ProxyError::DnsResolution => true,
            _ => false,
        }
    }
}

/// A response that ended proxying early: an error, or a response the gateway
/// produced itself (given by its status code).
#[derive(Debug, Clone, PartialEq, Eq)]
pub enum ProxyResponse {
    Error(ProxyError),
    DirectResponse(u16),
}

/// Retry policy of a route.
#[derive(Debug, Clone, PartialEq, Eq)]
pub struct RetryPolicy {
    /// Number of attempts, at least one.
    pub attempts: u8,
    /// Wait between attempts.
    pub backoff: Option<Duration>,
    /// Upstream status codes that are retried.
    pub codes: Vec<u16>,
}

/// Whether a proxied request is retried: an upstream response is retried when its
/// status is one of the policy's codes; an error when it is retryable; a direct
/// response never.
pub open spec fn spec_should_retry(result: Result<u16, ProxyResponse>, codes: Seq<u16>) -> bool {
    match result {
        Ok(status) => codes.contains(status),
        Err(ProxyResponse::Error(e)) => spec_is_retryable(e),
        Err(ProxyResponse::DirectResponse(_)) => false,
    }
}

/// Whether `status` is one of `codes`.
fn contains_code(codes: &Vec<u16>, status: u16) -> (r: bool)
    ensures
        r == codes@.contains(status),
{
    let mut i: usize = 0;
    while i < codes.len()
        invariant
            i <= codes@.len(),
            forall|j: int| 0 <= j < i ==> codes@[j] != status,
        decreases codes@.len() - i,
    {
        if codes[i] == status {
            assert(codes@[i as int] == status);
            return true;
        }
        i = i + 1;
    }
    false
}

/// Decides whether the request that produced `result` (an upstream status code or an
/// early response) is retried under `policy`.
pub fn should_retry(result: &Result<u16, ProxyResponse>, policy: &RetryPolicy) -> (r: bool)
    ensures
        r == spec_should_retry(*result, policy.codes@),
{
    match result {
        Ok(status) => contains_code(&policy.codes, *status),
        Err(ProxyResponse::Error(e)) => e.is_retryable(),
        Err(ProxyResponse::DirectResponse(_)) => false,
    }
}

} // verus!
