//! Identity of the agent calling the gateway, as given by request headers, JWT
//! claims or the MCP `initialize` client information.
use vstd::prelude::*;
use crate::json::{JsonValue, JsonView, spec_get};

verus! {

/// Header carrying the agent's name.
pub const AGENT_NAME_HEADER: &'static str = "x-agent-name";

/// Header carrying the agent's version.
pub const AGENT_VERSION_HEADER: &'static str = "x-agent-version";

/// JWT claim carrying the agent's name.
pub const AGENT_NAME_CLAIM: &'static str = "agent_name";

/// JWT claim carrying the agent's version.
pub const AGENT_VERSION_CLAIM: &'static str = "agent_version";

/// Where the identity was extracted from.
#[derive(Debug, Clone, Copy, PartialEq, Eq, Structural)]
pub enum IdentitySource {
    /// From X-Agent-Name/X-Agent-Version headers
    Headers,
    /// From JWT claims
    JwtClaims,
    /// From MCP initialize clientInfo
    McpClientInfo,
}

/// Caller identity extracted from a request.
#[derive(Debug, Clone, PartialEq, Eq)]
pub struct CallerIdentity {
    /// Agent name (required)
    pub name: String,
    /// Agent version (optional)
    pub version: Option<String>,
    /// Source of the identity (for logging/debugging)
    pub source: IdentitySource,
}

/// The string under `key` of a JSON object, if there is one.
pub open spec fn claim_string(claims: JsonView, key: Seq<char>) -> Option<Seq<char>> {
    match spec_get(claims, key) {
        Some(JsonView::String(s)) => Some(s),
        _ => None,
    }
}

/// The string value under `key` of an object.
fn string_claim(claims: &JsonValue, key: &str) -> (r: Option<String>)
    ensures
        match r {
            Some(s) => claim_string(claims@, key@) == Some(s@),
            None => claim_string(claims@, key@) is None,
        },
{
    match claims.get(key) {
        Some(v) => match v {
            JsonValue::String(s) => Some(s.clone()),
            _ => None,
        },
        None => None,
    }
}

impl CallerIdentity {
    /// A caller identity.
    pub fn new(name: String, version: Option<String>, source: IdentitySource) -> (r: CallerIdentity)
        ensures
            r.name == name,
            r.version == version,
            r.source == source,
    {
        CallerIdentity { name, version, source }
    }

    /// The identity given by the headers' values: the agent name header is
    /// required, the version header optional.
    pub fn from_header_values(name: Option<String>, version: Option<String>) -> (r: Option<CallerIdentity>)
        ensures
            match name {
                Some(n) => r == Some(CallerIdentity { name: n, version, source: IdentitySource::Headers }),
                None => r is None,
            },
    {
        match name {
            Some(n) => Some(CallerIdentity { name: n, version, source: IdentitySource::Headers }),
            None => None,
        }
    }

    /// The identity given by JWT claims: `agent_name` must be a string claim;
    /// `agent_version` is taken when it is a string.
    pub fn from_claims(claims: &JsonValue) -> (r: Option<CallerIdentity>)
        ensures
            match claim_string(claims@, AGENT_NAME_CLAIM@) {
                Some(n) => r matches Some(id) && id.name@ == n && id.source == IdentitySource::JwtClaims && match claim_string(
                    claims@,
                    AGENT_VERSION_CLAIM@,
                ) {
                    Some(v) => id.version matches Some(x) && x@ == v,
                    None => id.version is None,
                },
                None => r is None,
            },
    {
        let name = match string_claim(claims, AGENT_NAME_CLAIM) {
            Some(n) => n,
            None => {
                return None;
            },
        };
        let version = string_claim(claims, AGENT_VERSION_CLAIM);
        Some(CallerIdentity { name, version, source: IdentitySource::JwtClaims })
    }

    /// The identity given by MCP `initialize` client information: its name and
    /// version.
    pub fn from_client_info(name: String, version: String) -> (r: CallerIdentity)
        ensures
            r.name == name,
            r.version == Some(version),
            r.source == IdentitySource::McpClientInfo,
    {
        CallerIdentity { name, version: Some(version), source: IdentitySource::McpClientInfo }
    }
}

} // verus!
