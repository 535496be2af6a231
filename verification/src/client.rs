//! Registry client settings: where the registry comes from, how often it is
//! refreshed, and how HTTP sources authenticate.
use vstd::prelude::*;
use crate::duration::{Duration, NANOS_PER_SEC, NANOS_PER_MILLI};
use crate::registry_error::RegistryError;
use crate::text::{str_to_chars, trim_bounds, trim_spec, parse_u64_chars, parses_unsigned, digits_value, unsigned_digits, slice_to_string, concat_str, has_prefix, starts_with_chars};

verus! {

/// Unit suffix of a duration string.
#[derive(Debug, Clone, Copy, PartialEq, Eq, Structural)]
pub enum DurationUnit {
    Millis,
    Secs,
    Mins,
    Hours,
    Days,
}

/// Splits a trimmed duration string into its number part and its unit:
/// `ms`, `s`, `m`, `h`, `d`, or seconds when there is no suffix.
pub open spec fn split_duration_unit(t: Seq<char>) -> (Seq<char>, DurationUnit) {
    if t.len() >= 2 && t[t.len() - 2] == 'm' && t[t.len() - 1] == 's' {
        (t.take(t.len() - 2), DurationUnit::Millis)
    } else if t.len() >= 1 && t.last() == 's' {
        (t.drop_last(), DurationUnit::Secs)
    } else if t.len() >= 1 && t.last() == 'm' {
        (t.drop_last(), DurationUnit::Mins)
    } else if t.len() >= 1 && t.last() == 'h' {
        (t.drop_last(), DurationUnit::Hours)
    } else if t.len() >= 1 && t.last() == 'd' {
        (t.drop_last(), DurationUnit::Days)
    } else {
        (t, DurationUnit::Secs)
    }
}

/// Seconds in one unit (milliseconds are counted apart).
pub open spec fn unit_seconds(u: DurationUnit) -> int {
    match u {
        DurationUnit::Millis => 0,
        DurationUnit::Secs => 1,
        DurationUnit::Mins => 60,
        DurationUnit::Hours => 3600,
        DurationUnit::Days => 86400,
    }
}

/// Nanoseconds spanned by `n` units.
pub open spec fn unit_nanos(n: int, u: DurationUnit) -> int {
    if u == DurationUnit::Millis {
        n * NANOS_PER_MILLI
    } else {
        n * unit_seconds(u) * NANOS_PER_SEC
    }
}

/// The number of seconds that `n` units make does not fit in a `u64`.
pub open spec fn unit_overflows(n: int, u: DurationUnit) -> bool {
    u != DurationUnit::Millis && n * unit_seconds(u) > u64::MAX
}

/// Parse a duration string like "5m", "30s", "1h", "100ms" or "2d"; a bare
/// number counts seconds. Surrounding white space is ignored.
///
/// Errors, all `InvalidSource`: the trimmed string is empty; the number part is
/// not an unsigned decimal that fits in a `u64`; the span in seconds does not fit
/// in a `u64`.
pub fn parse_duration(s: &str) -> (r: Result<Duration, RegistryError>)
    ensures
        ({
            let t = trim_spec(s@);
            let num = split_duration_unit(t).0;
            let unit = split_duration_unit(t).1;
            let n = digits_value(unsigned_digits(num));
            &&& t.len() == 0 ==> (r matches Err(RegistryError::InvalidSource(m)) && m@
                == "empty duration string"@)
            &&& (t.len() > 0 && !parses_unsigned(num, u64::MAX as int)) ==> (r matches Err(
                RegistryError::InvalidSource(m),
            ) && m@ == "invalid duration number: "@ + num)
            &&& (t.len() > 0 && parses_unsigned(num, u64::MAX as int) && unit_overflows(n, unit))
                ==> (r matches Err(RegistryError::InvalidSource(m)) && m@
                == "duration out of range: "@ + t)
            &&& (t.len() > 0 && parses_unsigned(num, u64::MAX as int) && !unit_overflows(n, unit))
                ==> (r matches Ok(d) && d@ == unit_nanos(n, unit))
        }),
{
    let v = str_to_chars(s);
    let (start, end) = trim_bounds(v.as_slice());
    let ghost t = v@.subrange(start as int, end as int);
    if start == end {
        return Err(RegistryError::InvalidSource("empty duration string".to_owned()));
    }
    let len = end - start;
    let (num_end, unit) = if len >= 2 && v[end - 2] == 'm' && v[end - 1] == 's' {
        (end - 2, DurationUnit::Millis)
    } else if v[end - 1] == 's' {
        (end - 1, DurationUnit::Secs)
    } else if v[end - 1] == 'm' {
        (end - 1, DurationUnit::Mins)
    } else if v[end - 1] == 'h' {
        (end - 1, DurationUnit::Hours)
    } else if v[end - 1] == 'd' {
        (end - 1, DurationUnit::Days)
    } else {
        (end, DurationUnit::Secs)
    };
    proof {
        let sp = split_duration_unit(t);
        assert(sp.1 == unit);
        assert(sp.0 == v@.subrange(start as int, num_end as int));
    }
    let num = match parse_u64_chars(v.as_slice(), start, num_end) {
        Some(n) => n,
        None => {
            let num_str = slice_to_string(v.as_slice(), start, num_end);
            return Err(RegistryError::InvalidSource(concat_str("invalid duration number: ", num_str.as_str())));
        },
    };
    let multiplier: u64 = match unit {
        DurationUnit::Millis => 0,
        DurationUnit::Secs => 1,
        DurationUnit::Mins => 60,
        DurationUnit::Hours => 3600,
        DurationUnit::Days => 86400,
    };
    if unit == DurationUnit::Millis {
        return Ok(Duration::from_millis(num));
    }
    match num.checked_mul(multiplier) {
        Some(secs) => {
            let d = Duration::from_secs(secs);
            assert(d@ == unit_nanos(num as int, unit)) by (nonlinear_arith)
                requires
                    d@ == secs * NANOS_PER_SEC,
                    secs == num * multiplier,
                    multiplier == unit_seconds(unit),
                    unit != DurationUnit::Millis,
            ;
            Ok(d)
        },
        None => {
            let t_str = slice_to_string(v.as_slice(), start, end);
            Err(RegistryError::InvalidSource(concat_str("duration out of range: ", t_str.as_str())))
        },
    }
}

/// Base64 encoding (standard alphabet, with padding) of the UTF-8 bytes of a string.
pub uninterp spec fn base64_standard(input: Seq<char>) -> Seq<char>;

/// Calls `base64::Engine::encode` with `base64::engine::general_purpose::STANDARD`.
/// Claims only that the result is a function of the input's characters; the
/// encoding itself is the crate's.
#[verifier::external_body]
fn base64_encode(input: &str) -> (r: String)
    ensures
        r@ == base64_standard(input@),
{
    base64::Engine::encode(&base64::engine::general_purpose::STANDARD, input)
}

/// Authentication configuration for HTTP registry sources.
#[derive(Debug, Clone, PartialEq, Eq)]
pub enum AuthConfig {
    /// Bearer token authentication
    Bearer(String),
    /// Basic authentication (username:password)
    Basic { username: String, password: String },
}

impl AuthConfig {
    /// The value of the `Authorization` header: `Bearer <token>`, or `Basic ` followed by
    /// the base64 encoding of `<username>:<password>`.
    pub fn to_header_value(&self) -> (r: String)
        ensures
            match self {
                AuthConfig::Bearer(token) => r@ == "Bearer "@ + token@,
                AuthConfig::Basic { username, password } => r@ == "Basic "@ + base64_standard(
                    username@ + ":"@ + password@,
                ),
            },
    {
        match self {
            AuthConfig::Bearer(token) => concat_str("Bearer ", token.as_str()),
            AuthConfig::Basic { username, password } => {
                let user_colon = concat_str(username.as_str(), ":");
                let credentials = concat_str(user_colon.as_str(), password.as_str());
                let encoded = base64_encode(credentials.as_str());
                concat_str("Basic ", encoded.as_str())
            },
        }
    }
}

#[verifier::external_type_specification]
#[verifier::external_body]
pub struct ExUri(http::Uri);

/// What `http::Uri`'s parser reports for a text: `None` when it parses, else the
/// text of the `InvalidUri` error.
pub uninterp spec fn uri_parse_error(s: Seq<char>) -> Option<Seq<char>>;

/// Calls `str::parse::<http::Uri>` and turns an `InvalidUri` into its text.
/// Claims only that success and the error text are functions of the input.
#[verifier::external_body]
fn parse_uri(s: &str) -> (r: Result<http::Uri, String>)
    ensures
        match r {
            Ok(_) => uri_parse_error(s@) is None,
            Err(m) => uri_parse_error(s@) == Some(m@),
        },
{
    s.parse::<http::Uri>().map_err(|e| e.to_string())
}

/// Source for registry data.
#[derive(Debug)]
pub enum RegistrySource {
    /// Load from a local file, by its path.
    File(String),
    /// Load from an HTTP(S) URL.
    Http { url: http::Uri, auth: Option<AuthConfig> },
}

/// Client settings for fetching the registry: its source and refresh interval.
#[derive(Debug)]
pub struct RegistryClient {
    source: RegistrySource,
    refresh_interval: Duration,
}

impl RegistryClient {
    /// The configured source.
    pub closed spec fn source_view(&self) -> RegistrySource {
        self.source
    }

    /// The configured refresh interval.
    pub closed spec fn interval_view(&self) -> Duration {
        self.refresh_interval
    }

    /// A client for `source`, refreshed every `refresh_interval`.
    pub fn new(source: RegistrySource, refresh_interval: Duration) -> (c: RegistryClient)
        ensures
            c.source_view() == source,
            c.interval_view() == refresh_interval,
    {
        RegistryClient { source, refresh_interval }
    }

    /// A client from a source URI: `file://<path>` reads the file at `<path>`;
    /// `http://` and `https://` URIs are fetched over HTTP with `auth`. Any other
    /// scheme is an `InvalidSource` error, and so is an HTTP URI that does not parse.
    pub fn from_uri(uri: &str, refresh_interval: Duration, auth: Option<AuthConfig>) -> (r: Result<
        RegistryClient,
        RegistryError,
    >)
        ensures
            has_prefix(uri@, "file://"@) ==> (r matches Ok(c) && c.source_view() matches RegistrySource::File(p)
                && p@ == uri@.skip(7) && c.interval_view() == refresh_interval),
            (!has_prefix(uri@, "file://"@) && (has_prefix(uri@, "http://"@) || has_prefix(uri@, "https://"@)))
                ==> match uri_parse_error(uri@) {
                None => r matches Ok(c) && c.source_view() matches RegistrySource::Http { auth: a, .. }
                    && a == auth && c.interval_view() == refresh_interval,
                Some(e) => r matches Err(RegistryError::InvalidSource(m)) && m@ == "invalid URL: "@ + e,
            },
            (!has_prefix(uri@, "file://"@) && !has_prefix(uri@, "http://"@) && !has_prefix(uri@, "https://"@))
                ==> (r matches Err(RegistryError::InvalidSource(m)) && m@ == "unsupported URI scheme: "@ + uri@),
    {
        let chars = str_to_chars(uri);
        proof {
            reveal_strlit("file://");
        }
        if starts_with_chars(&chars, "file://") {
            let path = slice_to_string(chars.as_slice(), 7, chars.len());
            return Ok(RegistryClient::new(RegistrySource::File(path), refresh_interval));
        }
        if starts_with_chars(&chars, "http://") || starts_with_chars(&chars, "https://") {
            match parse_uri(uri) {
                Ok(url) => Ok(RegistryClient::new(RegistrySource::Http { url, auth }, refresh_interval)),
                Err(e) => Err(RegistryError::InvalidSource(concat_str("invalid URL: ", e.as_str()))),
            }
        } else {
            Err(RegistryError::InvalidSource(concat_str("unsupported URI scheme: ", uri)))
        }
    }

    /// The configured source.
    pub fn source(&self) -> (r: &RegistrySource)
        ensures
            *r == self.source_view(),
    {
        &self.source
    }

    /// The configured refresh interval.
    pub fn refresh_interval(&self) -> (r: Duration)
        ensures
            r == self.interval_view(),
    {
        self.refresh_interval
    }

    /// Whether the source is a local file.
    pub fn is_file_source(&self) -> (r: bool)
        ensures
            r == (self.source_view() is File),
    {
        match &self.source {
            RegistrySource::File(_) => true,
            RegistrySource::Http { .. } => false,
        }
    }

    /// The file path, for a file source.
    pub fn file_path(&self) -> (r: Option<&String>)
        ensures
            match self.source_view() {
                RegistrySource::File(p) => r == Some(&p),
                RegistrySource::Http { .. } => r is None,
            },
    {
        match &self.source {
            RegistrySource::File(p) => Some(p),
            RegistrySource::Http { .. } => None,
        }
    }
}

} // verus!
