//! Endpoints, probe results, and the probe engine's decision policy: URL
//! normalization, the HEAD-then-GET fallback, and outcome classification.
//! The network attempts themselves happen outside the library; the driver
//! feeds each attempt's outcome back in as an [`AttemptOutcome`].

use vstd::prelude::*;
use vstd::string::StrSliceExecFns;
use vstd::string::StringExecFns;
use crate::app::LogLevel;

verus! {

/// A monitored URL with a stable identifier.
#[derive(Debug, Clone)]
pub struct Endpoint {
    pub id: u128,
    pub url: String,
}

/// The recorded outcome of one probe: up or down, how long the probe took,
/// and when it concluded (seconds since the Unix epoch).
#[derive(Debug, Clone, Copy, PartialEq, Eq, Structural)]
pub struct PingResult {
    pub endpoint_id: u128,
    pub status: bool,
    pub latency_ms: u64,
    pub timestamp: u64,
}

/// How one HTTP attempt against an endpoint ended.
#[derive(Debug, Clone, Copy, PartialEq, Eq, Structural)]
pub enum AttemptOutcome {
    /// The server answered with an HTTP status code.
    Response { code: u16 },
    /// The attempt exceeded its timeout window.
    TimedOut,
    /// The attempt failed at the transport level before any response.
    TransportFailed,
}

/// What to do once the HEAD attempt has ended.
#[derive(Debug, Clone, Copy, PartialEq, Eq, Structural)]
pub enum ProbePlan {
    /// The probe is over, recording the given status.
    Conclude { status: bool },
    /// The attempt timed out: retry once with GET.
    FallbackToGet,
}

/// `p` is an initial segment of `s`.
pub open spec fn has_prefix(s: Seq<char>, p: Seq<char>) -> bool {
    p.len() <= s.len() && s.subrange(0, p.len() as int) == p
}

/// The URL a probe actually targets: unchanged when it already carries an
/// `http://` or `https://` scheme, otherwise prefixed with `http://`.
pub open spec fn spec_normalized_url(u: Seq<char>) -> Seq<char> {
    if has_prefix(u, "http://"@) || has_prefix(u, "https://"@) {
        u
    } else {
        "http://"@ + u
    }
}

/// An HTTP status code that counts as success: the 2xx range.
pub open spec fn spec_is_success_code(code: u16) -> bool {
    200 <= code < 300
}

/// Whether a probe whose final attempt ended in `o` counts as up: only an
/// actual response with a 2xx code does. A non-2xx response is a completed
/// probe that is down; a timeout or transport failure is down as well.
pub open spec fn spec_outcome_status(o: AttemptOutcome) -> bool {
    match o {
        AttemptOutcome::Response { code } => spec_is_success_code(code),
        AttemptOutcome::TimedOut => false,
        AttemptOutcome::TransportFailed => false,
    }
}

/// The decision after the HEAD attempt: any response concludes the probe
/// (2xx up, anything else down); only a timeout falls back to a GET attempt;
/// a transport failure concludes the probe as down.
pub open spec fn spec_plan_after_head(o: AttemptOutcome) -> ProbePlan {
    match o {
        AttemptOutcome::Response { code } => ProbePlan::Conclude {
            status: spec_is_success_code(code),
        },
        AttemptOutcome::TimedOut => ProbePlan::FallbackToGet,
        AttemptOutcome::TransportFailed => ProbePlan::Conclude { status: false },
    }
}

/// Log severity for a concluded probe, from its final attempt: a 2xx
/// response is a success, any other response a warning, and a timeout or
/// transport failure an error.
pub open spec fn spec_probe_log_level(o: AttemptOutcome) -> LogLevel {
    match o {
        AttemptOutcome::Response { code } => if spec_is_success_code(code) {
            LogLevel::Success
        } else {
            LogLevel::Warning
        },
        AttemptOutcome::TimedOut => LogLevel::Error,
        AttemptOutcome::TransportFailed => LogLevel::Error,
    }
}

fn str_has_prefix(s: &str, p: &str) -> (r: bool)
    ensures
        r == has_prefix(s@, p@),
{
    let n = p.unicode_len();
    let m = s.unicode_len();
    if n > m {
        return false;
    }
    let mut i: usize = 0;
    while i < n
        invariant
            i <= n,
            n == p@.len(),
            m == s@.len(),
            n <= m,
            forall|j: int| 0 <= j < i ==> s@[j] == p@[j],
        decreases n - i,
    {
        if s.get_char(i) != p.get_char(i) {
            proof {
                if has_prefix(s@, p@) {
                    assert(s@.subrange(0, p@.len() as int)[i as int] == p@[i as int]);
                }
            }
            return false;
        }
        i += 1;
    }
    proof {
        assert(s@.subrange(0, p@.len() as int) =~= p@);
    }
    true
}

/// Prefixes `http://` when the URL names no scheme, so that a bare host
/// such as `example.com` is probed over plain HTTP.
pub fn normalize_url(url: &String) -> (r: String)
    ensures
        r@ == spec_normalized_url(url@),
{
    if str_has_prefix(url.as_str(), "http://") || str_has_prefix(url.as_str(), "https://") {
        url.clone()
    } else {
        String::from_str("http://").concat(url.as_str())
    }
}

/// Classifies the 2xx range.
pub fn is_success_code(code: u16) -> (r: bool)
    ensures
        r == spec_is_success_code(code),
{
    200 <= code && code < 300
}

/// The decision after the HEAD attempt; see [`spec_plan_after_head`].
pub fn plan_after_head(o: &AttemptOutcome) -> (r: ProbePlan)
    ensures
        r == spec_plan_after_head(*o),
{
    match o {
        AttemptOutcome::Response { code } => ProbePlan::Conclude { status: is_success_code(*code) },
        AttemptOutcome::TimedOut => ProbePlan::FallbackToGet,
        AttemptOutcome::TransportFailed => ProbePlan::Conclude { status: false },
    }
}

/// Whether a probe ending in `o` counts as up; see [`spec_outcome_status`].
/// After a GET fallback this is the probe's concluded status.
pub fn outcome_status(o: &AttemptOutcome) -> (r: bool)
    ensures
        r == spec_outcome_status(*o),
{
    match o {
        AttemptOutcome::Response { code } => is_success_code(*code),
        AttemptOutcome::TimedOut => false,
        AttemptOutcome::TransportFailed => false,
    }
}

/// Log severity for a concluded probe; see [`spec_probe_log_level`].
pub fn probe_log_level(o: &AttemptOutcome) -> (r: LogLevel)
    ensures
        r == spec_probe_log_level(*o),
{
    match o {
        AttemptOutcome::Response { code } => if is_success_code(*code) {
            LogLevel::Success
        } else {
            LogLevel::Warning
        },
        AttemptOutcome::TimedOut => LogLevel::Error,
        AttemptOutcome::TransportFailed => LogLevel::Error,
    }
}

/// The result recorded for a probe whose final attempt ended in `outcome`,
/// with the elapsed latency and the time of conclusion.
pub fn probe_result(endpoint_id: u128, outcome: &AttemptOutcome, latency_ms: u64, now: u64) -> (r:
    PingResult)
    ensures
        r.endpoint_id == endpoint_id,
        r.status == spec_outcome_status(*outcome),
        r.latency_ms == latency_ms,
        r.timestamp == now,
{
    PingResult { endpoint_id, status: outcome_status(outcome), latency_ms, timestamp: now }
}

/// Relies on `uuid::Uuid::new_v4`, a randomly generated version-4 UUID,
/// read out as an integer with `Uuid::as_u128`. The value is random, so
/// nothing is promised of it.
#[verifier::external_body]
pub(crate) fn fresh_endpoint_id() -> u128 {
    uuid::Uuid::new_v4().as_u128()
}

impl Endpoint {
    /// A new endpoint for `url` under a freshly generated identifier.
    pub fn with_fresh_id(url: String) -> (e: Endpoint)
        ensures
            e.url == url,
    {
        Endpoint { id: fresh_endpoint_id(), url }
    }
}

} // verus!
