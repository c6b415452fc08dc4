//! The per-request decision engine: one call per intercepted request that
//! classifies the host, counts a Block, builds the audit record, and chooses
//! between passing the request through and answering it with the fixed
//! synthetic block response.

use vstd::prelude::*;
use vstd::string::StringExecFns;
use crate::policy::{Decision, PolicyConfig, spec_classify, spec_step};

verus! {

/// The status of the synthetic response a Block decision is answered with.
pub const BLOCKED_STATUS: u16 = 403;

/// One immutable audit record, built once per intercepted request and then
/// either delivered to live subscribers or discarded.
pub struct LogEntry {
    pub timestamp: String,
    pub src_ip: String,
    pub domain: String,
    pub action: Decision,
    pub method: String,
    pub url_path: String,
    pub user_agent: Option<String>,
}

impl Clone for LogEntry {
    fn clone(&self) -> (res: Self)
        ensures
            res == *self,
    {
        LogEntry {
            timestamp: self.timestamp.clone(),
            src_ip: self.src_ip.clone(),
            domain: self.domain.clone(),
            action: self.action,
            method: self.method.clone(),
            url_path: self.url_path.clone(),
            user_agent: match &self.user_agent {
                Some(ua) => Some(ua.clone()),
                None => None,
            },
        }
    }
}

/// What the interception layer hands over about one request, as plain values.
pub struct RequestMeta {
    pub src_ip: String,
    /// `None` when the request host cannot be determined.
    pub host: Option<String>,
    pub method: String,
    pub url_path: String,
    pub user_agent: Option<String>,
}

/// The sentinel standing in for a host that could not be determined; it will
/// not ordinarily match a configured domain, so such requests default to
/// Allow.
pub open spec fn spec_unknown_host() -> Seq<char> {
    "unknown"@
}

impl RequestMeta {
    /// The host the decision is made on: the request host, or the sentinel.
    pub open spec fn host_view(&self) -> Seq<char> {
        match self.host {
            Some(h) => h@,
            None => spec_unknown_host(),
        }
    }
}

/// What the proxy does with the request once it is decided.
pub enum RequestAction {
    /// Pass the original request through unmodified, to be forwarded
    /// upstream.
    Forward,
    /// Discard the request and answer with this synthetic response; no
    /// upstream connection is attempted.
    Respond { status: u16, body: String },
}

/// The fixed literal body of the synthetic block response.
pub open spec fn spec_blocked_body() -> Seq<char> {
    "Blocked by SASE Pro"@
}

/// Relies on `chrono::Local::now` and chrono's `format` with `"%H:%M:%S"`:
/// the current wall-clock time rendered as text. The result depends on the
/// clock, so nothing is stated of it.
#[verifier::external_body]
fn now_timestamp() -> (r: String) {
    chrono::Local::now().format("%H:%M:%S").to_string()
}

/// The interception hook for one request. Under the caller's exclusive hold
/// of the store it classifies the host and counts a Block, then builds the
/// audit record (one per request, whatever the outcome) and the action: on
/// Block, the fixed 403 response with the fixed body, the request discarded;
/// on Allow, the original request passed through unmodified.
pub fn handle_request(config: &mut PolicyConfig, meta: &RequestMeta) -> (outcome: (
    RequestAction,
    LogEntry,
))
    requires
        old(config).stats_blocked_today < u64::MAX,
    ensures
        final(config)@ == spec_step(old(config)@, meta.host_view()),
        outcome.1.action == spec_classify(meta.host_view(), old(config)@.blocked_domains),
        outcome.1.domain@ == meta.host_view(),
        outcome.1.src_ip == meta.src_ip,
        outcome.1.method == meta.method,
        outcome.1.url_path == meta.url_path,
        outcome.1.user_agent == meta.user_agent,
        (outcome.1.action == Decision::Block) <==> (outcome.0 matches RequestAction::Respond {
            status,
            body,
        } && status == BLOCKED_STATUS && body@ == spec_blocked_body()),
        (outcome.1.action == Decision::Allow) <==> outcome.0 == RequestAction::Forward,
{
    let host_str: &str = match &meta.host {
        Some(h) => h.as_str(),
        None => "unknown",
    };
    let decision = config.classify_and_count(host_str);
    let entry = LogEntry {
        timestamp: now_timestamp(),
        src_ip: meta.src_ip.clone(),
        domain: String::from_str(host_str),
        action: decision,
        method: meta.method.clone(),
        url_path: meta.url_path.clone(),
        user_agent: match &meta.user_agent {
            Some(ua) => Some(ua.clone()),
            None => None,
        },
    };
    let action = if decision == Decision::Block {
        RequestAction::Respond {
            status: BLOCKED_STATUS,
            body: String::from_str("Blocked by SASE Pro"),
        }
    } else {
        RequestAction::Forward
    };
    (action, entry)
}

} // verus!
