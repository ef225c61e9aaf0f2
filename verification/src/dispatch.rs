//! Dispatcher: turns a finished telemetry record and the filter
//! configuration into the one outbound call that carries the record to
//! the collector. The call itself (asynchronous, fire-and-forget, with a
//! fixed timeout) is issued by the host-facing layer; the library pins
//! down everything the call is made of.

use crate::codec::{encode_telemetry, json_telemetry};
use crate::config::{FilterConfig, FilterConfigModel};
use crate::telemetry::{Telemetry, TelemetryModel};
use vstd::prelude::*;
use vstd::string::StringExecFns;

verus! {

/// How long the outbound call may stay outstanding before it is
/// abandoned, in milliseconds.
pub const DISPATCH_TIMEOUT_MS: u64 = 1000;

/// Everything one outbound collector call is made of.
pub struct DispatchCall {
    pub upstream_name: String,
    pub headers: Vec<(String, String)>,
    pub body: String,
    pub timeout_ms: u64,
}

/// Mathematical view of a [`DispatchCall`].
#[verifier::ext_equal]
pub ghost struct DispatchCallModel {
    pub upstream_name: Seq<char>,
    pub headers: Seq<(Seq<char>, Seq<char>)>,
    pub body: Seq<char>,
    pub timeout_ms: u64,
}

impl View for DispatchCall {
    type V = DispatchCallModel;

    open spec fn view(&self) -> DispatchCallModel {
        DispatchCallModel {
            upstream_name: self.upstream_name@,
            headers: crate::telemetry::headers_view(self.headers@),
            body: self.body@,
            timeout_ms: self.timeout_ms,
        }
    }
}

/// The five headers of the outbound POST: method, authority and path from
/// the configuration, permissive accept, JSON content type.
pub open spec fn dispatch_headers(cfg: FilterConfigModel) -> Seq<(Seq<char>, Seq<char>)> {
    seq![
        (":method"@, "POST"@),
        (":authority"@, cfg.authority),
        (":path"@, cfg.api_path),
        ("accept"@, "*/*"@),
        ("Content-Type"@, "application/json"@),
    ]
}

/// The outbound call a finished record and the configuration determine:
/// addressed to the configured upstream, carrying the canonical JSON text
/// of the record, bounded by the fixed timeout.
pub open spec fn dispatch_call_of(cfg: FilterConfigModel, t: TelemetryModel) -> DispatchCallModel {
    DispatchCallModel {
        upstream_name: cfg.upstream_name,
        headers: dispatch_headers(cfg),
        body: json_telemetry(t),
        timeout_ms: DISPATCH_TIMEOUT_MS,
    }
}

/// Serialize the record and assemble the one outbound call for it.
pub fn build_dispatch(cfg: &FilterConfig, t: &Telemetry) -> (c: DispatchCall)
    ensures
        c@ == dispatch_call_of(cfg@, t@),
{
    let mut headers: Vec<(String, String)> = Vec::new();
    headers.push((String::from_str(":method"), String::from_str("POST")));
    headers.push((String::from_str(":authority"), cfg.authority.clone()));
    headers.push((String::from_str(":path"), cfg.api_path.clone()));
    headers.push((String::from_str("accept"), String::from_str("*/*")));
    headers.push((String::from_str("Content-Type"), String::from_str("application/json")));
    let body = encode_telemetry(t);
    let c = DispatchCall {
        upstream_name: cfg.upstream_name.clone(),
        headers,
        body,
        timeout_ms: DISPATCH_TIMEOUT_MS,
    };
    proof {
        assert(crate::telemetry::headers_view(c.headers@) =~= dispatch_headers(cfg@));
        assert(c@ =~= dispatch_call_of(cfg@, t@));
    }
    c
}

} // verus!
