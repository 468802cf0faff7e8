//! Per-request decisions of the proxy and static routes.
//!
//! The proxy route issues one outbound GET per inbound request. The
//! outbound call itself is I/O and lives outside this crate; everything
//! decided around it is here: validating the configured upstream URL,
//! decoding the upstream body, re-serializing the record, and mapping
//! each per-request fault to an HTTP reply instead of crashing the
//! process.

use crate::config::RelayConfig;
use crate::decode::decode_io_call;
use crate::encode::encode_io_call;
use crate::json::{decode_record_spec, encode_record_spec};
use crate::record::IOCall;
use vstd::prelude::*;

verus! {

#[verifier::external_type_specification]
#[verifier::external_body]
pub struct ExUri(hyper::Uri);

/// Whether hyper's URI grammar accepts the text.
pub uninterp spec fn uri_accepted(s: Seq<char>) -> bool;

/// Relies on hyper::Uri::try_from of a string slice: whether the text
/// parses as a URI depends on the text alone.
#[verifier::external_body]
fn parse_uri(s: &str) -> (r: Option<hyper::Uri>)
    ensures
        r is Some <==> uri_accepted(s@),
{
    match hyper::Uri::try_from(s) {
        Ok(u) => Option::Some(u),
        Err(_) => Option::None,
    }
}

/// Parses the configured upstream endpoint into a request target, anew on
/// every call. `None` exactly when the configured text is no URI; the
/// caller then answers with the misconfiguration reply instead of
/// crashing the request's task.
pub fn upstream_target(cfg: &RelayConfig) -> (r: Option<hyper::Uri>)
    ensures
        r is Some <==> uri_accepted(cfg.external_url@),
{
    parse_uri(cfg.external_url.as_str())
}

/// How a reply body is labelled.
pub enum ContentKind {
    Json,
    PlainText,
}

/// One HTTP reply, ready for the server layer to send.
pub struct HttpReply {
    pub status: u16,
    pub kind: ContentKind,
    pub body: String,
}

/// What one outbound upstream call came back with: the full aggregated
/// body as text, a body that is no text at all, or a transport failure
/// (connection, DNS, timeout).
pub enum UpstreamOutcome {
    Delivered(String),
    BodyUnreadable,
    TransportFailed,
}

/// Body of the static route's reply.
pub open spec fn static_body() -> Seq<char> {
    "Hello, World!"@
}

/// Reply of the static route: always the same text, whatever happened to
/// any other request before.
pub fn static_reply() -> (r: HttpReply)
    ensures
        r.status == 200,
        r.kind == ContentKind::PlainText,
        r.body@ == static_body(),
{
    HttpReply { status: 200, kind: ContentKind::PlainText, body: "Hello, World!".to_owned() }
}

/// Reply body when the outbound call itself failed.
pub open spec fn transport_error_body() -> Seq<char> {
    "upstream request failed"@
}

/// Reply body when the upstream body was no JSON record.
pub open spec fn decode_error_body() -> Seq<char> {
    "upstream body was not a JSON record"@
}

/// Reply body when the configured upstream URL does not parse.
pub open spec fn misconfig_body() -> Seq<char> {
    "EXTERNAL_URL is not a valid URL"@
}

/// Reply of the proxy route when the configured upstream URL does not
/// parse: a misconfiguration, not the upstream's fault.
pub fn misconfig_reply() -> (r: HttpReply)
    ensures
        r.status == 500,
        r.kind == ContentKind::PlainText,
        r.body@ == misconfig_body(),
{
    HttpReply {
        status: 500,
        kind: ContentKind::PlainText,
        body: "EXTERNAL_URL is not a valid URL".to_owned(),
    }
}

/// Reply of the proxy route for one upstream outcome. A delivered body
/// that decodes is re-serialized and answered with 200; a body that does
/// not decode, and a failed outbound call, each fail only this request,
/// with 502.
pub fn relay_reply(outcome: UpstreamOutcome) -> (r: HttpReply)
    ensures
        match outcome {
            UpstreamOutcome::Delivered(b) => match decode_record_spec(b@) {
                Option::Some(v) => r.status == 200 && r.kind == ContentKind::Json && r.body@
                    == encode_record_spec(v),
                Option::None => r.status == 502 && r.kind == ContentKind::PlainText && r.body@
                    == decode_error_body(),
            },
            UpstreamOutcome::BodyUnreadable => r.status == 502 && r.kind == ContentKind::PlainText
                && r.body@ == decode_error_body(),
            UpstreamOutcome::TransportFailed => r.status == 502 && r.kind == ContentKind::PlainText
                && r.body@ == transport_error_body(),
        },
{
    match outcome {
        UpstreamOutcome::Delivered(b) => match decode_io_call(b.as_str()) {
            Option::Some(rec) => HttpReply {
                status: 200,
                kind: ContentKind::Json,
                body: encode_io_call(&rec),
            },
            Option::None => HttpReply {
                status: 502,
                kind: ContentKind::PlainText,
                body: "upstream body was not a JSON record".to_owned(),
            },
        },
        UpstreamOutcome::BodyUnreadable => HttpReply {
            status: 502,
            kind: ContentKind::PlainText,
            body: "upstream body was not a JSON record".to_owned(),
        },
        UpstreamOutcome::TransportFailed => HttpReply {
            status: 502,
            kind: ContentKind::PlainText,
            body: "upstream request failed".to_owned(),
        },
    }
}

} // verus!
