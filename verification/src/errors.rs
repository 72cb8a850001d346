//! Error kinds and their dispositions.
//!
//! Each kind carries a fixed policy: whether the client gets a reply and
//! with which response code, and what the pipeline does internally.
//! Internal error structure never crosses the wire; clients see only
//! standard response codes.

use vstd::prelude::*;
use crate::pipeline::{RCODE_FORMERR, RCODE_SERVFAIL};

verus! {

/// What went wrong while handling a query or maintaining shared state.
#[derive(Clone, Copy, PartialEq, Eq, Structural, Debug)]
pub enum ErrorKind {
    /// Malformed inbound datagram.
    ParseError,
    /// Well-formed but unsupported, such as a question count other than
    /// one.
    FormatError,
    /// The first threat-feed load failed.
    ThreatIndexUnavailable,
    /// A single upstream attempt exceeded its timeout.
    UpstreamTimeout,
    /// Every upstream attempt was exhausted.
    UpstreamUnavailable,
    /// The single-flight filler failed.
    CacheAbort,
    /// The pipeline-wide deadline passed.
    DeadlineExceeded,
    /// The telemetry queue was full.
    TelemetryDropped,
}

/// What the pipeline does with an error.
#[derive(Clone, Copy, PartialEq, Eq, Structural, Debug)]
pub enum Disposition {
    /// Drop silently and count.
    SilentDrop,
    /// Reply FORMERR and record.
    ReplyFormerr,
    /// Keep serving with an empty index and log.
    RunWithEmptyIndex,
    /// Retry the next upstream step.
    RetryAttempt,
    /// Reply SERVFAIL, record, and cool the endpoint down.
    ReplyServfail,
    /// Waiters get the failure; each may re-enter the pipeline once.
    WaiterRetriesOnce,
    /// Send no reply; record with a timeout code.
    NoReply,
    /// Count only; never surfaces to the client.
    CountOnly,
}

/// The fixed disposition of each error kind.
pub open spec fn spec_disposition(k: ErrorKind) -> Disposition {
    match k {
        ErrorKind::ParseError => Disposition::SilentDrop,
        ErrorKind::FormatError => Disposition::ReplyFormerr,
        ErrorKind::ThreatIndexUnavailable => Disposition::RunWithEmptyIndex,
        ErrorKind::UpstreamTimeout => Disposition::RetryAttempt,
        ErrorKind::UpstreamUnavailable => Disposition::ReplyServfail,
        ErrorKind::CacheAbort => Disposition::WaiterRetriesOnce,
        ErrorKind::DeadlineExceeded => Disposition::NoReply,
        ErrorKind::TelemetryDropped => Disposition::CountOnly,
    }
}

/// Look up an error's disposition.
pub fn disposition_of(k: ErrorKind) -> (r: Disposition)
    ensures
        r == spec_disposition(k),
{
    match k {
        ErrorKind::ParseError => Disposition::SilentDrop,
        ErrorKind::FormatError => Disposition::ReplyFormerr,
        ErrorKind::ThreatIndexUnavailable => Disposition::RunWithEmptyIndex,
        ErrorKind::UpstreamTimeout => Disposition::RetryAttempt,
        ErrorKind::UpstreamUnavailable => Disposition::ReplyServfail,
        ErrorKind::CacheAbort => Disposition::WaiterRetriesOnce,
        ErrorKind::DeadlineExceeded => Disposition::NoReply,
        ErrorKind::TelemetryDropped => Disposition::CountOnly,
    }
}

/// The response code a client sees for an error, if any: FORMERR for an
/// unsupported question, SERVFAIL for exhausted upstreams, nothing
/// otherwise.
pub fn reply_rcode(k: ErrorKind) -> (r: Option<u8>)
    ensures
        k == ErrorKind::FormatError ==> r == Some(RCODE_FORMERR),
        k == ErrorKind::UpstreamUnavailable ==> r == Some(RCODE_SERVFAIL),
        k != ErrorKind::FormatError && k != ErrorKind::UpstreamUnavailable ==> r is None,
{
    match k {
        ErrorKind::FormatError => Some(RCODE_FORMERR),
        ErrorKind::UpstreamUnavailable => Some(RCODE_SERVFAIL),
        _ => None,
    }
}

} // verus!
