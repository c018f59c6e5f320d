//! Wire envelopes and control-plane message shapes shared with the supervisor.
//!
//! Events carry three fields — `type`, `job_id` and a nested `payload` — so
//! that the supervisor sees the job data as one raw body, not flattened.
use vstd::prelude::*;

use crate::json::{JsonValue, JsonView};

verus! {

/// Structured RPC error: a machine-readable code, a message, and an optional
/// detail (omitted on the wire when empty).
#[derive(Debug, Clone, PartialEq)]
pub struct ErrorPayload {
    pub code: String,
    pub message: String,
    pub detail: String,
}

/// An RPC request: its id, the method name and optional parameters.
#[derive(Debug, Clone, PartialEq)]
pub struct WireRequest {
    pub id: String,
    pub method: String,
    pub params: Option<JsonValue>,
}

/// An RPC response: the id of the request it answers, whether it succeeded,
/// and either an error or a payload.
#[derive(Debug, Clone, PartialEq)]
pub struct WireResponse {
    pub id: String,
    pub ok: bool,
    pub error: Option<ErrorPayload>,
    pub payload: Option<JsonValue>,
}

/// An unsolicited job event pushed to the supervisor.
#[derive(Debug, Clone, PartialEq)]
pub struct WireEvent {
    pub event_type: String,
    pub job_id: String,
    pub payload: Option<JsonValue>,
}

/// Parameters of `cancel_job`.
#[derive(Debug, Clone, PartialEq)]
pub struct CancelJobParams {
    pub job_id: String,
}

/// Parameters of `job_status`.
#[derive(Debug, Clone, PartialEq)]
pub struct JobStatusParams {
    pub job_id: String,
}

/// Payload shape of a `health` response.
#[derive(Debug, Clone, PartialEq)]
pub struct HealthResponse {
    pub status: String,
    pub active_jobs: i32,
    pub uptime_secs: i64,
    pub pid: i32,
    pub version: String,
}

/// Payload shape of a `capabilities` response.
#[derive(Debug, Clone, PartialEq)]
pub struct CapabilitiesResponse {
    pub version: String,
    pub protocol_version: i32,
    pub features: Vec<String>,
    pub max_concurrent_jobs: i32,
    pub encoding: String,
}

/// Payload shape of a `ping` response.
#[derive(Debug, Clone, PartialEq)]
pub struct PongPayload {
    pub pong: bool,
}

/// The abstract content of an [`ErrorPayload`].
pub struct ErrorView {
    pub code: Seq<char>,
    pub message: Seq<char>,
    pub detail: Seq<char>,
}

/// The abstract content of a [`WireRequest`].
pub struct RequestView {
    pub id: Seq<char>,
    pub method: Seq<char>,
    pub params: Option<JsonView>,
}

/// The abstract content of a [`WireResponse`].
pub struct ResponseView {
    pub id: Seq<char>,
    pub ok: bool,
    pub error: Option<ErrorView>,
    pub payload: Option<JsonView>,
}

/// The abstract content of a [`WireEvent`].
pub struct EventView {
    pub event_type: Seq<char>,
    pub job_id: Seq<char>,
    pub payload: Option<JsonView>,
}

/// The view of an optional JSON value.
pub open spec fn opt_json_view(v: Option<JsonValue>) -> Option<JsonView> {
    match v {
        Some(j) => Some(j@),
        None => None,
    }
}

impl View for ErrorPayload {
    type V = ErrorView;

    open spec fn view(&self) -> ErrorView {
        ErrorView { code: self.code@, message: self.message@, detail: self.detail@ }
    }
}

impl View for WireRequest {
    type V = RequestView;

    open spec fn view(&self) -> RequestView {
        RequestView { id: self.id@, method: self.method@, params: opt_json_view(self.params) }
    }
}

impl View for WireResponse {
    type V = ResponseView;

    open spec fn view(&self) -> ResponseView {
        ResponseView {
            id: self.id@,
            ok: self.ok,
            error: match self.error {
                Some(e) => Some(e@),
                None => None,
            },
            payload: opt_json_view(self.payload),
        }
    }
}

impl View for WireEvent {
    type V = EventView;

    open spec fn view(&self) -> EventView {
        EventView {
            event_type: self.event_type@,
            job_id: self.job_id@,
            payload: opt_json_view(self.payload),
        }
    }
}

} // verus!
