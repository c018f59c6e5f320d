//! Rust-side building blocks for Forge worker processes: the wire framing,
//! the message model, the job registry and the control plane of the worker
//! IPC protocol spoken with a supervisor.
//!
//! - [`framing`]      — length-prefixed frames over a `BytesMut` byte stream.
//! - [`json`]         — the JSON value model carried by requests and responses.
//! - [`protocol`]     — `WireRequest` / `WireResponse` / `WireEvent` and control shapes.
//! - [`cancel`]       — cancel tokens and the receipt of a fired one.
//! - [`job_registry`] — job tracking with cancel tokens and event routing.
//! - [`dispatcher`]   — control-plane handling and response helpers.
//! - [`connection`]   — per-connection routing and eviction policy.
//! - [`prelude`]      — the items small workers need most.

pub mod cancel;
pub mod connection;
pub mod dispatcher;
pub mod framing;
pub mod job_registry;
pub mod json;
pub mod prelude;
pub mod protocol;
pub mod text;

pub use dispatcher::{err_response, ok_response, unknown_method};
pub use framing::{
    Encoding, Frame, FrameCodec, KIND_EVENT, KIND_REQUEST, KIND_RESPONSE, MAX_FRAME_PAYLOAD,
};
pub use job_registry::{
    cancel_pair, CancelSignal, CancelToken, EventSender, JobRegistry, JobState, JobStatus,
};
