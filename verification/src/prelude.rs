//! Narrow re-exports for small worker binaries.

pub use crate::dispatcher::{err_response, ok_response, unknown_method};
pub use crate::framing::Encoding;
pub use crate::json::JsonValue;
pub use crate::protocol::ErrorPayload;
