//! The per-connection rules of the worker side: what to do with each frame
//! read from the supervisor, and how often finished jobs are evicted.
use vstd::prelude::*;

use crate::framing::Frame;
use crate::protocol::WireRequest;

verus! {

/// Finished jobs kept by the periodic eviction.
pub const GC_KEEP: usize = 50;

/// Seconds between two periodic evictions.
pub const GC_PERIOD_SECS: u64 = 60;

/// What the read loop of a connection does with what it read.
pub enum Inbound {
    /// A request: dispatch it and send back the response.
    Dispatch(WireRequest),
    /// A frame a worker never receives (a response or an event): ignore it.
    Ignore,
    /// The stream could not be decoded: close the connection.
    Close,
}

/// Routes one read result: requests are dispatched, other frames ignored,
/// and an undecodable stream (`None`) closes the connection.
pub fn route_inbound(read: Option<Frame>) -> (action: Inbound)
    ensures
        match read {
            Some(Frame::Request(r)) => action == Inbound::Dispatch(r),
            Some(_) => action is Ignore,
            None => action is Close,
        },
{
    match read {
        Some(Frame::Request(r)) => Inbound::Dispatch(r),
        Some(_) => Inbound::Ignore,
        None => Inbound::Close,
    }
}

} // verus!
