//! Per-connection routing of frames read from the supervisor.

use forge_worker_sdk::connection::{route_inbound, Inbound, GC_KEEP, GC_PERIOD_SECS};
use forge_worker_sdk::framing::Frame;
use forge_worker_sdk::protocol::{WireEvent, WireRequest, WireResponse};

#[test]
fn requests_are_dispatched_others_ignored_errors_close() {
    let r = WireRequest { id: "1".into(), method: "ping".into(), params: None };
    match route_inbound(Some(Frame::Request(r.clone()))) {
        Inbound::Dispatch(got) => assert_eq!(got, r),
        _ => panic!("a request must be dispatched"),
    }
    let resp = WireResponse { id: "1".into(), ok: true, error: None, payload: None };
    assert!(matches!(route_inbound(Some(Frame::Response(resp))), Inbound::Ignore));
    let ev = WireEvent { event_type: "t".into(), job_id: "j".into(), payload: None };
    assert!(matches!(route_inbound(Some(Frame::Event(ev))), Inbound::Ignore));
    assert!(matches!(route_inbound(None), Inbound::Close));
}

#[test]
fn eviction_policy() {
    assert_eq!(GC_KEEP, 50);
    assert_eq!(GC_PERIOD_SECS, 60);
}
