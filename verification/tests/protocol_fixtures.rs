//! The control-plane contract: each request of the protocol catalog against
//! the response the catalog gives for it (`uptime_secs` and `pid` of `health`
//! left out of the comparison, as they vary).

use forge_worker_sdk::dispatcher::{dispatch_control, ControlOutcome, WorkerInfo};
use forge_worker_sdk::job_registry::{Job, JobRegistry};
use forge_worker_sdk::json::JsonValue;
use forge_worker_sdk::protocol::{ErrorPayload, WireRequest, WireResponse};
use forge_worker_sdk::{cancel_pair, unknown_method, Encoding};
use tokio::sync::mpsc;

fn fixture_info() -> WorkerInfo {
    WorkerInfo {
        version: "0.1.0".to_string(),
        features: vec!["hash.xxh64".to_string()],
        max_concurrent_jobs: 1,
        encoding: Encoding::Msgpack,
        uptime_secs: 123,
        pid: 1234,
    }
}

fn obj(entries: Vec<(&str, JsonValue)>) -> JsonValue {
    JsonValue::Object(entries.into_iter().map(|(k, v)| (k.to_string(), v)).collect())
}

fn s(v: &str) -> JsonValue {
    JsonValue::from_str(v)
}

fn req(id: &str, method: &str, params: Option<JsonValue>) -> WireRequest {
    WireRequest { id: id.to_string(), method: method.to_string(), params }
}

fn ok(id: &str, payload: JsonValue) -> WireResponse {
    WireResponse { id: id.to_string(), ok: true, error: None, payload: Some(payload) }
}

fn not_found(id: &str, message: &str) -> WireResponse {
    WireResponse {
        id: id.to_string(),
        ok: false,
        error: Some(ErrorPayload {
            code: "JOB_NOT_FOUND".to_string(),
            message: message.to_string(),
            detail: String::new(),
        }),
        payload: None,
    }
}

fn dispatch(reg: &mut JobRegistry, r: WireRequest) -> WireResponse {
    match dispatch_control(&r, reg, &fixture_info()) {
        ControlOutcome::Reply(resp) => resp,
        ControlOutcome::Shutdown { response, .. } => response,
        ControlOutcome::Product => unknown_method(&r.id, &r.method),
    }
}

fn register_job_123(reg: &mut JobRegistry) {
    let (event_tx, _rx) = mpsc::unbounded_channel();
    let (cancel_tx, _sig) = cancel_pair();
    let job = Job::new("job-123".into(), event_tx, cancel_tx);
    reg.register(job).expect("register");
}

fn without(v: JsonValue, keys: &[&str]) -> JsonValue {
    match v {
        JsonValue::Object(es) => JsonValue::Object(
            es.into_iter().filter(|(k, _)| !keys.contains(&k.as_str())).collect(),
        ),
        other => other,
    }
}

#[test]
fn fixture_ping() {
    let mut reg = JobRegistry::new();
    let actual = dispatch(&mut reg, req("req-1", "ping", None));
    assert_eq!(actual, ok("req-1", obj(vec![("pong", JsonValue::Bool(true))])));
}

#[test]
fn fixture_health() {
    let mut reg = JobRegistry::new();
    let actual = dispatch(&mut reg, req("req-2", "health", None));
    let expected = obj(vec![
        ("status", s("ok")),
        ("active_jobs", JsonValue::from_u64(0)),
        ("uptime_secs", JsonValue::from_u64(123)),
        ("pid", JsonValue::from_u64(1234)),
        ("version", s("0.1.0")),
    ]);
    assert_eq!(actual.id, "req-2");
    assert!(actual.ok);
    assert!(actual.error.is_none());
    assert_eq!(
        without(actual.payload.unwrap(), &["uptime_secs", "pid"]),
        without(expected, &["uptime_secs", "pid"])
    );
}

#[test]
fn fixture_capabilities_msgpack() {
    let mut reg = JobRegistry::new();
    let actual = dispatch(&mut reg, req("req-3", "capabilities", None));
    let expected = ok(
        "req-3",
        obj(vec![
            ("version", s("0.1.0")),
            ("protocol_version", JsonValue::from_u64(1)),
            ("features", JsonValue::Array(vec![s("hash.xxh64")])),
            ("max_concurrent_jobs", JsonValue::from_u64(1)),
            ("encoding", s("msgpack")),
        ]),
    );
    assert_eq!(actual, expected);
}

#[test]
fn fixture_shutdown() {
    let mut reg = JobRegistry::new();
    let actual = dispatch(&mut reg, req("req-4", "shutdown", None));
    assert_eq!(actual, ok("req-4", obj(vec![("bye", JsonValue::Bool(true))])));
}

#[test]
fn fixture_cancel_job_ok() {
    let mut reg = JobRegistry::new();
    register_job_123(&mut reg);
    let actual =
        dispatch(&mut reg, req("req-5", "cancel_job", Some(obj(vec![("job_id", s("job-123"))]))));
    let expected =
        ok("req-5", obj(vec![("cancelled", JsonValue::Bool(true)), ("job_id", s("job-123"))]));
    assert_eq!(actual, expected);
}

#[test]
fn fixture_cancel_job_not_found() {
    let mut reg = JobRegistry::new();
    let actual =
        dispatch(&mut reg, req("req-5", "cancel_job", Some(obj(vec![("job_id", s("job-123"))]))));
    assert_eq!(actual, not_found("req-5", "job job-123 not found"));
}

#[test]
fn fixture_job_status_ok() {
    let mut reg = JobRegistry::new();
    register_job_123(&mut reg);
    reg.set_running("job-123");
    reg.update_progress(
        "job-123",
        obj(vec![("phase", s("walk")), ("items_done", JsonValue::from_u64(5000))]),
    );
    let actual =
        dispatch(&mut reg, req("req-6", "job_status", Some(obj(vec![("job_id", s("job-123"))]))));
    let expected = ok(
        "req-6",
        obj(vec![
            ("job_id", s("job-123")),
            ("state", s("running")),
            ("progress", obj(vec![("phase", s("walk")), ("items_done", JsonValue::from_u64(5000))])),
        ]),
    );
    assert_eq!(actual, expected);
}

#[test]
fn fixture_job_status_not_found() {
    let mut reg = JobRegistry::new();
    let actual =
        dispatch(&mut reg, req("req-6", "job_status", Some(obj(vec![("job_id", s("job-123"))]))));
    assert_eq!(actual, not_found("req-6", "job job-123 not found"));
}
