//! Control-plane handling through `dispatch_control`.

use forge_worker_sdk::dispatcher::{
    dispatch_control, ControlOutcome, ShutdownDelay, WorkerInfo, DEFAULT_SHUTDOWN_DELAY_MS,
    MAX_SHUTDOWN_DELAY_MS,
};
use forge_worker_sdk::job_registry::{Job, JobRegistry};
use forge_worker_sdk::json::{JsonNumber, JsonValue};
use forge_worker_sdk::protocol::{WireRequest, WireResponse};
use forge_worker_sdk::{cancel_pair, unknown_method, Encoding};
use tokio::sync::mpsc;

fn info(encoding: Encoding) -> WorkerInfo {
    WorkerInfo {
        version: "9.9.9-test".to_string(),
        features: vec!["test.stub".to_string()],
        max_concurrent_jobs: 1,
        encoding,
        uptime_secs: 7,
        pid: 4242,
    }
}

fn req(id: &str, method: &str, params: Option<JsonValue>) -> WireRequest {
    WireRequest { id: id.to_owned(), method: method.to_owned(), params }
}

fn obj(entries: Vec<(&str, JsonValue)>) -> JsonValue {
    JsonValue::Object(entries.into_iter().map(|(k, v)| (k.to_string(), v)).collect())
}

fn s(v: &str) -> JsonValue {
    JsonValue::from_str(v)
}

fn u(n: u64) -> JsonValue {
    JsonValue::from_u64(n)
}

/// Stands in for the product handler that the stub worker would call.
fn dispatch(reg: &mut JobRegistry, enc: Encoding, r: WireRequest) -> WireResponse {
    match dispatch_control(&r, reg, &info(enc)) {
        ControlOutcome::Reply(resp) => resp,
        ControlOutcome::Shutdown { response, .. } => response,
        ControlOutcome::Product => unknown_method(&r.id, &r.method),
    }
}

fn register(reg: &mut JobRegistry, id: &str) {
    let (ev_tx, _ev_rx) = mpsc::unbounded_channel();
    let (cancel_tx, _cancel_rx) = cancel_pair();
    reg.register(Job::new(id.into(), ev_tx, cancel_tx)).unwrap();
}

fn delay_of(params: Option<JsonValue>) -> ShutdownDelay {
    let mut reg = JobRegistry::new();
    match dispatch_control(&req("s", "shutdown", params), &mut reg, &info(Encoding::Json)) {
        ControlOutcome::Shutdown { delay, .. } => delay,
        _ => panic!("shutdown must be answered by the control plane"),
    }
}

#[test]
fn ping_returns_pong() {
    let mut reg = JobRegistry::new();
    let r = dispatch(&mut reg, Encoding::Msgpack, req("1", "ping", None));
    assert!(r.ok);
    let p = r.payload.expect("payload");
    assert_eq!(p.get("pong"), Some(&JsonValue::Bool(true)));
}

#[test]
fn health_reports_version_and_counts() {
    let mut reg = JobRegistry::new();
    let r = dispatch(&mut reg, Encoding::Msgpack, req("h", "health", None));
    assert!(r.ok);
    let p = r.payload.expect("payload");
    assert_eq!(p.get("status"), Some(&s("ok")));
    assert_eq!(p.get("active_jobs"), Some(&u(0)));
    assert_eq!(p.get("version"), Some(&s("9.9.9-test")));
    assert!(p.get("uptime_secs").is_some());
    assert!(p.get("pid").is_some());
}

#[test]
fn capabilities_reflect_handler() {
    let mut reg = JobRegistry::new();
    let r = dispatch(&mut reg, Encoding::Msgpack, req("c", "capabilities", None));
    assert!(r.ok);
    let p = r.payload.expect("payload");
    assert_eq!(p.get("protocol_version"), Some(&u(1)));
    assert_eq!(p.get("version"), Some(&s("9.9.9-test")));
    assert_eq!(p.get("features"), Some(&JsonValue::Array(vec![s("test.stub")])));
    assert_eq!(p.get("max_concurrent_jobs"), Some(&u(1)));
    assert_eq!(p.get("encoding"), Some(&s("msgpack")));
}

#[test]
fn capabilities_encoding_matches_negotiated_json() {
    let mut reg = JobRegistry::new();
    let r = dispatch(&mut reg, Encoding::Json, req("c", "capabilities", None));
    assert!(r.ok);
    let p = r.payload.expect("payload");
    assert_eq!(p.get("encoding"), Some(&s("json")));
}

#[test]
fn cancel_job_missing_is_job_not_found() {
    let mut reg = JobRegistry::new();
    let r = dispatch(
        &mut reg,
        Encoding::Msgpack,
        req("x", "cancel_job", Some(obj(vec![("job_id", s("nope"))]))),
    );
    assert!(!r.ok);
    let e = r.error.expect("error");
    assert_eq!(e.code, "JOB_NOT_FOUND");
}

#[test]
fn job_status_missing_is_job_not_found() {
    let mut reg = JobRegistry::new();
    let r = dispatch(
        &mut reg,
        Encoding::Msgpack,
        req("y", "job_status", Some(obj(vec![("job_id", s("missing"))]))),
    );
    assert!(!r.ok);
    let e = r.error.expect("error");
    assert_eq!(e.code, "JOB_NOT_FOUND");
}

#[test]
fn product_method_unknown_via_stub() {
    let mut reg = JobRegistry::new();
    let r = dispatch(&mut reg, Encoding::Msgpack, req("z", "start_scan", None));
    assert!(!r.ok);
    let e = r.error.expect("error");
    assert_eq!(e.code, "UNKNOWN_METHOD");
    assert!(e.message.contains("start_scan"));
}

#[test]
fn product_methods_are_left_to_the_handler() {
    let mut reg = JobRegistry::new();
    let out = dispatch_control(&req("z", "start_scan", None), &mut reg, &info(Encoding::Json));
    assert!(matches!(out, ControlOutcome::Product));
    let r = unknown_method("z", "start_scan");
    assert_eq!(r.error.unwrap().message, "unknown method: start_scan");
}

#[test]
fn health_is_busy_while_a_job_is_active() {
    let mut reg = JobRegistry::new();
    register(&mut reg, "j");
    let r = dispatch(&mut reg, Encoding::Json, req("h", "health", None));
    let p = r.payload.unwrap();
    assert_eq!(p.get("status"), Some(&s("busy")));
    assert_eq!(p.get("active_jobs"), Some(&u(1)));
    assert_eq!(p.get("uptime_secs"), Some(&u(7)));
    assert_eq!(p.get("pid"), Some(&u(4242)));
}

#[test]
fn cancel_job_cancels_and_reports() {
    let mut reg = JobRegistry::new();
    register(&mut reg, "job-1");
    let r = dispatch(
        &mut reg,
        Encoding::Json,
        req("x", "cancel_job", Some(obj(vec![("job_id", s("job-1"))]))),
    );
    assert!(r.ok);
    assert_eq!(
        r.payload,
        Some(obj(vec![("cancelled", JsonValue::Bool(true)), ("job_id", s("job-1"))]))
    );
    assert_eq!(reg.status("job-1").unwrap().state, "cancelled");
    assert_eq!(reg.active_count(), 0);
}

#[test]
fn cancel_job_without_params_names_the_empty_id() {
    let mut reg = JobRegistry::new();
    let r = dispatch(&mut reg, Encoding::Json, req("x", "cancel_job", None));
    assert_eq!(r.error.unwrap().message, "job  not found");
}

#[test]
fn shutdown_delay_choices() {
    assert_eq!(delay_of(None), ShutdownDelay::Millis(DEFAULT_SHUTDOWN_DELAY_MS));
    assert_eq!(delay_of(Some(obj(vec![("delay_ms", u(250))]))), ShutdownDelay::Millis(250));
    assert_eq!(
        delay_of(Some(obj(vec![("delay_ms", u(10_000_000))]))),
        ShutdownDelay::Millis(MAX_SHUTDOWN_DELAY_MS)
    );
    assert_eq!(
        delay_of(Some(obj(vec![("delay_ms", JsonValue::Number(JsonNumber::NegInt(-5)))]))),
        ShutdownDelay::Millis(DEFAULT_SHUTDOWN_DELAY_MS)
    );
    assert_eq!(
        delay_of(Some(obj(vec![("delay_ms", s("soon"))]))),
        ShutdownDelay::Millis(DEFAULT_SHUTDOWN_DELAY_MS)
    );
    let bits = 1.5f64.to_bits();
    assert_eq!(
        delay_of(Some(obj(vec![("delay_ms", JsonValue::Number(JsonNumber::Float(bits)))]))),
        ShutdownDelay::Float(bits)
    );
}

#[test]
fn job_status_after_cancel_job_reports_cancelled() {
    let mut reg = JobRegistry::new();
    register(&mut reg, "job-2");
    let params = || Some(obj(vec![("job_id", s("job-2"))]));
    let c = dispatch(&mut reg, Encoding::Json, req("c", "cancel_job", params()));
    assert!(c.ok);
    let st = dispatch(&mut reg, Encoding::Json, req("s", "job_status", params()));
    assert_eq!(st.id, "s");
    assert_eq!(
        st.payload,
        Some(obj(vec![("job_id", s("job-2")), ("state", s("cancelled"))]))
    );
}

#[test]
fn answers_echo_the_request_id() {
    let mut reg = JobRegistry::new();
    for m in ["ping", "health", "capabilities", "shutdown", "cancel_job", "job_status"] {
        let r = dispatch(&mut reg, Encoding::Json, req("echo-7", m, None));
        assert_eq!(r.id, "echo-7");
        assert_eq!(r.ok, r.error.is_none());
        assert_eq!(r.ok, r.payload.is_some());
    }
}

#[test]
fn cancel_job_without_job_id_leaves_a_job_under_the_empty_id_alone() {
    let mut reg = JobRegistry::new();
    register(&mut reg, "");
    for params in [None, Some(obj(vec![])), Some(obj(vec![("job_id", s(""))])), Some(obj(vec![("job_id", u(7))]))] {
        let r = dispatch(&mut reg, Encoding::Json, req("x", "cancel_job", params));
        assert!(!r.ok);
        assert_eq!(r.id, "x");
        let e = r.error.unwrap();
        assert_eq!(e.code, "JOB_NOT_FOUND");
        assert_eq!(e.message, "job  not found");
    }
    assert_eq!(reg.status("").unwrap().state, "pending");
    assert_eq!(reg.active_count(), 1);
}
