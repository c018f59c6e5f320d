//! `JobRegistry` public API: register, status, cancel, active count, duplicates,
//! event routing and eviction.

use forge_worker_sdk::cancel_pair;
use forge_worker_sdk::job_registry::{Job, JobRegistry, JobState};
use forge_worker_sdk::json::JsonValue;
use forge_worker_sdk::protocol::WireEvent;
use tokio::sync::mpsc;

fn obj(entries: Vec<(&str, JsonValue)>) -> JsonValue {
    JsonValue::Object(entries.into_iter().map(|(k, v)| (k.to_string(), v)).collect())
}

fn new_job(id: &str) -> Job {
    let (ev_tx, _ev_rx) = mpsc::unbounded_channel();
    let (cancel_tx, _cancel_rx) = cancel_pair();
    Job::new(id.into(), ev_tx, cancel_tx)
}

#[test]
fn register_and_active_count() {
    let mut reg = JobRegistry::new();
    let (ev_tx, _ev_rx) = mpsc::unbounded_channel();
    let (cancel_tx, _cancel_rx) = cancel_pair();
    let job = Job::new("job-a".into(), ev_tx, cancel_tx);
    reg.register(job).expect("register");
    assert_eq!(reg.active_count(), 1);
    let st = reg.status("job-a").expect("status");
    assert_eq!(st.job_id, "job-a");
    assert_eq!(st.state, "pending");
}

#[test]
fn duplicate_register_errors() {
    let mut reg = JobRegistry::new();
    let (ev_tx, _ev_rx) = mpsc::unbounded_channel();
    let (c1, _r1) = cancel_pair();
    let (c2, _r2) = cancel_pair();
    reg.register(Job::new("dup".into(), ev_tx.clone(), c1)).unwrap();
    let err = reg.register(Job::new("dup".into(), ev_tx, c2)).unwrap_err();
    assert!(err.contains("already registered"));
}

#[test]
fn cancel_marks_cancelled_and_drops_active() {
    let mut reg = JobRegistry::new();
    let (ev_tx, _ev_rx) = mpsc::unbounded_channel();
    let (cancel_tx, _cancel_rx) = cancel_pair();
    reg.register(Job::new("j".into(), ev_tx, cancel_tx)).unwrap();
    assert!(reg.cancel("j"));
    assert_eq!(reg.active_count(), 0);
    let st = reg.status("j").expect("still in map");
    assert_eq!(st.state, JobState::Cancelled.to_string());
}

#[test]
fn emit_delivers_when_connected() {
    let mut reg = JobRegistry::new();
    let (ev_tx, mut ev_rx) = mpsc::unbounded_channel();
    let (cancel_tx, _cancel_rx) = cancel_pair();
    reg.register(Job::new("e".into(), ev_tx, cancel_tx)).unwrap();
    let ev = WireEvent {
        event_type: "progress".into(),
        job_id: "e".into(),
        payload: Some(obj(vec![("n", JsonValue::from_u64(1))])),
    };
    reg.emit("e", ev.clone());
    assert_eq!(ev_rx.try_recv().unwrap(), ev);
}

#[test]
fn duplicate_register_message_is_exact() {
    let mut reg = JobRegistry::new();
    reg.register(new_job("x")).unwrap();
    assert_eq!(reg.register(new_job("x")).unwrap_err(), "job x already registered");
    assert_eq!(reg.active_count(), 1);
}

#[test]
fn cancel_fires_the_cancel_signal() {
    let mut reg = JobRegistry::new();
    let (ev_tx, _ev_rx) = mpsc::unbounded_channel();
    let (cancel_tx, mut cancel_rx) = cancel_pair();
    reg.register(Job::new("c".into(), ev_tx, cancel_tx)).unwrap();
    assert!(cancel_rx.try_recv().is_err());
    assert!(reg.cancel("c"));
    assert_eq!(cancel_rx.try_recv(), Ok(()));
}

#[test]
fn cancel_unknown_job_is_false() {
    let mut reg = JobRegistry::new();
    reg.register(new_job("a")).unwrap();
    assert!(!reg.cancel("b"));
    assert_eq!(reg.status("a").unwrap().state, "pending");
}

#[test]
fn cancel_is_idempotent_and_keeps_finished_state() {
    let mut reg = JobRegistry::new();
    reg.register(new_job("done")).unwrap();
    reg.set_completed("done", JsonValue::Bool(true));
    assert!(reg.cancel("done"));
    assert!(reg.cancel("done"));
    assert_eq!(reg.status("done").unwrap().state, "completed");
}

#[test]
fn emit_after_detach_is_silent() {
    let mut reg = JobRegistry::new();
    let (ev_tx, mut ev_rx) = mpsc::unbounded_channel();
    let (cancel_tx, _cancel_rx) = cancel_pair();
    reg.register(Job::new("d".into(), ev_tx, cancel_tx)).unwrap();
    reg.detach_client("d");
    let ev = WireEvent { event_type: "progress".into(), job_id: "d".into(), payload: None };
    reg.emit("d", ev);
    assert!(ev_rx.try_recv().is_err());
}

#[test]
fn lifecycle_states_and_counters() {
    let mut reg = JobRegistry::new();
    reg.register(new_job("a")).unwrap();
    reg.register(new_job("b")).unwrap();
    reg.set_running("a");
    assert_eq!(reg.status("a").unwrap().state, "running");
    assert_eq!(reg.active_count(), 2);
    reg.set_completed("a", obj(vec![("files", JsonValue::from_u64(3))]));
    reg.set_failed("b", "disk gone".to_string());
    assert_eq!(reg.active_count(), 0);
    assert_eq!(reg.total_completed(), 2);
    let a = reg.status("a").unwrap();
    assert_eq!(a.state, "completed");
    assert_eq!(a.progress, Some(obj(vec![("files", JsonValue::from_u64(3))])));
    assert_eq!(a.error, "");
    let b = reg.status("b").unwrap();
    assert_eq!(b.state, "failed");
    assert_eq!(b.error, "disk gone");
    // Missing jobs still count towards completions.
    reg.set_completed("ghost", JsonValue::Null);
    assert_eq!(reg.total_completed(), 3);
    assert!(reg.status("ghost").is_none());
}

#[test]
fn update_progress_replaces_snapshot() {
    let mut reg = JobRegistry::new();
    reg.register(new_job("p")).unwrap();
    reg.update_progress("p", JsonValue::from_u64(1));
    reg.update_progress("p", JsonValue::from_u64(2));
    assert_eq!(reg.status("p").unwrap().progress, Some(JsonValue::from_u64(2)));
}

#[test]
fn status_json_omits_absent_fields() {
    let mut reg = JobRegistry::new();
    reg.register(new_job("s")).unwrap();
    let v = reg.status("s").unwrap().to_json();
    assert_eq!(
        v,
        obj(vec![("job_id", JsonValue::from_str("s")), ("state", JsonValue::from_str("pending"))])
    );
    reg.set_failed("s", "boom".to_string());
    let v = reg.status("s").unwrap().to_json();
    assert_eq!(
        v,
        obj(vec![
            ("job_id", JsonValue::from_str("s")),
            ("state", JsonValue::from_str("failed")),
            ("error", JsonValue::from_str("boom")),
        ])
    );
}

#[test]
fn gc_keeps_active_and_at_most_keep_n_finished() {
    let mut reg = JobRegistry::new();
    for id in ["a", "b", "c", "d", "e"] {
        reg.register(new_job(id)).unwrap();
    }
    reg.set_completed("a", JsonValue::Null);
    reg.set_failed("b", "x".to_string());
    reg.cancel("c");
    reg.set_running("d");
    // "e" stays pending.
    reg.gc(1);
    let finished_left = ["a", "b", "c"].iter().filter(|id| reg.status(id).is_some()).count();
    assert_eq!(finished_left, 1);
    assert_eq!(reg.status("d").unwrap().state, "running");
    assert_eq!(reg.status("e").unwrap().state, "pending");
    assert_eq!(reg.active_count(), 2);
    assert_eq!(reg.total_completed(), 2);
}

#[test]
fn gc_within_limit_keeps_everything() {
    let mut reg = JobRegistry::new();
    reg.register(new_job("a")).unwrap();
    reg.register(new_job("b")).unwrap();
    reg.set_completed("a", JsonValue::Null);
    reg.set_completed("b", JsonValue::Null);
    reg.gc(2);
    assert!(reg.status("a").is_some());
    assert!(reg.status("b").is_some());
    reg.gc(0);
    assert!(reg.status("a").is_none());
    assert!(reg.status("b").is_none());
}

#[test]
fn job_state_names() {
    assert_eq!(JobState::Pending.to_string(), "pending");
    assert_eq!(JobState::Running.to_string(), "running");
    assert_eq!(JobState::Completed.to_string(), "completed");
    assert_eq!(JobState::Failed.to_string(), "failed");
    assert_eq!(JobState::Cancelled.to_string(), "cancelled");
    assert!(JobState::Pending.is_active());
    assert!(!JobState::Failed.is_active());
}

#[test]
fn job_cancel_and_detach_directly() {
    let mut job = new_job("direct");
    job.cancel();
    assert_eq!(job.state, JobState::Cancelled);
    job.detach_client();
    job.emit(WireEvent { event_type: "t".into(), job_id: "direct".into(), payload: None });
    let _ = job.duration_ms();
}

#[test]
fn default_registry_is_empty() {
    let reg = JobRegistry::default();
    assert_eq!(reg.active_count(), 0);
    assert_eq!(reg.total_completed(), 0);
    assert!(reg.status("anything").is_none());
}

#[test]
fn updates_leave_other_jobs_alone() {
    let mut reg = JobRegistry::new();
    reg.register(new_job("one")).unwrap();
    reg.register(new_job("two")).unwrap();
    reg.update_progress("one", JsonValue::from_u64(9));
    reg.set_running("one");
    assert_eq!(reg.status("two").unwrap().progress, None);
    assert_eq!(reg.status("two").unwrap().state, "pending");
    assert_eq!(reg.status("one").unwrap().progress, Some(JsonValue::from_u64(9)));
}

#[test]
fn emit_reaches_only_the_named_job() {
    let mut reg = JobRegistry::new();
    let (tx_a, mut rx_a) = mpsc::unbounded_channel();
    let (tx_b, mut rx_b) = mpsc::unbounded_channel();
    let (ca, _sa) = cancel_pair();
    let (cb, _sb) = cancel_pair();
    reg.register(Job::new("a".into(), tx_a, ca)).unwrap();
    reg.register(Job::new("b".into(), tx_b, cb)).unwrap();
    let ev = WireEvent { event_type: "tick".into(), job_id: "a".into(), payload: None };
    reg.emit("a", ev.clone());
    assert_eq!(rx_a.try_recv().unwrap(), ev);
    assert!(rx_a.try_recv().is_err());
    assert!(rx_b.try_recv().is_err());
    reg.emit("nobody", ev);
    assert!(rx_a.try_recv().is_err());
    assert!(rx_b.try_recv().is_err());
    assert_eq!(reg.status("a").unwrap().state, "pending");
}

#[test]
fn job_emit_hands_events_to_its_sender_in_order() {
    let (tx, mut rx) = mpsc::unbounded_channel();
    let (c, _s) = cancel_pair();
    let mut job = Job::new("j".into(), tx, c);
    let first = WireEvent { event_type: "one".into(), job_id: "j".into(), payload: None };
    let second = WireEvent { event_type: "two".into(), job_id: "j".into(), payload: None };
    job.emit(first.clone());
    job.emit(second.clone());
    assert_eq!(rx.try_recv().unwrap(), first);
    assert_eq!(rx.try_recv().unwrap(), second);
    assert!(rx.try_recv().is_err());
}

#[test]
fn job_cancel_fires_its_signal_once() {
    let (tx, _rx) = mpsc::unbounded_channel();
    let (c, mut sig) = cancel_pair();
    let mut job = Job::new("k".into(), tx, c);
    assert!(sig.try_recv().is_err());
    job.cancel();
    assert_eq!(sig.try_recv(), Ok(()));
    job.cancel();
    assert_eq!(job.state, JobState::Cancelled);
}

#[test]
fn gc_keeps_the_job_that_started_last_not_the_one_registered_last() {
    let mut reg = JobRegistry::new();
    let a = new_job("a");
    let b = new_job("b");
    let c = new_job("c");
    reg.register(c).unwrap();
    reg.register(a).unwrap();
    reg.register(b).unwrap();
    for id in ["a", "b", "c"] {
        reg.set_completed(id, JsonValue::Null);
    }
    reg.gc(1);
    assert!(reg.status("c").is_some());
    assert!(reg.status("a").is_none());
    assert!(reg.status("b").is_none());
}

#[test]
fn emit_reports_whether_the_channel_accepted() {
    let mut reg = JobRegistry::new();
    let (tx, rx) = mpsc::unbounded_channel();
    let (c, _s) = cancel_pair();
    reg.register(Job::new("r".into(), tx, c)).unwrap();
    let ev = WireEvent { event_type: "tick".into(), job_id: "r".into(), payload: None };
    assert!(reg.emit("r", ev.clone()));
    drop(rx);
    assert!(!reg.emit("r", ev.clone()));
    assert!(!reg.emit("missing", ev));
    assert_eq!(reg.status("r").unwrap().state, "pending");
}

#[test]
fn job_accessors_read_the_fields() {
    let mut job = new_job("acc");
    assert_eq!(job.id(), "acc");
    assert_eq!(job.current_state(), JobState::Pending);
    assert!(job.latest_progress().is_none());
    assert!(job.error().is_none());
    job.cancel();
    assert_eq!(job.current_state(), JobState::Cancelled);
    assert!(job.duration_ms() < 60_000);
}
