//! Control-plane request handling.
//!
//! The built-in methods — `ping`, `health`, `capabilities`, `shutdown`,
//! `cancel_job` and `job_status` — are answered here; every other method is
//! product-specific and is handed to the product's handler by the caller.
use vstd::prelude::*;

use crate::framing::{encoding_name, Encoding};
use crate::job_registry::{
    cancel_in, count_active, count_active_upto, has_job, lemma_cancel_in_absent, ids_distinct, lemma_cancel_deactivates, lemma_lookup_none, lookup, state_is_active,
    cancelled_view, lemma_status_json_fields, state_name, JobState, JobView, status_json, status_of, JobRegistry,
};
use crate::json::{json_get, lemma_object_get_at, number_as_u64, str_view, uint_view, JsonNumber, JsonValue, JsonView};
use crate::protocol::{
    opt_json_view, ErrorPayload, ErrorView, RequestView, ResponseView, WireRequest, WireResponse,
};
use crate::text::concat3;

verus! {

/// Shutdown delay used when the request names none (or names an unusable one).
pub const DEFAULT_SHUTDOWN_DELAY_MS: u64 = 100;

/// Longest shutdown delay honoured (five minutes).
pub const MAX_SHUTDOWN_DELAY_MS: u64 = 5 * 60 * 1000;

/// Protocol version reported by `capabilities`.
pub const PROTOCOL_VERSION: u64 = 1;

// ─── RESPONSE HELPERS ────────────────────────────────────────────────────────

/// A successful response carrying `payload`.
pub open spec fn ok_view(id: Seq<char>, payload: JsonView) -> ResponseView {
    ResponseView { id, ok: true, error: None, payload: Some(payload) }
}

/// An error response with an empty detail.
pub open spec fn err_view(id: Seq<char>, code: Seq<char>, message: Seq<char>) -> ResponseView {
    ResponseView {
        id,
        ok: false,
        error: Some(ErrorView { code, message, detail: Seq::empty() }),
        payload: None,
    }
}

/// Builds a successful response with a JSON payload.
pub fn ok_response(req_id: &str, payload: JsonValue) -> (r: WireResponse)
    ensures
        r@ == ok_view(req_id@, payload@),
{
    WireResponse { id: req_id.to_owned(), ok: true, error: None, payload: Some(payload) }
}

/// Builds an error response.
pub fn err_response(req_id: &str, code: &str, message: &str) -> (r: WireResponse)
    ensures
        r@ == err_view(req_id@, code@, message@),
{
    WireResponse {
        id: req_id.to_owned(),
        ok: false,
        error: Some(
            ErrorPayload { code: code.to_owned(), message: message.to_owned(), detail: String::new() },
        ),
        payload: None,
    }
}

/// Builds an `UNKNOWN_METHOD` error response naming the method.
pub fn unknown_method(req_id: &str, method: &str) -> (r: WireResponse)
    ensures
        r@ == err_view(req_id@, "UNKNOWN_METHOD"@, "unknown method: "@ + method@),
{
    let mut message = "unknown method: ".to_owned();
    message.append(method);
    err_response(req_id, "UNKNOWN_METHOD", message.as_str())
}

// ─── PARAMETERS ──────────────────────────────────────────────────────────────

/// The string stored under `key` in the request parameters, if they are an
/// object holding a string there.
pub open spec fn param_str(params: Option<JsonView>, key: Seq<char>) -> Option<Seq<char>> {
    match params {
        Some(p) => match json_get(p, key) {
            Some(JsonView::Str(s)) => Some(s),
            _ => None,
        },
        None => None,
    }
}

/// The `job_id` parameter, or the empty string when there is none.
pub open spec fn param_job_id(params: Option<JsonView>) -> Seq<char> {
    match param_str(params, "job_id"@) {
        Some(s) => s,
        None => Seq::empty(),
    }
}

fn str_param<'a>(params: &'a Option<JsonValue>, key: &str) -> (r: Option<&'a str>)
    ensures
        match r {
            Some(s) => param_str(opt_json_view(*params), key@) == Some(s@),
            None => param_str(opt_json_view(*params), key@) is None,
        },
{
    match params {
        Some(p) => match p.get(key) {
            Some(v) => v.as_str(),
            None => None,
        },
        None => None,
    }
}

/// How long to wait before shutting down.
#[derive(Debug, Clone, Copy, PartialEq, Eq, Structural)]
pub enum ShutdownDelay {
    /// A delay in milliseconds.
    Millis(u64),
    /// The request gave the delay as a floating-point number (bit pattern of
    /// an IEEE-754 double); it is honoured when non-negative, capped at
    /// [`MAX_SHUTDOWN_DELAY_MS`] and truncated to whole milliseconds, and
    /// [`DEFAULT_SHUTDOWN_DELAY_MS`] applies otherwise.
    Float(u64),
}

/// The delay that the `delay_ms` parameter selects: a non-negative integer
/// capped at five minutes, a floating-point number to be resolved by the
/// caller, or the default for anything else (or nothing).
pub open spec fn spec_shutdown_delay(params: Option<JsonView>) -> ShutdownDelay {
    match params {
        Some(p) => match json_get(p, "delay_ms"@) {
            Some(JsonView::Number(n)) => match number_as_u64(n) {
                Some(u) => ShutdownDelay::Millis(
                    if u < MAX_SHUTDOWN_DELAY_MS {
                        u
                    } else {
                        MAX_SHUTDOWN_DELAY_MS
                    },
                ),
                None => match n {
                    JsonNumber::Float(bits) => ShutdownDelay::Float(bits),
                    _ => ShutdownDelay::Millis(DEFAULT_SHUTDOWN_DELAY_MS),
                },
            },
            _ => ShutdownDelay::Millis(DEFAULT_SHUTDOWN_DELAY_MS),
        },
        None => ShutdownDelay::Millis(DEFAULT_SHUTDOWN_DELAY_MS),
    }
}

fn shutdown_delay_ms(params: &Option<JsonValue>) -> (d: ShutdownDelay)
    ensures
        d == spec_shutdown_delay(opt_json_view(*params)),
{
    let v = match params {
        Some(p) => p.get("delay_ms"),
        None => None,
    };
    match v {
        Some(JsonValue::Number(n)) => match n.as_u64() {
            Some(u) => ShutdownDelay::Millis(
                if u < MAX_SHUTDOWN_DELAY_MS {
                    u
                } else {
                    MAX_SHUTDOWN_DELAY_MS
                },
            ),
            None => match n {
                JsonNumber::Float(bits) => ShutdownDelay::Float(*bits),
                _ => ShutdownDelay::Millis(DEFAULT_SHUTDOWN_DELAY_MS),
            },
        },
        _ => ShutdownDelay::Millis(DEFAULT_SHUTDOWN_DELAY_MS),
    }
}

// ─── CONTROL PLANE ───────────────────────────────────────────────────────────

/// What the control plane reports about the worker: the product handler's
/// version, features and job limit, the negotiated encoding, and the
/// process's uptime and id.
pub struct WorkerInfo {
    pub version: String,
    pub features: Vec<String>,
    pub max_concurrent_jobs: u32,
    pub encoding: Encoding,
    pub uptime_secs: u64,
    pub pid: u32,
}

/// The abstract content of a [`WorkerInfo`].
pub struct InfoView {
    pub version: Seq<char>,
    pub features: Seq<Seq<char>>,
    pub max_concurrent_jobs: u32,
    pub encoding: Encoding,
    pub uptime_secs: u64,
    pub pid: u32,
}

impl View for WorkerInfo {
    type V = InfoView;

    open spec fn view(&self) -> InfoView {
        InfoView {
            version: self.version@,
            features: self.features@.map_values(|f: String| f@),
            max_concurrent_jobs: self.max_concurrent_jobs,
            encoding: self.encoding,
            uptime_secs: self.uptime_secs,
            pid: self.pid,
        }
    }
}

/// How the control plane disposes of a request.
pub enum ControlOutcome {
    /// Answer with this response.
    Reply(WireResponse),
    /// Answer with this response, then shut the worker down after the delay.
    Shutdown { response: WireResponse, delay: ShutdownDelay },
    /// Not a control-plane method: the product handler answers it.
    Product,
}

/// The abstract content of a [`ControlOutcome`].
pub enum OutcomeView {
    Reply(ResponseView),
    Shutdown(ResponseView, ShutdownDelay),
    Product,
}

impl View for ControlOutcome {
    type V = OutcomeView;

    open spec fn view(&self) -> OutcomeView {
        match self {
            ControlOutcome::Reply(r) => OutcomeView::Reply(r@),
            ControlOutcome::Shutdown { response, delay } => OutcomeView::Shutdown(response@, *delay),
            ControlOutcome::Product => OutcomeView::Product,
        }
    }
}

/// `{"pong": true}`
pub open spec fn pong_json() -> JsonView {
    JsonView::Object(seq![("pong"@, JsonView::Bool(true))])
}

/// `{"bye": true}`
pub open spec fn bye_json() -> JsonView {
    JsonView::Object(seq![("bye"@, JsonView::Bool(true))])
}

/// The `health` payload: `"busy"` while any job is active, `"ok"` otherwise.
pub open spec fn health_json(active: nat, info: InfoView) -> JsonView {
    JsonView::Object(
        seq![
            ("status"@, str_view(if active > 0 { "busy"@ } else { "ok"@ })),
            ("active_jobs"@, uint_view(active)),
            ("uptime_secs"@, uint_view(info.uptime_secs as nat)),
            ("pid"@, uint_view(info.pid as nat)),
            ("version"@, str_view(info.version)),
        ],
    )
}

/// The `capabilities` payload.
pub open spec fn capabilities_json(info: InfoView) -> JsonView {
    JsonView::Object(
        seq![
            ("version"@, str_view(info.version)),
            ("protocol_version"@, uint_view(PROTOCOL_VERSION as nat)),
            ("features"@, JsonView::Array(info.features.map_values(|f: Seq<char>| str_view(f)))),
            ("max_concurrent_jobs"@, uint_view(info.max_concurrent_jobs as nat)),
            ("encoding"@, str_view(encoding_name(info.encoding))),
        ],
    )
}

/// The successful `cancel_job` payload.
pub open spec fn cancelled_json(job_id: Seq<char>) -> JsonView {
    JsonView::Object(seq![("cancelled"@, JsonView::Bool(true)), ("job_id"@, str_view(job_id))])
}

/// The `JOB_NOT_FOUND` error for a job id.
pub open spec fn job_not_found(id: Seq<char>, job_id: Seq<char>) -> ResponseView {
    err_view(id, "JOB_NOT_FOUND"@, "job "@ + job_id + " not found"@)
}

/// Whether a method is one that the control plane answers itself.
pub open spec fn is_control_method(m: Seq<char>) -> bool {
    ||| m == "ping"@
    ||| m == "health"@
    ||| m == "capabilities"@
    ||| m == "shutdown"@
    ||| m == "cancel_job"@
    ||| m == "job_status"@
}

/// How the control plane answers `req`, given the jobs registered before it
/// is handled.
pub open spec fn spec_control(req: RequestView, jobs: Seq<JobView>, info: InfoView) -> OutcomeView {
    let id = req.id;
    let m = req.method;
    let job_id = param_job_id(req.params);
    if m == "ping"@ {
        OutcomeView::Reply(ok_view(id, pong_json()))
    } else if m == "health"@ {
        OutcomeView::Reply(ok_view(id, health_json(count_active(jobs) % 0x1_0000_0000, info)))
    } else if m == "capabilities"@ {
        OutcomeView::Reply(ok_view(id, capabilities_json(info)))
    } else if m == "shutdown"@ {
        OutcomeView::Shutdown(ok_view(id, bye_json()), spec_shutdown_delay(req.params))
    } else if m == "cancel_job"@ {
        if job_id.len() > 0 && has_job(jobs, job_id) {
            OutcomeView::Reply(ok_view(id, cancelled_json(job_id)))
        } else {
            OutcomeView::Reply(job_not_found(id, job_id))
        }
    } else if m == "job_status"@ {
        match lookup(jobs, job_id) {
            Some(j) => OutcomeView::Reply(ok_view(id, status_json(status_of(j)))),
            None => OutcomeView::Reply(job_not_found(id, job_id)),
        }
    } else {
        OutcomeView::Product
    }
}

/// The jobs after the control plane handled `req`: `cancel_job` with a
/// non-empty job id cancels the named job; a missing or empty id changes
/// nothing, nor does any other method.
pub open spec fn control_effect(req: RequestView, jobs: Seq<JobView>) -> Seq<JobView> {
    if req.method == "cancel_job"@ && param_job_id(req.params).len() > 0 {
        cancel_in(jobs, param_job_id(req.params))
    } else {
        jobs
    }
}

fn features_json(features: &Vec<String>) -> (v: JsonValue)
    ensures
        v@ == JsonView::Array(features@.map_values(|f: String| f@).map_values(|f: Seq<char>| str_view(f))),
{
    let mut items: Vec<JsonValue> = Vec::new();
    let mut i: usize = 0;
    while i < features.len()
        invariant
            i <= features@.len(),
            items@.len() == i,
            forall|k: int| 0 <= k < i ==> (#[trigger] items@[k])@ == JsonView::Str(features@[k]@),
        decreases features@.len() - i,
    {
        items.push(JsonValue::from_str(features[i].as_str()));
        i = i + 1;
    }
    let v = JsonValue::Array(items);
    proof {
        assert(v@->Array_0 =~= features@.map_values(|f: String| f@).map_values(
            |f: Seq<char>| str_view(f),
        ));
    }
    v
}

fn entry(key: &str, value: JsonValue) -> (e: (String, JsonValue))
    ensures
        e.0@ == key@,
        e.1@ == value@,
{
    (key.to_owned(), value)
}

/// Handles a control-plane request against the registry, or reports that
/// the request belongs to the product handler.
pub fn dispatch_control(req: &WireRequest, registry: &mut JobRegistry, info: &WorkerInfo) -> (r:
    ControlOutcome)
    ensures
        r@ == spec_control(req@, old(registry)@.jobs, info@),
        final(registry)@.jobs == control_effect(req@, old(registry)@.jobs),
        final(registry)@.total_completed == old(registry)@.total_completed,
        final(registry)@.epoch == old(registry)@.epoch,
{
    proof {
        lemma_method_names_distinct();
    }
    let id = req.id.as_str();
    let m = &req.method;
    if *m == "ping".to_owned() {
        let mut p: Vec<(String, JsonValue)> = Vec::new();
        p.push(entry("pong", JsonValue::Bool(true)));
        let payload = JsonValue::Object(p);
        assert(payload@->Object_0 =~= pong_json()->Object_0);
        ControlOutcome::Reply(ok_response(id, payload))
    } else if *m == "health".to_owned() {
        let active = registry.active_count();
        let status = if active > 0 {
            "busy"
        } else {
            "ok"
        };
        let mut p: Vec<(String, JsonValue)> = Vec::new();
        p.push(entry("status", JsonValue::from_str(status)));
        p.push(entry("active_jobs", JsonValue::from_u64(active as u64)));
        p.push(entry("uptime_secs", JsonValue::from_u64(info.uptime_secs)));
        p.push(entry("pid", JsonValue::from_u64(info.pid as u64)));
        p.push(entry("version", JsonValue::from_str(info.version.as_str())));
        let payload = JsonValue::Object(p);
        assert(payload@->Object_0 =~= health_json(
            count_active(old(registry)@.jobs) % 0x1_0000_0000,
            info@,
        )->Object_0);
        ControlOutcome::Reply(ok_response(id, payload))
    } else if *m == "capabilities".to_owned() {
        let mut p: Vec<(String, JsonValue)> = Vec::new();
        p.push(entry("version", JsonValue::from_str(info.version.as_str())));
        p.push(entry("protocol_version", JsonValue::from_u64(PROTOCOL_VERSION)));
        p.push(entry("features", features_json(&info.features)));
        p.push(entry("max_concurrent_jobs", JsonValue::from_u64(info.max_concurrent_jobs as u64)));
        p.push(entry("encoding", JsonValue::from_str(info.encoding.wire_name())));
        let payload = JsonValue::Object(p);
        proof {
            assert(info@.features.map_values(|f: Seq<char>| str_view(f)) =~= info.features@.map_values(
                |f: String| f@,
            ).map_values(|f: Seq<char>| str_view(f)));
            assert(payload@->Object_0 =~= capabilities_json(info@)->Object_0);
        }
        ControlOutcome::Reply(ok_response(id, payload))
    } else if *m == "shutdown".to_owned() {
        let delay = shutdown_delay_ms(&req.params);
        let mut p: Vec<(String, JsonValue)> = Vec::new();
        p.push(entry("bye", JsonValue::Bool(true)));
        let payload = JsonValue::Object(p);
        assert(payload@->Object_0 =~= bye_json()->Object_0);
        ControlOutcome::Shutdown { response: ok_response(id, payload), delay }
    } else if *m == "cancel_job".to_owned() {
        let job_id = match str_param(&req.params, "job_id") {
            Some(s) => s,
            None => "",
        };
        proof {
            reveal_strlit("");
            assert(""@ =~= Seq::<char>::empty());
        }
        assert(job_id@ == param_job_id(req@.params));
        // A missing or empty id names no job.
        if !job_id.is_empty() && registry.cancel(job_id) {
            let mut p: Vec<(String, JsonValue)> = Vec::new();
            p.push(entry("cancelled", JsonValue::Bool(true)));
            p.push(entry("job_id", JsonValue::from_str(job_id)));
            let payload = JsonValue::Object(p);
            assert(payload@->Object_0 =~= cancelled_json(job_id@)->Object_0);
            ControlOutcome::Reply(ok_response(id, payload))
        } else {
            let message = concat3("job ", job_id, " not found");
            ControlOutcome::Reply(err_response(id, "JOB_NOT_FOUND", message.as_str()))
        }
    } else if *m == "job_status".to_owned() {
        let job_id = match str_param(&req.params, "job_id") {
            Some(s) => s,
            None => "",
        };
        proof {
            reveal_strlit("");
            assert(""@ =~= Seq::<char>::empty());
        }
        assert(job_id@ == param_job_id(req@.params));
        match registry.status(job_id) {
            Some(s) => ControlOutcome::Reply(ok_response(id, s.to_json())),
            None => {
                let message = concat3("job ", job_id, " not found");
                ControlOutcome::Reply(err_response(id, "JOB_NOT_FOUND", message.as_str()))
            },
        }
    } else {
        ControlOutcome::Product
    }
}

// ─── LAWS ────────────────────────────────────────────────────────────────────

/// The built-in method names are pairwise distinct.
proof fn lemma_method_names_distinct()
    ensures
        "ping"@ != "health"@ && "ping"@ != "capabilities"@ && "ping"@ != "shutdown"@,
        "ping"@ != "cancel_job"@ && "ping"@ != "job_status"@,
        "health"@ != "capabilities"@ && "health"@ != "shutdown"@ && "health"@ != "cancel_job"@,
        "health"@ != "job_status"@ && "capabilities"@ != "shutdown"@,
        "capabilities"@ != "cancel_job"@ && "capabilities"@ != "job_status"@,
        "shutdown"@ != "cancel_job"@ && "shutdown"@ != "job_status"@,
        "cancel_job"@ != "job_status"@,
{
    reveal_strlit("ping");
    reveal_strlit("health");
    reveal_strlit("capabilities");
    reveal_strlit("shutdown");
    reveal_strlit("cancel_job");
    reveal_strlit("job_status");
    assert("ping"@.len() == 4 && "health"@.len() == 6 && "capabilities"@.len() == 12);
    assert("shutdown"@.len() == 8 && "cancel_job"@.len() == 10 && "job_status"@.len() == 10);
    assert("cancel_job"@[0] != "job_status"@[0]);
}

/// Every control-plane answer echoes the request id, and is either a success
/// with a payload and no error or a failure with an error and no payload.
pub proof fn lemma_control_answers_are_well_formed(
    req: RequestView,
    jobs: Seq<JobView>,
    info: InfoView,
)
    ensures
        match spec_control(req, jobs, info) {
            OutcomeView::Reply(r) => {
                &&& r.id == req.id
                &&& r.ok <==> r.error is None
                &&& r.ok <==> r.payload is Some
            },
            OutcomeView::Shutdown(r, _) => r.id == req.id && r.ok && r.error is None && r.payload is Some,
            OutcomeView::Product => true,
        },
{
}

/// The control plane answers exactly the built-in methods and hands every
/// other method to the product handler, leaving the registry untouched.
pub proof fn lemma_control_methods(req: RequestView, jobs: Seq<JobView>, info: InfoView)
    ensures
        (spec_control(req, jobs, info) is Product) <==> !is_control_method(req.method),
        !is_control_method(req.method) ==> control_effect(req, jobs) == jobs,
{
    lemma_method_names_distinct();
}

/// `job_status` after `cancel_job` for the same active job reports it as
/// `cancelled`.
pub proof fn lemma_status_after_cancel(
    cancel_req: RequestView,
    status_req: RequestView,
    jobs: Seq<JobView>,
    info: InfoView,
)
    requires
        ids_distinct(jobs),
        cancel_req.method == "cancel_job"@,
        param_job_id(cancel_req.params).len() > 0,
        status_req.method == "job_status"@,
        param_job_id(status_req.params) == param_job_id(cancel_req.params),
        lookup(jobs, param_job_id(cancel_req.params)) matches Some(j) && state_is_active(j.state),
    ensures
        ({
            let after = control_effect(cancel_req, jobs);
            let j = lookup(jobs, param_job_id(cancel_req.params))->0;
            &&& spec_control(cancel_req, jobs, info) == OutcomeView::Reply(
                ok_view(cancel_req.id, cancelled_json(param_job_id(cancel_req.params))),
            )
            &&& spec_control(status_req, after, info) == OutcomeView::Reply(
                ok_view(
                    status_req.id,
                    status_json(status_of(cancelled_view(j))),
                ),
            )
            &&& status_of(cancelled_view(j)).state == state_name(JobState::Cancelled)
        }),
{
    lemma_method_names_distinct();
    let id = param_job_id(cancel_req.params);
    lemma_cancel_deactivates(jobs, id);
    if !has_job(jobs, id) {
        lemma_lookup_none(jobs, id);
    }
}

/// The keys the health and cancel answers use are distinct.
proof fn lemma_answer_keys_distinct()
    ensures
        "status"@ != "active_jobs"@,
        "cancelled"@ != "job_id"@,
{
    reveal_strlit("status");
    reveal_strlit("active_jobs");
    reveal_strlit("cancelled");
    reveal_strlit("job_id");
    assert("status"@.len() == 6 && "active_jobs"@.len() == 11);
    assert("cancelled"@.len() == 9 && "job_id"@.len() == 6);
}

/// `health` reports activity: the answer succeeds, its `active_jobs` is the
/// number of pending or running jobs (as a 32-bit count), and its `status`
/// is "busy" exactly when that number is non-zero and "ok" otherwise, whatever
/// the worker's settings.  Below 2^32 jobs, "busy" means some job is pending
/// or running.
pub proof fn lemma_health_reports_activity(req: RequestView, jobs: Seq<JobView>, info: InfoView)
    requires
        req.method == "health"@,
    ensures
        spec_control(req, jobs, info) matches OutcomeView::Reply(r) && {
            &&& r.id == req.id
            &&& r.ok
            &&& r.payload matches Some(p) && {
                &&& json_get(p, "active_jobs"@) == Some(uint_view(count_active(jobs) % 0x1_0000_0000))
                &&& json_get(p, "status"@) == Some(
                    JsonView::Str(
                        if count_active(jobs) % 0x1_0000_0000 > 0 {
                            "busy"@
                        } else {
                            "ok"@
                        },
                    ),
                )
            }
        },
        count_active(jobs) < 0x1_0000_0000 ==> (count_active(jobs) > 0 <==> exists|i: int|
            0 <= i < jobs.len() && state_is_active(#[trigger] jobs[i].state)),
{
    lemma_method_names_distinct();
    lemma_answer_keys_distinct();
    let p = health_json(count_active(jobs) % 0x1_0000_0000, info);
    let e = p->Object_0;
    lemma_object_get_at(e, "status"@, 0);
    lemma_object_get_at(e, "active_jobs"@, 1);
    lemma_count_active_positive(jobs, jobs.len() as int);
}

/// Among the first `n` jobs some is active exactly when their active count
/// is non-zero.
proof fn lemma_count_active_positive(jobs: Seq<JobView>, n: int)
    requires
        0 <= n <= jobs.len(),
    ensures
        count_active_upto(jobs, n) > 0 <==> exists|i: int| 0 <= i < n && state_is_active(#[trigger] jobs[i].state),
    decreases n,
{
    if n > 0 {
        lemma_count_active_positive(jobs, n - 1);
        if exists|i: int| 0 <= i < n && state_is_active(#[trigger] jobs[i].state) {
            let i = choose|i: int| 0 <= i < n && state_is_active(#[trigger] jobs[i].state);
            if i < n - 1 {
                assert(exists|i: int| 0 <= i < n - 1 && state_is_active(#[trigger] jobs[i].state));
            }
        } else {
            assert(!state_is_active(jobs[n - 1].state));
        }
    }
}

/// `job_status` reports the job it names, field by field: its id, its
/// state's name, its progress exactly when it has one (whatever its state),
/// and its error when it has a non-empty one; a job that is not registered
/// is answered `JOB_NOT_FOUND`.
pub proof fn lemma_job_status_reports_job(req: RequestView, jobs: Seq<JobView>, info: InfoView)
    requires
        req.method == "job_status"@,
    ensures
        spec_control(req, jobs, info) matches OutcomeView::Reply(r) && r.id == req.id && match lookup(
            jobs,
            param_job_id(req.params),
        ) {
            Some(j) => {
                &&& r.ok
                &&& r.payload matches Some(p) && {
                    &&& json_get(p, "job_id"@) == Some(JsonView::Str(j.job_id))
                    &&& json_get(p, "state"@) == Some(JsonView::Str(state_name(j.state)))
                    &&& json_get(p, "progress"@) == j.progress
                    &&& json_get(p, "error"@) == match j.error_msg {
                        Some(e) => if e.len() > 0 {
                            Some(JsonView::Str(e))
                        } else {
                            None
                        },
                        None => None,
                    }
                }
            },
            None => r == job_not_found(req.id, param_job_id(req.params)),
        },
{
    lemma_method_names_distinct();
    match lookup(jobs, param_job_id(req.params)) {
        Some(j) => {
            lemma_status_json_fields(status_of(j));
        },
        None => {},
    }
}

/// `cancel_job` with a non-empty job id succeeds exactly when a job carries
/// that id, whatever its state, answering `{cancelled: true, job_id}` and
/// cancelling that job; otherwise it answers `JOB_NOT_FOUND` and changes
/// nothing.  Without a job id it is always `JOB_NOT_FOUND` and changes
/// nothing.
pub proof fn lemma_cancel_job_answers(req: RequestView, jobs: Seq<JobView>, info: InfoView)
    requires
        req.method == "cancel_job"@,
    ensures
        ({
            let id = param_job_id(req.params);
            spec_control(req, jobs, info) matches OutcomeView::Reply(r) && r.id == req.id && if id.len()
                > 0 && has_job(jobs, id) {
                &&& r.ok
                &&& r.payload matches Some(p) && {
                    &&& json_get(p, "cancelled"@) == Some(JsonView::Bool(true))
                    &&& json_get(p, "job_id"@) == Some(JsonView::Str(id))
                }
                &&& control_effect(req, jobs) == cancel_in(jobs, id)
            } else {
                &&& !r.ok
                &&& r.error == Some(
                    ErrorView { code: "JOB_NOT_FOUND"@, message: "job "@ + id + " not found"@, detail: Seq::empty() },
                )
                &&& control_effect(req, jobs) == jobs
            }
        }),
{
    lemma_method_names_distinct();
    lemma_answer_keys_distinct();
    let id = param_job_id(req.params);
    let e = cancelled_json(id)->Object_0;
    lemma_object_get_at(e, "cancelled"@, 0);
    lemma_object_get_at(e, "job_id"@, 1);
    if id.len() > 0 && !has_job(jobs, id) {
        lemma_cancel_in_absent(jobs, id);
    }
}

} // verus!
