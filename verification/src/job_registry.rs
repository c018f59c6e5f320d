//! Job tracking, cancel tokens, and per-connection event routing.
//!
//! The registry is product-generic: it tracks each job's lifecycle state,
//! latest progress, error, cancel token and event channel, and does not care
//! what events look like — product code builds [`WireEvent`] values and the
//! registry forwards them to the job's connected client.
use vstd::prelude::*;

use std::time::{Duration, Instant};
use tokio::sync::mpsc;

pub use crate::cancel::{cancel_pair, CancelSignal, CancelToken};
use crate::cancel::{fire_cancel, fires, CancelReceipt};
use crate::json::{json_get, lemma_object_get_at, lemma_object_get_none, JsonValue, JsonView};
use crate::protocol::{opt_json_view, EventView, WireEvent};
use crate::text::concat3;

verus! {

// ─── EVENT CHANNEL AND CLOCKS ────────────────────────────────────────────────

/// Declares `tokio::sync::mpsc::UnboundedSender` to Verus as an opaque type.
#[verifier::external_type_specification]
#[verifier::external_body]
#[verifier::reject_recursive_types(T)]
pub struct ExUnboundedSender<T>(mpsc::UnboundedSender<T>);

/// Declares `std::time::Instant` to Verus as an opaque type.
#[verifier::external_type_specification]
#[verifier::external_body]
pub struct ExInstant(Instant);

/// Sender half for forwarding [`WireEvent`]s to the connected client.
pub type EventSender = mpsc::UnboundedSender<WireEvent>;

/// `UnboundedSender::send`: queues `ev` for the receiver and answers `true`
/// when the receiver is still open; when it is gone, the event is dropped,
/// nothing is queued and the answer is `false`.  Which of the two happens
/// depends on the receiving side, so nothing is stated of the answer.
#[verifier::external_body]
fn send_event(tx: &EventSender, ev: WireEvent) -> (accepted: bool) {
    match tx.send(ev) {
        Ok(()) => true,
        Err(_) => false,
    }
}

/// `Instant::now`: the current instant of the monotonic clock.  It depends on
/// the time, so nothing is stated of it.
#[verifier::external_body]
fn instant_now() -> (t: Instant) {
    Instant::now()
}

/// How long after `earlier` the instant `later` lies, `None` when it lies
/// before (what `Instant::checked_duration_since` returns).
pub uninterp spec fn instant_since(later: Instant, earlier: Instant) -> Option<Duration>;

/// `Instant::checked_duration_since`: how long after `earlier` the instant
/// `later` lies, `None` when it lies before.
#[verifier::external_body]
fn checked_since(later: &Instant, earlier: &Instant) -> (d: Option<Duration>)
    ensures
        d == instant_since(*later, *earlier),
{
    later.checked_duration_since(*earlier)
}

/// The whole milliseconds of a duration (what `Duration::as_millis`
/// returns).
pub uninterp spec fn duration_as_millis(d: Duration) -> u128;

/// `Duration::as_millis`: the whole milliseconds of a duration.
#[verifier::external_body]
fn duration_millis(d: &Duration) -> (ms: u128)
    ensures
        ms == duration_as_millis(*d),
{
    d.as_millis()
}

/// The whole nanoseconds of a duration (what `Duration::as_nanos` returns).
pub uninterp spec fn duration_as_nanos(d: Duration) -> u128;

/// `Duration::as_nanos`: the whole nanoseconds of a duration.
#[verifier::external_body]
fn duration_nanos(d: &Duration) -> (ns: u128)
    ensures
        ns == duration_as_nanos(*d),
{
    d.as_nanos()
}

/// Where the instant `t` lies relative to `epoch`, in signed nanoseconds:
/// the order of these offsets is the order of the instants.
pub open spec fn start_offset(t: Instant, epoch: Instant) -> int {
    match instant_since(t, epoch) {
        Some(d) => duration_as_nanos(d) as int,
        None => match instant_since(epoch, t) {
            Some(d) => -(duration_as_nanos(d) as int),
            None => 0,
        },
    }
}

/// The whole milliseconds from `earlier` to `later` (none when `later` lies
/// before), truncated to 64 bits.
pub open spec fn millis_between(later: Instant, earlier: Instant) -> u64 {
    match instant_since(later, earlier) {
        Some(d) => (duration_as_millis(d) % 0x1_0000_0000_0000_0000) as u64,
        None => 0,
    }
}

/// The value of a signed offset held as a sign (`true` for before) and a
/// magnitude.
pub open spec fn offset_value(o: (bool, u128)) -> int {
    if o.0 {
        -(o.1 as int)
    } else {
        o.1 as int
    }
}

/// The offset of `t` from `epoch`, as a sign and a magnitude.
fn offset_from(t: &Instant, epoch: &Instant) -> (o: (bool, u128))
    ensures
        offset_value(o) == start_offset(*t, *epoch),
{
    match checked_since(t, epoch) {
        Some(d) => (false, duration_nanos(&d)),
        None => match checked_since(epoch, t) {
            Some(d) => (true, duration_nanos(&d)),
            None => (false, 0),
        },
    }
}

/// Whether offset `a` lies after offset `b`.
fn offset_after(a: (bool, u128), b: (bool, u128)) -> (r: bool)
    ensures
        r == (offset_value(a) > offset_value(b)),
{
    match (a.0, b.0) {
        (false, false) => a.1 > b.1,
        (false, true) => a.1 > 0 || b.1 > 0,
        (true, false) => false,
        (true, true) => a.1 < b.1,
    }
}

/// The low 64 bits of a 128-bit count (what `as u64` keeps).
fn low_u64(x: u128) -> (r: u64)
    ensures
        r == x % 0x1_0000_0000_0000_0000,
{
    (x % 0x1_0000_0000_0000_0000) as u64
}

// ─── JOB STATE ───────────────────────────────────────────────────────────────

/// Lifecycle state of a job.
#[derive(Debug, Clone, Copy, PartialEq, Eq, Structural)]
pub enum JobState {
    Pending,
    Running,
    Completed,
    Failed,
    Cancelled,
}

/// The lowercase name of a state, as reported by `job_status`.
pub open spec fn state_name(s: JobState) -> Seq<char> {
    match s {
        JobState::Pending => "pending"@,
        JobState::Running => "running"@,
        JobState::Completed => "completed"@,
        JobState::Failed => "failed"@,
        JobState::Cancelled => "cancelled"@,
    }
}

/// A job is active while it is pending or running.
pub open spec fn state_is_active(s: JobState) -> bool {
    s == JobState::Pending || s == JobState::Running
}

impl JobState {
    /// The state's lowercase name.
    pub fn to_string(&self) -> (s: String)
        ensures
            s@ == state_name(*self),
    {
        match self {
            JobState::Pending => "pending".to_owned(),
            JobState::Running => "running".to_owned(),
            JobState::Completed => "completed".to_owned(),
            JobState::Failed => "failed".to_owned(),
            JobState::Cancelled => "cancelled".to_owned(),
        }
    }

    /// Whether the state is pending or running.
    pub fn is_active(&self) -> (b: bool)
        ensures
            b == state_is_active(*self),
    {
        match self {
            JobState::Pending | JobState::Running => true,
            _ => false,
        }
    }
}

// ─── JOB STATUS SNAPSHOT ─────────────────────────────────────────────────────

/// Answer to a `job_status` query.
#[derive(Debug, Clone, PartialEq)]
pub struct JobStatus {
    pub job_id: String,
    pub state: String,
    /// Opaque product progress (e.g. scan counters); omitted when absent.
    pub progress: Option<JsonValue>,
    /// Omitted on the wire when empty.
    pub error: String,
}

/// The abstract content of a [`JobStatus`].
pub struct StatusView {
    pub job_id: Seq<char>,
    pub state: Seq<char>,
    pub progress: Option<JsonView>,
    pub error: Seq<char>,
}

impl View for JobStatus {
    type V = StatusView;

    open spec fn view(&self) -> StatusView {
        StatusView {
            job_id: self.job_id@,
            state: self.state@,
            progress: opt_json_view(self.progress),
            error: self.error@,
        }
    }
}

/// The JSON object a status travels as: `job_id` and `state`, then
/// `progress` when present and `error` when non-empty.
pub open spec fn status_json(s: StatusView) -> JsonView {
    JsonView::Object(
        seq![("job_id"@, JsonView::Str(s.job_id)), ("state"@, JsonView::Str(s.state))] + match s.progress {
            Some(p) => seq![("progress"@, p)],
            None => Seq::empty(),
        } + if s.error.len() > 0 {
            seq![("error"@, JsonView::Str(s.error))]
        } else {
            Seq::empty()
        },
    )
}

impl JobStatus {
    /// The status as a JSON object.
    pub fn to_json(&self) -> (v: JsonValue)
        ensures
            v@ == status_json(self@),
    {
        let mut entries: Vec<(String, JsonValue)> = Vec::new();
        entries.push(("job_id".to_owned(), JsonValue::from_str(self.job_id.as_str())));
        entries.push(("state".to_owned(), JsonValue::from_str(self.state.as_str())));
        match &self.progress {
            Some(p) => entries.push(("progress".to_owned(), p.deep_clone())),
            None => {},
        }
        if self.error.as_str().unicode_len() > 0 {
            entries.push(("error".to_owned(), JsonValue::from_str(self.error.as_str())));
        }
        let v = JsonValue::Object(entries);
        proof {
            assert(v@->Object_0 =~= status_json(self@)->Object_0);
        }
        v
    }
}

// ─── JOB ENTRY ───────────────────────────────────────────────────────────────

/// One tracked job.
pub struct Job {
    pub job_id: String,
    pub state: JobState,
    pub started_at: Instant,
    /// Latest product-specific progress snapshot for `job_status`.
    pub progress: Option<JsonValue>,
    pub error_msg: Option<String>,
    /// Consumed once on cancel.
    cancel: Option<CancelToken>,
    /// What firing the token left behind.
    fired: Option<CancelReceipt>,
    /// Channel to the connected client's write loop; `None` after disconnect.
    event_tx: Option<EventSender>,
    /// The events that channel accepted, oldest first.
    delivered: Ghost<Seq<EventView>>,
}

/// Where a job's cancel token stands.
pub enum TokenState {
    /// Not fired yet.
    Armed(CancelToken),
    /// Fired: `()` was sent on it.
    Fired(CancelToken),
    /// Neither held nor fired (no job reaches this state).
    Gone,
}

/// The abstract content of a [`Job`].
pub struct JobView {
    pub job_id: Seq<char>,
    pub state: JobState,
    pub progress: Option<JsonView>,
    pub error_msg: Option<Seq<char>>,
    /// The instant the job was created; eviction keeps the finished jobs
    /// that started last.
    pub started_at: Instant,
    pub cancel: TokenState,
    /// The events the attached client's channel accepted so far, oldest
    /// first; `None` once no client is attached.
    pub events: Option<Seq<EventView>>,
}

/// A job's view once it has been cancelled: an armed token is fired, and an
/// active job becomes cancelled while a finished one keeps its state.
pub open spec fn cancelled_view(j: JobView) -> JobView {
    JobView {
        state: if state_is_active(j.state) {
            JobState::Cancelled
        } else {
            j.state
        },
        cancel: match j.cancel {
            TokenState::Armed(t) => TokenState::Fired(t),
            other => other,
        },
        ..j
    }
}

/// A job's view once its client's channel accepted `e`: `e` is appended to
/// what the channel accepted; without a client nothing changes.
pub open spec fn emitted_view(j: JobView, e: EventView) -> JobView {
    match j.events {
        Some(log) => JobView { events: Some(log.push(e)), ..j },
        None => j,
    }
}

impl Job {
    /// A new pending job with its cancel token armed and its client attached;
    /// it starts now.
    pub fn new(job_id: String, event_tx: EventSender, cancel: CancelToken) -> (j: Self)
        ensures
            j@ == (JobView {
                job_id: job_id@,
                state: JobState::Pending,
                progress: None,
                error_msg: None,
                started_at: j@.started_at,
                cancel: TokenState::Armed(cancel),
                events: Some(Seq::empty()),
            }),
    {
        let started_at = instant_now();
        Job {
            job_id,
            state: JobState::Pending,
            started_at,
            progress: None,
            error_msg: None,
            cancel: Some(cancel),
            fired: None,
            event_tx: Some(event_tx),
            delivered: Ghost(Seq::empty()),
        }
    }

    /// Signals cancellation.  Idempotent: the token fires at most once, and
    /// only an active job changes state.
    pub fn cancel(&mut self)
        ensures
            final(self)@ == cancelled_view(old(self)@),
    {
        let token = self.cancel.take();
        match token {
            Some(tok) => {
                self.fired = Some(fire_cancel(tok));
            },
            None => {},
        }
        if self.state.is_active() {
            self.state = JobState::Cancelled;
        }
    }

    /// Emits an event towards the connected client; a silent no-op once the
    /// client is detached.  Answers whether the client's channel accepted
    /// the event (it does not once the receiver is gone); only an accepted
    /// event is recorded.
    pub fn emit(&mut self, ev: WireEvent) -> (accepted: bool)
        ensures
            accepted ==> old(self)@.events is Some,
            final(self)@ == if accepted {
                emitted_view(old(self)@, ev@)
            } else {
                old(self)@
            },
    {
        let ghost e = ev@;
        match &self.event_tx {
            Some(tx) => {
                let accepted = send_event(tx, ev);
                if accepted {
                    self.delivered = Ghost(self.delivered@.push(e));
                }
                accepted
            },
            None => false,
        }
    }

    /// Marks the client as disconnected; the job keeps running but stops
    /// emitting events.
    pub fn detach_client(&mut self)
        ensures
            final(self)@ == (JobView { events: None, ..old(self)@ }),
    {
        self.event_tx = None;
    }

    /// The job's id.
    pub fn id(&self) -> (r: &str)
        ensures
            r@ == self@.job_id,
    {
        self.job_id.as_str()
    }

    /// The job's lifecycle state.
    pub fn current_state(&self) -> (s: JobState)
        ensures
            s == self@.state,
    {
        self.state
    }

    /// The job's latest progress snapshot.
    pub fn latest_progress(&self) -> (p: &Option<JsonValue>)
        ensures
            opt_json_view(*p) == self@.progress,
    {
        &self.progress
    }

    /// The job's error message, if it failed.
    pub fn error(&self) -> (e: &Option<String>)
        ensures
            match *e {
                Some(m) => self@.error_msg == Some(m@),
                None => self@.error_msg is None,
            },
    {
        &self.error_msg
    }

    /// Milliseconds since the job was created: from its start to the
    /// instant read now (truncated to 64 bits).
    pub fn duration_ms(&self) -> (ms: u64)
        ensures
            exists|now: Instant| ms == #[trigger] millis_between(now, self@.started_at),
    {
        let now = instant_now();
        let ms = match checked_since(&now, &self.started_at) {
            Some(d) => low_u64(duration_millis(&d)),
            None => 0,
        };
        assert(ms == millis_between(now, self@.started_at));
        ms
    }
}

impl View for Job {
    type V = JobView;

    closed spec fn view(&self) -> JobView {
        JobView {
            job_id: self.job_id@,
            state: self.state,
            progress: opt_json_view(self.progress),
            error_msg: match self.error_msg {
                Some(e) => Some(e@),
                None => None,
            },
            started_at: self.started_at,
            cancel: match self.cancel {
                Some(t) => TokenState::Armed(t),
                None => match self.fired {
                    Some(r) => TokenState::Fired(r.token()),
                    None => TokenState::Gone,
                },
            },
            events: match self.event_tx {
                Some(_) => Some(self.delivered@),
                None => None,
            },
        }
    }
}

// ─── REGISTRY ────────────────────────────────────────────────────────────────

/// The abstract content of a [`JobRegistry`]: its jobs in registration order,
/// the number of jobs that reached completion or failure, and the instant
/// the registry was created (the reference for the jobs' start offsets).
pub struct RegistryView {
    pub jobs: Seq<JobView>,
    pub total_completed: u64,
    pub epoch: Instant,
}

/// In-memory job table.
pub struct JobRegistry {
    jobs: Vec<Job>,
    total_completed: u64,
    epoch: Instant,
}

/// No two jobs share an id.
pub open spec fn ids_distinct(jobs: Seq<JobView>) -> bool {
    forall|i: int, j: int|
        0 <= i < jobs.len() && 0 <= j < jobs.len() && i != j ==> #[trigger] jobs[i].job_id
            != #[trigger] jobs[j].job_id
}

/// The job registered under `id`, if any.
pub open spec fn lookup(jobs: Seq<JobView>, id: Seq<char>) -> Option<JobView>
    decreases jobs.len(),
{
    if jobs.len() == 0 {
        None
    } else if jobs[0].job_id == id {
        Some(jobs[0])
    } else {
        lookup(jobs.skip(1), id)
    }
}

/// The jobs with the job registered under `id` (if any) transformed by `f`,
/// everything else untouched.
pub open spec fn update_job(
    jobs: Seq<JobView>,
    id: Seq<char>,
    f: spec_fn(JobView) -> JobView,
) -> Seq<JobView> {
    jobs.map_values(
        |r: JobView|
            if r.job_id == id {
                f(r)
            } else {
                r
            },
    )
}

/// The jobs after marking the job registered under `id` (if any) running.
pub open spec fn running_in(jobs: Seq<JobView>, id: Seq<char>) -> Seq<JobView> {
    update_job(jobs, id, |j: JobView| JobView { state: JobState::Running, ..j })
}

/// The jobs after marking the job registered under `id` (if any) completed
/// with final progress `p`.
pub open spec fn completed_in(jobs: Seq<JobView>, id: Seq<char>, p: JsonView) -> Seq<JobView> {
    update_job(jobs, id, |j: JobView| JobView { state: JobState::Completed, progress: Some(p), ..j })
}

/// The jobs after marking the job registered under `id` (if any) failed with
/// error message `e`.
pub open spec fn failed_in(jobs: Seq<JobView>, id: Seq<char>, e: Seq<char>) -> Seq<JobView> {
    update_job(jobs, id, |j: JobView| JobView { state: JobState::Failed, error_msg: Some(e), ..j })
}

/// The jobs after replacing the progress of the job registered under `id`
/// (if any) with `p`.
pub open spec fn progress_in(jobs: Seq<JobView>, id: Seq<char>, p: JsonView) -> Seq<JobView> {
    update_job(jobs, id, |j: JobView| JobView { progress: Some(p), ..j })
}

/// The jobs after detaching the client of the job registered under `id` (if
/// any).
pub open spec fn detached_in(jobs: Seq<JobView>, id: Seq<char>) -> Seq<JobView> {
    update_job(jobs, id, |j: JobView| JobView { events: None, ..j })
}

/// The jobs after emitting `e` for the job registered under `id` (if any).
pub open spec fn emit_in(jobs: Seq<JobView>, id: Seq<char>, e: EventView) -> Seq<JobView> {
    update_job(jobs, id, |j: JobView| emitted_view(j, e))
}

/// The jobs after cancelling the job registered under `id` (if any).
pub open spec fn cancel_in(jobs: Seq<JobView>, id: Seq<char>) -> Seq<JobView> {
    update_job(jobs, id, |j: JobView| cancelled_view(j))
}

/// The number of active (pending or running) jobs among the first `n`.
pub open spec fn count_active_upto(jobs: Seq<JobView>, n: int) -> nat
    decreases n,
{
    if n <= 0 {
        0
    } else {
        count_active_upto(jobs, n - 1) + if state_is_active(jobs[n - 1].state) {
            1nat
        } else {
            0nat
        }
    }
}

/// The number of active (pending or running) jobs.
pub open spec fn count_active(jobs: Seq<JobView>) -> nat {
    count_active_upto(jobs, jobs.len() as int)
}

/// Job `j` is a finished job that eviction ranks ahead of job `i`: it started
/// later, or at the same time and was registered earlier.
pub open spec fn outranks(jobs: Seq<JobView>, epoch: Instant, j: int, i: int) -> bool {
    &&& !state_is_active(jobs[j].state)
    &&& (start_offset(jobs[j].started_at, epoch) > start_offset(jobs[i].started_at, epoch) || (start_offset(jobs[j].started_at, epoch) == start_offset(jobs[i].started_at, epoch) && j < i))
}

/// How many of the first `n` jobs outrank job `i`.
pub open spec fn rank_upto(jobs: Seq<JobView>, epoch: Instant, i: int, n: int) -> nat
    decreases n,
{
    if n <= 0 {
        0
    } else {
        rank_upto(jobs, epoch, i, n - 1) + if outranks(jobs, epoch, n - 1, i) {
            1nat
        } else {
            0nat
        }
    }
}

/// How many finished jobs outrank job `i`.
pub open spec fn rank(jobs: Seq<JobView>, epoch: Instant, i: int) -> nat {
    rank_upto(jobs, epoch, i, jobs.len() as int)
}

/// Eviction keeps job `i`: it is active, or fewer than `keep_n` finished
/// jobs outrank it.
pub open spec fn gc_keeps(jobs: Seq<JobView>, epoch: Instant, keep_n: nat, i: int) -> bool {
    state_is_active(jobs[i].state) || rank(jobs, epoch, i) < keep_n
}

/// The jobs from position `start` on that eviction keeps, in order.
pub open spec fn gc_from(jobs: Seq<JobView>, epoch: Instant, keep_n: nat, start: int) -> Seq<JobView>
    decreases jobs.len() - start,
{
    if start < 0 || start >= jobs.len() {
        Seq::empty()
    } else {
        (if gc_keeps(jobs, epoch, keep_n, start) {
            seq![jobs[start]]
        } else {
            Seq::empty()
        }) + gc_from(jobs, epoch, keep_n, start + 1)
    }
}

/// The jobs that eviction keeps, in order.
pub open spec fn gc_result(jobs: Seq<JobView>, epoch: Instant, keep_n: nat) -> Seq<JobView> {
    gc_from(jobs, epoch, keep_n, 0)
}

/// The status snapshot of a job: its id, its state's name, its progress and
/// its error message (empty when it has none).
pub open spec fn status_of(j: JobView) -> StatusView {
    StatusView {
        job_id: j.job_id,
        state: state_name(j.state),
        progress: j.progress,
        error: match j.error_msg {
            Some(e) => e,
            None => Seq::empty(),
        },
    }
}

/// The job registered under `id` exists.
pub open spec fn has_job(jobs: Seq<JobView>, id: Seq<char>) -> bool {
    exists|i: int| 0 <= i < jobs.len() && #[trigger] jobs[i].job_id == id
}

/// With distinct ids, `lookup` finds the one job that carries the id.
pub proof fn lemma_lookup_at(jobs: Seq<JobView>, id: Seq<char>, i: int)
    requires
        ids_distinct(jobs),
        0 <= i < jobs.len(),
        jobs[i].job_id == id,
    ensures
        lookup(jobs, id) == Some(jobs[i]),
    decreases jobs.len(),
{
    if i > 0 {
        assert(jobs[0].job_id != jobs[i].job_id);
        let rest = jobs.skip(1);
        assert(rest[i - 1] == jobs[i]);
        assert forall|a: int, b: int|
            0 <= a < rest.len() && 0 <= b < rest.len() && a != b implies #[trigger] rest[a].job_id
            != #[trigger] rest[b].job_id by {
            assert(rest[a] == jobs[a + 1]);
            assert(rest[b] == jobs[b + 1]);
        }
        lemma_lookup_at(rest, id, i - 1);
    }
}

/// `lookup` finds nothing when no job carries the id.
pub proof fn lemma_lookup_none(jobs: Seq<JobView>, id: Seq<char>)
    requires
        !has_job(jobs, id),
    ensures
        lookup(jobs, id) is None,
    decreases jobs.len(),
{
    if jobs.len() > 0 {
        assert(jobs[0].job_id != id);
        let rest = jobs.skip(1);
        assert forall|i: int| 0 <= i < rest.len() implies #[trigger] rest[i].job_id != id by {
            assert(rest[i] == jobs[i + 1]);
        }
        lemma_lookup_none(rest, id);
    }
}

/// The views of a sequence of jobs.
spec fn records(jobs: Seq<Job>) -> Seq<JobView> {
    jobs.map_values(|j: Job| j@)
}

impl View for JobRegistry {
    type V = RegistryView;

    closed spec fn view(&self) -> RegistryView {
        RegistryView {
            jobs: records(self.jobs@),
            total_completed: self.total_completed,
            epoch: self.epoch,
        }
    }
}

/// Where the job registered under `job_id` sits among `jobs`, if anywhere.
fn position_in(jobs: &Vec<Job>, job_id: &str) -> (r: Option<usize>)
    requires
        ids_distinct(records(jobs@)),
    ensures
        match r {
            Some(i) => {
                &&& i < jobs@.len()
                &&& records(jobs@)[i as int].job_id == job_id@
                &&& lookup(records(jobs@), job_id@) == Some(records(jobs@)[i as int])
                &&& has_job(records(jobs@), job_id@)
            },
            None => {
                &&& !has_job(records(jobs@), job_id@)
                &&& lookup(records(jobs@), job_id@) is None
            },
        },
{
    let key = job_id.to_owned();
    let mut i: usize = 0;
    while i < jobs.len()
        invariant
            i <= jobs@.len(),
            key@ == job_id@,
            ids_distinct(records(jobs@)),
            forall|k: int| 0 <= k < i ==> #[trigger] records(jobs@)[k].job_id != job_id@,
        decreases jobs@.len() - i,
    {
        assert(records(jobs@)[i as int].job_id == jobs@[i as int].job_id@);
        if jobs[i].job_id == key {
            proof {
                lemma_lookup_at(records(jobs@), job_id@, i as int);
            }
            return Some(i);
        }
        i = i + 1;
    }
    proof {
        lemma_lookup_none(records(jobs@), job_id@);
    }
    None
}

/// How many finished jobs among `jobs` outrank the job at position `i`.
/// (`starts` holds each job's start offset from `epoch`.)
fn rank_in(jobs: &Vec<Job>, starts: &Vec<(bool, u128)>, i: usize, Ghost(epoch): Ghost<Instant>) -> (r: usize)
    requires
        i < jobs@.len(),
        starts@.len() == jobs@.len(),
        forall|k: int|
            0 <= k < jobs@.len() ==> offset_value(#[trigger] starts@[k]) == start_offset(
                records(jobs@)[k].started_at,
                epoch,
            ),
    ensures
        r == rank(records(jobs@), epoch, i as int),
{
    let ghost v = records(jobs@);
    let mut count: usize = 0;
    let mut j: usize = 0;
    while j < jobs.len()
        invariant
            v == records(jobs@),
            i < jobs@.len(),
            j <= jobs@.len(),
            starts@.len() == jobs@.len(),
            forall|k: int|
                0 <= k < jobs@.len() ==> offset_value(#[trigger] starts@[k]) == start_offset(
                    v[k].started_at,
                    epoch,
                ),
            count == rank_upto(v, epoch, i as int, j as int),
            count <= j,
        decreases jobs@.len() - j,
    {
        let sj = starts[j];
        let si = starts[i];
        let later = offset_after(sj, si);
        let same = !later && !offset_after(si, sj);
        if !jobs[j].state.is_active() && (later || (same && j < i)) {
            count = count + 1;
        }
        j = j + 1;
    }
    count
}

impl JobRegistry {
    /// No two jobs share an id.
    #[verifier::type_invariant]
    closed spec fn inv(&self) -> bool {
        ids_distinct(records(self.jobs@))
    }

    /// Takes the job table out, leaving an empty one in its place.
    fn take_jobs(&mut self) -> (jobs: Vec<Job>)
        ensures
            jobs@ == old(self).jobs@,
            final(self).jobs@ == Seq::<Job>::empty(),
            final(self).total_completed == old(self).total_completed,
            final(self).epoch == old(self).epoch,
            ids_distinct(records(jobs@)),
    {
        proof {
            use_type_invariant(&*self);
        }
        let mut jobs: Vec<Job> = Vec::new();
        std::mem::swap(&mut jobs, &mut self.jobs);
        jobs
    }

    /// An empty registry.
    pub fn new() -> (r: Self)
        ensures
            r@.jobs == Seq::<JobView>::empty(),
            r@.total_completed == 0,
    {
        let r = JobRegistry { jobs: Vec::new(), total_completed: 0, epoch: instant_now() };
        assert(r@.jobs =~= Seq::<JobView>::empty());
        r
    }

    /// Registers a new job.  Fails, leaving the registry as it was, when a
    /// job with the same id is already registered.
    pub fn register(&mut self, job: Job) -> (r: Result<(), String>)
        ensures
            ids_distinct(final(self)@.jobs),
            final(self)@.total_completed == old(self)@.total_completed,
            final(self)@.epoch == old(self)@.epoch,
            match r {
                Ok(()) => {
                    &&& !has_job(old(self)@.jobs, job@.job_id)
                    &&& final(self)@.jobs == old(self)@.jobs.push(job@)
                },
                Err(msg) => {
                    &&& has_job(old(self)@.jobs, job@.job_id)
                    &&& msg@ == "job "@ + job@.job_id + " already registered"@
                    &&& final(self)@ == old(self)@
                },
            },
    {
        proof {
            use_type_invariant(&*self);
        }
        match position_in(&self.jobs, job.job_id.as_str()) {
            Some(_) => {
                return Err(concat3("job ", job.job_id.as_str(), " already registered"));
            },
            None => {},
        }
        let mut jobs = self.take_jobs();
        let ghost before = records(jobs@);
        let ghost jv = job@;
        jobs.push(job);
        proof {
            let v = records(jobs@);
            assert(v =~= before.push(jv));
            assert forall|a: int, b: int|
                0 <= a < v.len() && 0 <= b < v.len() && a != b implies #[trigger] v[a].job_id
                != #[trigger] v[b].job_id by {
                if a < before.len() {
                    assert(v[a] == before[a]);
                }
                if b < before.len() {
                    assert(v[b] == before[b]);
                }
            }
        }
        self.jobs = jobs;
        Ok(())
    }

    /// Marks the job registered under `job_id` as running; does nothing when
    /// no such job exists.
    pub fn set_running(&mut self, job_id: &str)
        ensures
            ids_distinct(final(self)@.jobs),
            final(self)@.total_completed == old(self)@.total_completed,
            final(self)@.epoch == old(self)@.epoch,
            final(self)@.jobs == running_in(old(self)@.jobs, job_id@),
    {
        let mut jobs = self.take_jobs();
        match position_in(&jobs, job_id) {
            Some(i) => {
                jobs[i].state = JobState::Running;
            },
            None => {},
        }
        assert(records(jobs@) =~= running_in(old(self)@.jobs, job_id@));
        self.jobs = jobs;
    }

    /// Marks the job registered under `job_id` as completed with its final
    /// progress.  The completion counter grows by one whether or not the job
    /// exists.
    pub fn set_completed(&mut self, job_id: &str, progress: JsonValue)
        requires
            old(self)@.total_completed < u64::MAX,
        ensures
            ids_distinct(final(self)@.jobs),
            final(self)@.total_completed == old(self)@.total_completed + 1,
            final(self)@.epoch == old(self)@.epoch,
            final(self)@.jobs == completed_in(old(self)@.jobs, job_id@, progress@),
    {
        let ghost p = progress@;
        let mut jobs = self.take_jobs();
        match position_in(&jobs, job_id) {
            Some(i) => {
                jobs[i].state = JobState::Completed;
                jobs[i].progress = Some(progress);
            },
            None => {},
        }
        assert(records(jobs@) =~= completed_in(old(self)@.jobs, job_id@, p));
        self.jobs = jobs;
        self.total_completed = self.total_completed + 1;
    }

    /// Marks the job registered under `job_id` as failed with an error
    /// message.  The completion counter grows by one whether or not the job
    /// exists.
    pub fn set_failed(&mut self, job_id: &str, err: String)
        requires
            old(self)@.total_completed < u64::MAX,
        ensures
            ids_distinct(final(self)@.jobs),
            final(self)@.total_completed == old(self)@.total_completed + 1,
            final(self)@.epoch == old(self)@.epoch,
            final(self)@.jobs == failed_in(old(self)@.jobs, job_id@, err@),
    {
        let ghost e = err@;
        let mut jobs = self.take_jobs();
        match position_in(&jobs, job_id) {
            Some(i) => {
                jobs[i].state = JobState::Failed;
                jobs[i].error_msg = Some(err);
            },
            None => {},
        }
        assert(records(jobs@) =~= failed_in(old(self)@.jobs, job_id@, e));
        self.jobs = jobs;
        self.total_completed = self.total_completed + 1;
    }

    /// Cancels the job registered under `job_id` (see [`Job::cancel`]).
    /// Returns whether the job was found.
    pub fn cancel(&mut self, job_id: &str) -> (found: bool)
        ensures
            ids_distinct(final(self)@.jobs),
            found == has_job(old(self)@.jobs, job_id@),
            final(self)@.total_completed == old(self)@.total_completed,
            final(self)@.epoch == old(self)@.epoch,
            final(self)@.jobs == cancel_in(old(self)@.jobs, job_id@),
    {
        let mut jobs = self.take_jobs();
        let found = match position_in(&jobs, job_id) {
            Some(i) => {
                jobs[i].cancel();
                true
            },
            None => false,
        };
        assert(records(jobs@) =~= cancel_in(old(self)@.jobs, job_id@));
        self.jobs = jobs;
        found
    }

    /// Replaces the progress snapshot of the job registered under `job_id`.
    pub fn update_progress(&mut self, job_id: &str, progress: JsonValue)
        ensures
            ids_distinct(final(self)@.jobs),
            final(self)@.total_completed == old(self)@.total_completed,
            final(self)@.epoch == old(self)@.epoch,
            final(self)@.jobs == progress_in(old(self)@.jobs, job_id@, progress@),
    {
        let ghost p = progress@;
        let mut jobs = self.take_jobs();
        match position_in(&jobs, job_id) {
            Some(i) => {
                jobs[i].progress = Some(progress);
            },
            None => {},
        }
        assert(records(jobs@) =~= progress_in(old(self)@.jobs, job_id@, p));
        self.jobs = jobs;
    }

    /// Forwards an event to the client connected to the job registered under
    /// `job_id`; a silent no-op when there is no such job or no client.
    /// Answers whether that client's channel accepted the event.
    pub fn emit(&mut self, job_id: &str, ev: WireEvent) -> (accepted: bool)
        ensures
            ids_distinct(final(self)@.jobs),
            final(self)@.total_completed == old(self)@.total_completed,
            final(self)@.epoch == old(self)@.epoch,
            accepted ==> (lookup(old(self)@.jobs, job_id@) matches Some(j) && j.events is Some),
            final(self)@.jobs == if accepted {
                emit_in(old(self)@.jobs, job_id@, ev@)
            } else {
                old(self)@.jobs
            },
    {
        let ghost e = ev@;
        let mut jobs = self.take_jobs();
        let accepted = match position_in(&jobs, job_id) {
            Some(i) => jobs[i].emit(ev),
            None => false,
        };
        if accepted {
            assert(records(jobs@) =~= emit_in(old(self)@.jobs, job_id@, e));
        } else {
            assert(records(jobs@) =~= old(self)@.jobs);
        }
        self.jobs = jobs;
        accepted
    }

    /// Detaches the client of the job registered under `job_id`.
    pub fn detach_client(&mut self, job_id: &str)
        ensures
            ids_distinct(final(self)@.jobs),
            final(self)@.total_completed == old(self)@.total_completed,
            final(self)@.epoch == old(self)@.epoch,
            final(self)@.jobs == detached_in(old(self)@.jobs, job_id@),
    {
        let mut jobs = self.take_jobs();
        match position_in(&jobs, job_id) {
            Some(i) => {
                jobs[i].detach_client();
            },
            None => {},
        }
        assert(records(jobs@) =~= detached_in(old(self)@.jobs, job_id@));
        self.jobs = jobs;
    }

    /// Status snapshot for the `job_status` query.
    pub fn status(&self, job_id: &str) -> (r: Option<JobStatus>)
        ensures
            ids_distinct(self@.jobs),
            match lookup(self@.jobs, job_id@) {
                None => r is None,
                Some(j) => r is Some && r->0@ == status_of(j),
            },
    {
        proof {
            use_type_invariant(self);
        }
        match position_in(&self.jobs, job_id) {
            Some(i) => {
                let job = &self.jobs[i];
                let progress = match &job.progress {
                    Some(p) => Some(p.deep_clone()),
                    None => None,
                };
                let error = match &job.error_msg {
                    Some(e) => e.clone(),
                    None => String::new(),
                };
                Some(
                    JobStatus {
                        job_id: job.job_id.clone(),
                        state: job.state.to_string(),
                        progress,
                        error,
                    },
                )
            },
            None => None,
        }
    }

    /// Number of jobs currently pending or running (truncated to 32 bits).
    pub fn active_count(&self) -> (n: u32)
        ensures
            ids_distinct(self@.jobs),
            n as nat == count_active(self@.jobs) % 0x1_0000_0000,
    {
        proof {
            use_type_invariant(self);
        }
        let mut count: usize = 0;
        let mut i: usize = 0;
        while i < self.jobs.len()
            invariant
                i <= self.jobs@.len(),
                count == count_active_upto(self@.jobs, i as int),
                count <= i,
            decreases self.jobs@.len() - i,
        {
            if self.jobs[i].state.is_active() {
                count = count + 1;
            }
            i = i + 1;
        }
        ((count as u64) % 0x1_0000_0000) as u32
    }

    /// Evicts finished (completed, failed or cancelled) jobs, keeping at most
    /// `keep_n` of them: those that started most recently (among jobs that
    /// started at the same moment, the earlier registered).  Active jobs are
    /// never evicted; the remaining jobs keep their order.
    pub fn gc(&mut self, keep_n: usize)
        ensures
            ids_distinct(final(self)@.jobs),
            final(self)@.total_completed == old(self)@.total_completed,
            final(self)@.epoch == old(self)@.epoch,
            final(self)@.jobs == gc_result(old(self)@.jobs, old(self)@.epoch, keep_n as nat),
    {
        let ghost epoch = self.epoch;
        let mut jobs = self.take_jobs();
        let ghost old_jobs = records(jobs@);
        let n = jobs.len();
        let mut starts: Vec<(bool, u128)> = Vec::new();
        let mut i: usize = 0;
        while i < n
            invariant
                n == jobs@.len(),
                records(jobs@) == old_jobs,
                i <= n,
                starts@.len() == i,
                epoch == self.epoch,
                forall|k: int|
                    0 <= k < i ==> offset_value(#[trigger] starts@[k]) == start_offset(
                        old_jobs[k].started_at,
                        epoch,
                    ),
            decreases n - i,
        {
            starts.push(offset_from(&jobs[i].started_at, &self.epoch));
            i = i + 1;
        }
        let mut keep: Vec<bool> = Vec::new();
        let mut i: usize = 0;
        while i < n
            invariant
                n == jobs@.len(),
                records(jobs@) == old_jobs,
                i <= n,
                starts@.len() == n,
                forall|k: int|
                    0 <= k < n ==> offset_value(#[trigger] starts@[k]) == start_offset(
                        old_jobs[k].started_at,
                        epoch,
                    ),
                keep@.len() == i,
                forall|k: int| 0 <= k < i ==> #[trigger] keep@[k] == gc_keeps(old_jobs, epoch, keep_n as nat, k),
            decreases n - i,
        {
            let kept = if jobs[i].state.is_active() {
                true
            } else {
                rank_in(&jobs, &starts, i, Ghost(epoch)) < keep_n
            };
            keep.push(kept);
            i = i + 1;
        }
        let mut i: usize = n;
        assert(old_jobs.take(n as int) + gc_from(old_jobs, epoch, keep_n as nat, n as int) =~= old_jobs);
        while i > 0
            invariant
                n == old_jobs.len(),
                i <= n,
                keep@.len() == n,
                forall|k: int| 0 <= k < n ==> #[trigger] keep@[k] == gc_keeps(old_jobs, epoch, keep_n as nat, k),
                records(jobs@) == old_jobs.take(i as int) + gc_from(old_jobs, epoch, keep_n as nat, i as int),
                ids_distinct(records(jobs@)),
            decreases i,
        {
            let k = i - 1;
            let ghost cur = records(jobs@);
            assert(old_jobs.take(i as int) =~= old_jobs.take(k as int).push(old_jobs[k as int]));
            if !keep[k] {
                let ghost raw = jobs@;
                assert(cur.len() == raw.len());
                let _evicted = jobs.remove(k);
                proof {
                    let v = records(jobs@);
                    assert(jobs@ =~= raw.remove(k as int));
                    assert(v =~= cur.remove(k as int));
                    assert(v =~= old_jobs.take(k as int) + gc_from(old_jobs, epoch, keep_n as nat, k as int));
                    assert forall|a: int, b: int|
                        0 <= a < v.len() && 0 <= b < v.len() && a != b implies #[trigger] v[a].job_id
                        != #[trigger] v[b].job_id by {
                        let a2 = if a < k {
                            a
                        } else {
                            a + 1
                        };
                        let b2 = if b < k {
                            b
                        } else {
                            b + 1
                        };
                        assert(v[a] == cur[a2]);
                        assert(v[b] == cur[b2]);
                    }
                }
            } else {
                assert(cur =~= old_jobs.take(k as int) + gc_from(old_jobs, epoch, keep_n as nat, k as int));
            }
            i = k;
        }
        assert(records(jobs@) =~= gc_result(old_jobs, epoch, keep_n as nat));
        self.jobs = jobs;
    }

    /// How many jobs reached completion or failure so far.
    pub fn total_completed(&self) -> (n: u64)
        ensures
            n == self@.total_completed,
    {
        self.total_completed
    }
}

impl Default for JobRegistry {
    fn default() -> (r: Self)
        ensures
            r@.jobs == Seq::<JobView>::empty(),
            r@.total_completed == 0,
    {
        JobRegistry::new()
    }
}

// ─── LAWS ────────────────────────────────────────────────────────────────────

/// Registering makes a job findable: after a successful `register`, looking
/// its id up gives the registered job (so its status is `pending` for a job
/// fresh from [`Job::new`]).
pub proof fn lemma_registered_job_is_found(jobs: Seq<JobView>, job: JobView)
    requires
        ids_distinct(jobs.push(job)),
    ensures
        lookup(jobs.push(job), job.job_id) == Some(job),
{
    lemma_lookup_at(jobs.push(job), job.job_id, jobs.len() as int);
}

/// Cancelling is idempotent: cancelling a job twice leaves the registry as
/// cancelling it once does.
pub proof fn lemma_cancel_idempotent(jobs: Seq<JobView>, id: Seq<char>)
    ensures
        cancel_in(cancel_in(jobs, id), id) == cancel_in(jobs, id),
{
    assert(cancel_in(cancel_in(jobs, id), id) =~= cancel_in(jobs, id));
}

/// Some job among the first `n` carries `id` and is active.
pub open spec fn active_match_before(jobs: Seq<JobView>, id: Seq<char>, n: int) -> bool {
    exists|p: int| 0 <= p < n && #[trigger] jobs[p].job_id == id && state_is_active(jobs[p].state)
}

proof fn lemma_cancel_count_upto(jobs: Seq<JobView>, id: Seq<char>, n: int)
    requires
        ids_distinct(jobs),
        0 <= n <= jobs.len(),
    ensures
        count_active_upto(cancel_in(jobs, id), n) + (if active_match_before(jobs, id, n) {
            1int
        } else {
            0int
        }) == count_active_upto(jobs, n),
    decreases n,
{
    let after = cancel_in(jobs, id);
    if n > 0 {
        lemma_cancel_count_upto(jobs, id, n - 1);
        let k = n - 1;
        assert(after[k].job_id == jobs[k].job_id);
        if jobs[k].job_id == id && state_is_active(jobs[k].state) {
            assert(active_match_before(jobs, id, n));
            if active_match_before(jobs, id, n - 1) {
                let p = choose|p: int|
                    0 <= p < n - 1 && #[trigger] jobs[p].job_id == id && state_is_active(
                        jobs[p].state,
                    );
                assert(jobs[p].job_id != jobs[k].job_id);
            }
        } else {
            if active_match_before(jobs, id, n) {
                let p = choose|p: int|
                    0 <= p < n && #[trigger] jobs[p].job_id == id && state_is_active(
                        jobs[p].state,
                    );
                assert(p != k);
                assert(active_match_before(jobs, id, n - 1));
            }
            if active_match_before(jobs, id, n - 1) {
                let p = choose|p: int|
                    0 <= p < n - 1 && #[trigger] jobs[p].job_id == id && state_is_active(
                        jobs[p].state,
                    );
                assert(active_match_before(jobs, id, n));
            }
        }
    }
}

/// Cancelling takes a job out of the active ones: afterwards its state is not
/// active, and the number of active jobs drops by one if the job was active
/// (and stays the same otherwise).
pub proof fn lemma_cancel_deactivates(jobs: Seq<JobView>, id: Seq<char>)
    requires
        ids_distinct(jobs),
    ensures
        match lookup(jobs, id) {
            Some(j) => {
                &&& lookup(cancel_in(jobs, id), id) == Some(cancelled_view(j))
                &&& !state_is_active(cancelled_view(j).state)
                &&& count_active(cancel_in(jobs, id)) + (if state_is_active(j.state) {
                    1int
                } else {
                    0int
                }) == count_active(jobs)
            },
            None => cancel_in(jobs, id) == jobs,
        },
{
    let after = cancel_in(jobs, id);
    lemma_cancel_count_upto(jobs, id, jobs.len() as int);
    assert(ids_distinct(after)) by {
        assert forall|a: int, b: int|
            0 <= a < after.len() && 0 <= b < after.len() && a != b implies #[trigger] after[a].job_id
            != #[trigger] after[b].job_id by {
            assert(after[a].job_id == jobs[a].job_id);
            assert(after[b].job_id == jobs[b].job_id);
        }
    }
    if has_job(jobs, id) {
        let p = choose|p: int| 0 <= p < jobs.len() && #[trigger] jobs[p].job_id == id;
        lemma_lookup_at(jobs, id, p);
        lemma_lookup_at(after, id, p);
        if state_is_active(jobs[p].state) {
            assert(active_match_before(jobs, id, jobs.len() as int));
        } else if active_match_before(jobs, id, jobs.len() as int) {
            let q = choose|q: int|
                0 <= q < jobs.len() && #[trigger] jobs[q].job_id == id && state_is_active(
                    jobs[q].state,
                );
            assert(q == p);
        }
    } else {
        lemma_lookup_none(jobs, id);
        assert(after =~= jobs);
    }
}

/// The positions of the jobs that eviction keeps from `start` on are kept
/// in `gc_from`: a job that eviction keeps is still there afterwards.
proof fn lemma_gc_from_contains(jobs: Seq<JobView>, epoch: Instant, keep_n: nat, start: int, i: int)
    requires
        0 <= start <= i < jobs.len(),
        gc_keeps(jobs, epoch, keep_n, i),
    ensures
        gc_from(jobs, epoch, keep_n, start).contains(jobs[i]),
    decreases i - start,
{
    let rest = gc_from(jobs, epoch, keep_n, start + 1);
    if start == i {
        assert(gc_from(jobs, epoch, keep_n, start)[0] == jobs[i]);
    } else {
        lemma_gc_from_contains(jobs, epoch, keep_n, start + 1, i);
        let k = choose|k: int| 0 <= k < rest.len() && rest[k] == jobs[i];
        let head = if gc_keeps(jobs, epoch, keep_n, start) {
            seq![jobs[start]]
        } else {
            Seq::empty()
        };
        assert(gc_from(jobs, epoch, keep_n, start)[head.len() + k] == jobs[i]);
    }
}

/// Eviction never drops an active (pending or running) job.
pub proof fn lemma_gc_keeps_active(jobs: Seq<JobView>, epoch: Instant, keep_n: nat, i: int)
    requires
        0 <= i < jobs.len(),
        state_is_active(jobs[i].state),
    ensures
        gc_result(jobs, epoch, keep_n).contains(jobs[i]),
{
    lemma_gc_from_contains(jobs, epoch, keep_n, 0, i);
}

/// Outranking is transitive.
proof fn lemma_outranks_transitive(jobs: Seq<JobView>, epoch: Instant, a: int, b: int, c: int)
    requires
        outranks(jobs, epoch, a, b),
        outranks(jobs, epoch, b, c),
    ensures
        outranks(jobs, epoch, a, c),
{
}

/// A job outranked by `j` has a larger rank than `j` among the first `n`
/// jobs (by one more once `j` itself is counted).
proof fn lemma_rank_upto_grows(jobs: Seq<JobView>, epoch: Instant, j: int, i: int, n: int)
    requires
        0 <= j < jobs.len(),
        0 <= i < jobs.len(),
        0 <= n <= jobs.len(),
        outranks(jobs, epoch, j, i),
    ensures
        rank_upto(jobs, epoch, i, n) >= rank_upto(jobs, epoch, j, n) + (if j < n {
            1int
        } else {
            0int
        }),
    decreases n,
{
    if n > 0 {
        lemma_rank_upto_grows(jobs, epoch, j, i, n - 1);
        let k = n - 1;
        if outranks(jobs, epoch, k, j) {
            lemma_outranks_transitive(jobs, epoch, k, j, i);
        }
        assert(!outranks(jobs, epoch, j, j));
    }
}

/// A job outranked by `j` has a larger rank than `j`.
pub proof fn lemma_rank_grows(jobs: Seq<JobView>, epoch: Instant, j: int, i: int)
    requires
        0 <= j < jobs.len(),
        0 <= i < jobs.len(),
        outranks(jobs, epoch, j, i),
    ensures
        rank(jobs, epoch, i) > rank(jobs, epoch, j),
{
    lemma_rank_upto_grows(jobs, epoch, j, i, jobs.len() as int);
}

/// Eviction keeps the most recent finished jobs: a finished job it keeps did
/// not start before a finished job it drops.
pub proof fn lemma_gc_keeps_most_recent(jobs: Seq<JobView>, epoch: Instant, keep_n: nat, i: int, j: int)
    requires
        0 <= i < jobs.len(),
        0 <= j < jobs.len(),
        !state_is_active(jobs[i].state),
        !state_is_active(jobs[j].state),
        gc_keeps(jobs, epoch, keep_n, i),
        !gc_keeps(jobs, epoch, keep_n, j),
    ensures
        start_offset(jobs[i].started_at, epoch) >= start_offset(jobs[j].started_at, epoch),
{
    if start_offset(jobs[i].started_at, epoch) < start_offset(jobs[j].started_at, epoch) {
        lemma_rank_grows(jobs, epoch, j, i);
    }
}

/// Positions of the finished (completed, failed or cancelled) jobs.
pub open spec fn finished_positions(jobs: Seq<JobView>) -> Set<int> {
    Set::new(|i: int| 0 <= i < jobs.len() && !state_is_active(jobs[i].state))
}

/// Positions of the finished jobs that eviction keeps.
pub open spec fn finished_kept(jobs: Seq<JobView>, epoch: Instant, keep_n: nat) -> Set<int> {
    Set::new(
        |i: int| 0 <= i < jobs.len() && !state_is_active(jobs[i].state) && gc_keeps(jobs, epoch, keep_n, i),
    )
}

/// The positions among the first `n` of the jobs that outrank job `i`.
spec fn outrankers_upto(jobs: Seq<JobView>, epoch: Instant, i: int, n: int) -> Set<int> {
    Set::new(|j: int| 0 <= j < n && outranks(jobs, epoch, j, i))
}

proof fn lemma_rank_upto_is_set_size(jobs: Seq<JobView>, epoch: Instant, i: int, n: int)
    requires
        0 <= i < jobs.len(),
        0 <= n <= jobs.len(),
    ensures
        outrankers_upto(jobs, epoch, i, n).finite(),
        outrankers_upto(jobs, epoch, i, n).len() == rank_upto(jobs, epoch, i, n),
    decreases n,
{
    if n == 0 {
        assert(outrankers_upto(jobs, epoch, i, n) =~= Set::empty());
    } else {
        lemma_rank_upto_is_set_size(jobs, epoch, i, n - 1);
        let prev = outrankers_upto(jobs, epoch, i, n - 1);
        if outranks(jobs, epoch, n - 1, i) {
            assert(outrankers_upto(jobs, epoch, i, n) =~= prev.insert(n - 1));
        } else {
            assert(outrankers_upto(jobs, epoch, i, n) =~= prev);
        }
    }
}

proof fn lemma_finished_finite(jobs: Seq<JobView>)
    ensures
        finished_positions(jobs).finite(),
        finished_positions(jobs).len() <= jobs.len(),
{
    vstd::set_lib::lemma_int_range(0, jobs.len() as int);
    vstd::set_lib::lemma_len_subset(finished_positions(jobs), vstd::set_lib::set_int_range(0, jobs.len() as int));
}

/// A finished job's rank is below the number of finished jobs.
proof fn lemma_rank_below_finished(jobs: Seq<JobView>, epoch: Instant, i: int)
    requires
        0 <= i < jobs.len(),
        !state_is_active(jobs[i].state),
    ensures
        rank(jobs, epoch, i) < finished_positions(jobs).len(),
{
    let n = jobs.len() as int;
    lemma_rank_upto_is_set_size(jobs, epoch, i, n);
    lemma_finished_finite(jobs);
    let o = outrankers_upto(jobs, epoch, i, n);
    let f = finished_positions(jobs);
    assert(o.subset_of(f.remove(i)));
    vstd::set_lib::lemma_len_subset(o, f.remove(i));
    assert(f.contains(i));
}

/// The ranks of the finished jobs are exactly `0 .. T` for `T` finished jobs.
proof fn lemma_finished_ranks(jobs: Seq<JobView>, epoch: Instant)
    ensures
        finished_positions(jobs).map(|i: int| rank(jobs, epoch, i) as int) == vstd::set_lib::set_int_range(
            0,
            finished_positions(jobs).len() as int,
        ),
{
    let f = finished_positions(jobs);
    let t = f.len() as int;
    let r = |i: int| rank(jobs, epoch, i) as int;
    lemma_finished_finite(jobs);
    assert(vstd::relations::injective_on(r, f)) by {
        assert forall|a: int, b: int| f.contains(a) && f.contains(b) && #[trigger] r(a) == #[trigger] r(b) implies a == b by {
            if a != b {
                if outranks(jobs, epoch, a, b) {
                    lemma_rank_grows(jobs, epoch, a, b);
                } else {
                    assert(outranks(jobs, epoch, b, a));
                    lemma_rank_grows(jobs, epoch, b, a);
                }
            }
        }
    }
    let img = f.map(r);
    vstd::set_lib::lemma_map_size(f, img, r);
    vstd::set_lib::lemma_int_range(0, t);
    assert(img.subset_of(vstd::set_lib::set_int_range(0, t))) by {
        assert forall|x: int| img.contains(x) implies vstd::set_lib::set_int_range(0, t).contains(x) by {
            let i = choose|i: int| f.contains(i) && r(i) == x;
            lemma_rank_below_finished(jobs, epoch, i);
        }
    }
    vstd::set_lib::lemma_subset_equality(img, vstd::set_lib::set_int_range(0, t));
}

/// Eviction keeps as many finished jobs as it may: `keep_n` of them, or all
/// when there are fewer.
pub proof fn lemma_gc_keeps_count(jobs: Seq<JobView>, epoch: Instant, keep_n: nat)
    ensures
        finished_positions(jobs).finite(),
        finished_kept(jobs, epoch, keep_n).finite(),
        finished_kept(jobs, epoch, keep_n).len() == if keep_n < finished_positions(jobs).len() {
            keep_n
        } else {
            finished_positions(jobs).len()
        },
{
    let f = finished_positions(jobs);
    let k = finished_kept(jobs, epoch, keep_n);
    let t = f.len() as int;
    let m = if keep_n < t { keep_n as int } else { t };
    let r = |i: int| rank(jobs, epoch, i) as int;
    lemma_finished_finite(jobs);
    lemma_finished_ranks(jobs, epoch);
    assert(k.subset_of(f));
    vstd::set_lib::lemma_len_subset(k, f);
    assert(vstd::relations::injective_on(r, k)) by {
        assert forall|a: int, b: int| k.contains(a) && k.contains(b) && #[trigger] r(a) == #[trigger] r(b) implies a == b by {
            if a != b {
                if outranks(jobs, epoch, a, b) {
                    lemma_rank_grows(jobs, epoch, a, b);
                } else {
                    assert(outranks(jobs, epoch, b, a));
                    lemma_rank_grows(jobs, epoch, b, a);
                }
            }
        }
    }
    let img = k.map(r);
    assert(img =~= vstd::set_lib::set_int_range(0, m)) by {
        assert forall|x: int| img.contains(x) implies vstd::set_lib::set_int_range(0, m).contains(x) by {
            let i = choose|i: int| k.contains(i) && r(i) == x;
            lemma_rank_below_finished(jobs, epoch, i);
        }
        assert forall|x: int| vstd::set_lib::set_int_range(0, m).contains(x) implies img.contains(x) by {
            assert(f.map(r).contains(x));
            let i = choose|i: int| f.contains(i) && r(i) == x;
            assert(k.contains(i));
        }
    }
    vstd::set_lib::lemma_map_size(k, img, r);
    vstd::set_lib::lemma_int_range(0, m);
}

proof fn lemma_gc_from_all_kept(jobs: Seq<JobView>, epoch: Instant, keep_n: nat, start: int)
    requires
        0 <= start <= jobs.len(),
        forall|i: int| start <= i < jobs.len() ==> gc_keeps(jobs, epoch, keep_n, i),
    ensures
        gc_from(jobs, epoch, keep_n, start) == jobs.skip(start),
    decreases jobs.len() - start,
{
    if start < jobs.len() {
        lemma_gc_from_all_kept(jobs, epoch, keep_n, start + 1);
        assert(seq![jobs[start]] + jobs.skip(start + 1) =~= jobs.skip(start));
    } else {
        assert(jobs.skip(start) =~= Seq::<JobView>::empty());
    }
}

/// Eviction within the limit is a no-op: with at most `keep_n` finished jobs
/// every job stays.
pub proof fn lemma_gc_within_limit(jobs: Seq<JobView>, epoch: Instant, keep_n: nat)
    requires
        finished_positions(jobs).len() <= keep_n,
    ensures
        gc_result(jobs, epoch, keep_n) == jobs,
{
    assert forall|i: int| 0 <= i < jobs.len() implies gc_keeps(jobs, epoch, keep_n, i) by {
        if !state_is_active(jobs[i].state) {
            lemma_rank_below_finished(jobs, epoch, i);
        }
    }
    lemma_gc_from_all_kept(jobs, epoch, keep_n, 0);
    assert(jobs.skip(0) =~= jobs);
}

/// A job update reads back: afterwards looking the id up gives the updated
/// job, every other job reads as before, and ids stay distinct — provided
/// the update keeps the job's id, as every registry operation does.
pub proof fn lemma_update_reads_back(
    jobs: Seq<JobView>,
    id: Seq<char>,
    f: spec_fn(JobView) -> JobView,
    other: Seq<char>,
)
    requires
        ids_distinct(jobs),
        forall|j: JobView| #[trigger] f(j).job_id == j.job_id,
    ensures
        ids_distinct(update_job(jobs, id, f)),
        lookup(update_job(jobs, id, f), id) == match lookup(jobs, id) {
            Some(j) => Some(f(j)),
            None => None,
        },
        other != id ==> lookup(update_job(jobs, id, f), other) == lookup(jobs, other),
{
    let after = update_job(jobs, id, f);
    assert forall|a: int, b: int|
        0 <= a < after.len() && 0 <= b < after.len() && a != b implies #[trigger] after[a].job_id
        != #[trigger] after[b].job_id by {
        assert(after[a].job_id == jobs[a].job_id);
        assert(after[b].job_id == jobs[b].job_id);
    }
    if has_job(jobs, id) {
        let p = choose|p: int| 0 <= p < jobs.len() && #[trigger] jobs[p].job_id == id;
        lemma_lookup_at(jobs, id, p);
        lemma_lookup_at(after, id, p);
    } else {
        lemma_lookup_none(jobs, id);
        assert forall|i: int| 0 <= i < after.len() implies #[trigger] after[i].job_id != id by {
            assert(after[i].job_id == jobs[i].job_id);
        }
        lemma_lookup_none(after, id);
    }
    if other != id {
        if has_job(jobs, other) {
            let q = choose|q: int| 0 <= q < jobs.len() && #[trigger] jobs[q].job_id == other;
            lemma_lookup_at(jobs, other, q);
            lemma_lookup_at(after, other, q);
        } else {
            lemma_lookup_none(jobs, other);
            assert forall|i: int| 0 <= i < after.len() implies #[trigger] after[i].job_id != other by {
                assert(after[i].job_id == jobs[i].job_id);
            }
            lemma_lookup_none(after, other);
        }
    }
}

/// A progress update reads back: the status of the job then carries the
/// progress written last.
pub proof fn lemma_progress_reads_back(jobs: Seq<JobView>, id: Seq<char>, p: JsonView)
    requires
        ids_distinct(jobs),
        has_job(jobs, id),
    ensures
        lookup(progress_in(jobs, id, p), id) matches Some(j) && status_of(j).progress == Some(p),
{
    let f = |j: JobView| JobView { progress: Some(p), ..j };
    assert(progress_in(jobs, id, p) =~= update_job(jobs, id, f));
    lemma_update_reads_back(jobs, id, f, id);
    if lookup(jobs, id) is None {
        let q = choose|q: int| 0 <= q < jobs.len() && #[trigger] jobs[q].job_id == id;
        lemma_lookup_at(jobs, id, q);
    }
}

/// An accepted emit is recorded on the named job alone: exactly `e` is
/// appended to what its channel accepted, and every other job reads as
/// before.
pub proof fn lemma_emit_delivers(jobs: Seq<JobView>, id: Seq<char>, e: EventView, other: Seq<char>)
    requires
        ids_distinct(jobs),
        lookup(jobs, id) matches Some(j) && j.events is Some,
    ensures
        ids_distinct(emit_in(jobs, id, e)),
        ({
            let j = lookup(jobs, id)->0;
            lookup(emit_in(jobs, id, e), id) == Some(
                JobView { events: Some(j.events->0.push(e)), ..j },
            )
        }),
        other != id ==> lookup(emit_in(jobs, id, e), other) == lookup(jobs, other),
{
    let f = |j: JobView| emitted_view(j, e);
    assert(emit_in(jobs, id, e) =~= update_job(jobs, id, f));
    lemma_update_reads_back(jobs, id, f, other);
}

/// Emitting for a job that is not registered, or whose client is detached,
/// changes nothing.
pub proof fn lemma_emit_without_client(jobs: Seq<JobView>, id: Seq<char>, e: EventView)
    requires
        ids_distinct(jobs),
        match lookup(jobs, id) {
            Some(j) => j.events is None,
            None => true,
        },
    ensures
        emit_in(jobs, id, e) == jobs,
{
    let after = emit_in(jobs, id, e);
    if has_job(jobs, id) {
        let p = choose|p: int| 0 <= p < jobs.len() && #[trigger] jobs[p].job_id == id;
        lemma_lookup_at(jobs, id, p);
        assert forall|k: int| 0 <= k < jobs.len() implies #[trigger] after[k] == jobs[k] by {
            if jobs[k].job_id == id && k != p {
                assert(jobs[k].job_id != jobs[p].job_id);
            }
        }
    } else {
        assert forall|k: int| 0 <= k < jobs.len() implies #[trigger] after[k] == jobs[k] by {
            assert(jobs[k].job_id != id);
        }
    }
    assert(after =~= jobs);
}

/// Cancelling fires the job's own token: an armed token is fired, one that
/// was fired before stays fired, and no other job's token is touched.
pub proof fn lemma_cancel_fires_token(jobs: Seq<JobView>, id: Seq<char>, other: Seq<char>)
    requires
        ids_distinct(jobs),
        lookup(jobs, id) is Some,
    ensures
        ({
            let j = lookup(jobs, id)->0;
            let k = lookup(cancel_in(jobs, id), id)->0;
            &&& lookup(cancel_in(jobs, id), id) is Some
            &&& j.cancel matches TokenState::Armed(t) ==> k.cancel == TokenState::Fired(t)
            &&& j.cancel matches TokenState::Fired(t) ==> k.cancel == TokenState::Fired(t)
        }),
        other != id ==> lookup(cancel_in(jobs, id), other) == lookup(jobs, other),
{
    let f = |j: JobView| cancelled_view(j);
    assert(cancel_in(jobs, id) =~= update_job(jobs, id, f));
    lemma_update_reads_back(jobs, id, f, other);
}

/// The runner's signal of a job is fired by its cancel: the job's token is
/// the one paired with `signal`.
pub open spec fn signal_fired(j: JobView, signal: CancelSignal) -> bool {
    j.cancel matches TokenState::Fired(t) && fires(t, signal)
}

/// Cancelling a job reaches the runner: when the job's armed token is the
/// one paired with `signal` (as [`cancel_pair`] hands them out), afterwards
/// `signal` is fired, and it stays fired when the job is cancelled again.
pub proof fn lemma_cancel_reaches_signal(jobs: Seq<JobView>, id: Seq<char>, signal: CancelSignal)
    requires
        ids_distinct(jobs),
        lookup(jobs, id) matches Some(j) && (j.cancel matches TokenState::Armed(t) && fires(t, signal)),
    ensures
        lookup(cancel_in(jobs, id), id) matches Some(k) && signal_fired(k, signal),
        lookup(cancel_in(cancel_in(jobs, id), id), id) matches Some(k) && signal_fired(k, signal),
{
    lemma_cancel_fires_token(jobs, id, id);
    lemma_cancel_idempotent(jobs, id);
}

/// The keys of a status object are pairwise distinct.
proof fn lemma_status_keys_distinct()
    ensures
        "job_id"@ != "state"@,
        "job_id"@ != "progress"@,
        "job_id"@ != "error"@,
        "state"@ != "progress"@,
        "state"@ != "error"@,
        "progress"@ != "error"@,
{
    reveal_strlit("job_id");
    reveal_strlit("state");
    reveal_strlit("progress");
    reveal_strlit("error");
    assert("job_id"@.len() == 6 && "state"@.len() == 5 && "progress"@.len() == 8 && "error"@.len() == 5);
    assert("state"@[0] != "error"@[0]);
}

/// A status travels with everything it carries: its id and state always,
/// its progress exactly when it has one (whatever the state), and its error
/// exactly when the message is non-empty.
pub proof fn lemma_status_json_fields(s: StatusView)
    ensures
        json_get(status_json(s), "job_id"@) == Some(JsonView::Str(s.job_id)),
        json_get(status_json(s), "state"@) == Some(JsonView::Str(s.state)),
        json_get(status_json(s), "progress"@) == s.progress,
        json_get(status_json(s), "error"@) == if s.error.len() > 0 {
            Some(JsonView::Str(s.error))
        } else {
            None
        },
{
    lemma_status_keys_distinct();
    let e = status_json(s)->Object_0;
    let has_p: int = if s.progress is Some { 1 } else { 0 };
    let has_e: int = if s.error.len() > 0 { 1 } else { 0 };
    assert(e.len() == 2 + has_p + has_e);
    assert(e[0] == ("job_id"@, JsonView::Str(s.job_id)));
    assert(e[1] == ("state"@, JsonView::Str(s.state)));
    if has_p == 1 {
        assert(e[2] == ("progress"@, s.progress->0));
    }
    if has_e == 1 {
        assert(e[2 + has_p] == ("error"@, JsonView::Str(s.error)));
    }
    lemma_object_get_at(e, "job_id"@, 0);
    lemma_object_get_at(e, "state"@, 1);
    if has_p == 1 {
        lemma_object_get_at(e, "progress"@, 2);
    } else {
        lemma_object_get_none(e, "progress"@);
    }
    if has_e == 1 {
        lemma_object_get_at(e, "error"@, 2 + has_p);
    } else {
        lemma_object_get_none(e, "error"@);
    }
}

/// Detaching a job's client drops that client alone: the named job keeps
/// everything but its client, and every other job reads as before.
pub proof fn lemma_detach_only_named(jobs: Seq<JobView>, id: Seq<char>, other: Seq<char>)
    requires
        ids_distinct(jobs),
    ensures
        ids_distinct(detached_in(jobs, id)),
        lookup(detached_in(jobs, id), id) == match lookup(jobs, id) {
            Some(j) => Some(JobView { events: None, ..j }),
            None => None,
        },
        other != id ==> lookup(detached_in(jobs, id), other) == lookup(jobs, other),
        detached_in(jobs, id).len() == jobs.len(),
{
    let f = |j: JobView| JobView { events: None, ..j };
    assert(detached_in(jobs, id) =~= update_job(jobs, id, f));
    lemma_update_reads_back(jobs, id, f, other);
}

/// The lifecycle writes touch the named job alone: `set_running`,
/// `set_completed`, `set_failed` and `update_progress` give the named job
/// its new state, progress or error (keeping everything else it has), and
/// every other job reads as before.
pub proof fn lemma_writes_touch_only_named(
    jobs: Seq<JobView>,
    id: Seq<char>,
    other: Seq<char>,
    p: JsonView,
    e: Seq<char>,
)
    requires
        ids_distinct(jobs),
    ensures
        lookup(running_in(jobs, id), id) == match lookup(jobs, id) {
            Some(j) => Some(JobView { state: JobState::Running, ..j }),
            None => None,
        },
        lookup(completed_in(jobs, id, p), id) == match lookup(jobs, id) {
            Some(j) => Some(JobView { state: JobState::Completed, progress: Some(p), ..j }),
            None => None,
        },
        lookup(failed_in(jobs, id, e), id) == match lookup(jobs, id) {
            Some(j) => Some(JobView { state: JobState::Failed, error_msg: Some(e), ..j }),
            None => None,
        },
        lookup(progress_in(jobs, id, p), id) == match lookup(jobs, id) {
            Some(j) => Some(JobView { progress: Some(p), ..j }),
            None => None,
        },
        other != id ==> {
            &&& lookup(running_in(jobs, id), other) == lookup(jobs, other)
            &&& lookup(completed_in(jobs, id, p), other) == lookup(jobs, other)
            &&& lookup(failed_in(jobs, id, e), other) == lookup(jobs, other)
            &&& lookup(progress_in(jobs, id, p), other) == lookup(jobs, other)
        },
{
    let fr = |j: JobView| JobView { state: JobState::Running, ..j };
    let fc = |j: JobView| JobView { state: JobState::Completed, progress: Some(p), ..j };
    let ff = |j: JobView| JobView { state: JobState::Failed, error_msg: Some(e), ..j };
    let fp = |j: JobView| JobView { progress: Some(p), ..j };
    assert(running_in(jobs, id) =~= update_job(jobs, id, fr));
    assert(completed_in(jobs, id, p) =~= update_job(jobs, id, fc));
    assert(failed_in(jobs, id, e) =~= update_job(jobs, id, ff));
    assert(progress_in(jobs, id, p) =~= update_job(jobs, id, fp));
    lemma_update_reads_back(jobs, id, fr, other);
    lemma_update_reads_back(jobs, id, fc, other);
    lemma_update_reads_back(jobs, id, ff, other);
    lemma_update_reads_back(jobs, id, fp, other);
}

/// The number of finished (completed, failed or cancelled) jobs in `s`.
pub open spec fn finished_count(s: Seq<JobView>) -> nat
    decreases s.len(),
{
    if s.len() == 0 {
        0
    } else {
        (if state_is_active(s[0].state) {
            0nat
        } else {
            1nat
        }) + finished_count(s.skip(1))
    }
}

/// Positions from `start` on of the finished jobs.
spec fn finished_from(jobs: Seq<JobView>, start: int) -> Set<int> {
    Set::new(|i: int| start <= i < jobs.len() && !state_is_active(jobs[i].state))
}

/// Positions from `start` on of the finished jobs that eviction keeps.
spec fn kept_from(jobs: Seq<JobView>, epoch: Instant, keep_n: nat, start: int) -> Set<int> {
    Set::new(
        |i: int| start <= i < jobs.len() && !state_is_active(jobs[i].state) && gc_keeps(jobs, epoch, keep_n, i),
    )
}

proof fn lemma_finished_count_from(jobs: Seq<JobView>, start: int)
    requires
        0 <= start <= jobs.len(),
    ensures
        finished_from(jobs, start).finite(),
        finished_count(jobs.skip(start)) == finished_from(jobs, start).len(),
    decreases jobs.len() - start,
{
    if start == jobs.len() {
        assert(finished_from(jobs, start) =~= Set::empty());
    } else {
        lemma_finished_count_from(jobs, start + 1);
        assert(jobs.skip(start).skip(1) =~= jobs.skip(start + 1));
        assert(jobs.skip(start)[0] == jobs[start]);
        if state_is_active(jobs[start].state) {
            assert(finished_from(jobs, start) =~= finished_from(jobs, start + 1));
        } else {
            assert(finished_from(jobs, start) =~= finished_from(jobs, start + 1).insert(start));
        }
    }
}

proof fn lemma_gc_from_finished_count(jobs: Seq<JobView>, epoch: Instant, keep_n: nat, start: int)
    requires
        0 <= start <= jobs.len(),
    ensures
        kept_from(jobs, epoch, keep_n, start).finite(),
        finished_count(gc_from(jobs, epoch, keep_n, start)) == kept_from(jobs, epoch, keep_n, start).len(),
    decreases jobs.len() - start,
{
    if start == jobs.len() {
        assert(kept_from(jobs, epoch, keep_n, start) =~= Set::empty());
        assert(gc_from(jobs, epoch, keep_n, start) =~= Seq::<JobView>::empty());
    } else {
        lemma_gc_from_finished_count(jobs, epoch, keep_n, start + 1);
        let rest = gc_from(jobs, epoch, keep_n, start + 1);
        let all = gc_from(jobs, epoch, keep_n, start);
        if gc_keeps(jobs, epoch, keep_n, start) {
            assert(all =~= seq![jobs[start]] + rest);
            assert(all.skip(1) =~= rest);
            assert(all[0] == jobs[start]);
            if state_is_active(jobs[start].state) {
                assert(kept_from(jobs, epoch, keep_n, start) =~= kept_from(jobs, epoch, keep_n, start + 1));
            } else {
                assert(kept_from(jobs, epoch, keep_n, start) =~= kept_from(
                    jobs,
                    epoch,
                    keep_n,
                    start + 1,
                ).insert(start));
            }
        } else {
            assert(all =~= rest);
            assert(kept_from(jobs, epoch, keep_n, start) =~= kept_from(jobs, epoch, keep_n, start + 1));
        }
    }
}

/// Everything eviction keeps from `start` on is a job from `start` on that
/// it keeps.
proof fn lemma_gc_from_members(jobs: Seq<JobView>, epoch: Instant, keep_n: nat, start: int, x: JobView)
    requires
        0 <= start <= jobs.len(),
        gc_from(jobs, epoch, keep_n, start).contains(x),
    ensures
        exists|q: int| start <= q < jobs.len() && gc_keeps(jobs, epoch, keep_n, q) && #[trigger] jobs[q] == x,
    decreases jobs.len() - start,
{
    let all = gc_from(jobs, epoch, keep_n, start);
    let rest = gc_from(jobs, epoch, keep_n, start + 1);
    let k = choose|k: int| 0 <= k < all.len() && all[k] == x;
    if gc_keeps(jobs, epoch, keep_n, start) {
        assert(all =~= seq![jobs[start]] + rest);
        if k == 0 {
            assert(jobs[start] == x);
        } else {
            assert(rest[k - 1] == x);
            lemma_gc_from_members(jobs, epoch, keep_n, start + 1, x);
        }
    } else {
        assert(all =~= rest);
        lemma_gc_from_members(jobs, epoch, keep_n, start + 1, x);
    }
}

/// What eviction does, over every registry: every active job stays; nothing
/// new appears; of the finished jobs (completed, failed or cancelled alike)
/// exactly `min(keep_n, finished)` stay; and no finished job that stays
/// started before a finished job that goes.
pub proof fn lemma_gc_law(jobs: Seq<JobView>, epoch: Instant, keep_n: nat)
    requires
        ids_distinct(jobs),
    ensures
        forall|i: int|
            0 <= i < jobs.len() && state_is_active(jobs[i].state) ==> gc_result(jobs, epoch, keep_n).contains(
                #[trigger] jobs[i],
            ),
        forall|x: JobView| #[trigger] gc_result(jobs, epoch, keep_n).contains(x) ==> jobs.contains(x),
        finished_count(gc_result(jobs, epoch, keep_n)) == if keep_n < finished_count(jobs) {
            keep_n
        } else {
            finished_count(jobs)
        },
        forall|i: int, j: int|
            0 <= i < jobs.len() && 0 <= j < jobs.len() && !state_is_active(jobs[i].state)
                && !state_is_active(jobs[j].state) && gc_result(jobs, epoch, keep_n).contains(
                #[trigger] jobs[i],
            ) && !gc_result(jobs, epoch, keep_n).contains(#[trigger] jobs[j]) ==> start_offset(
                jobs[i].started_at,
                epoch,
            ) >= start_offset(jobs[j].started_at, epoch),
{
    let r = gc_result(jobs, epoch, keep_n);
    assert forall|i: int|
        0 <= i < jobs.len() && state_is_active(jobs[i].state) implies r.contains(#[trigger] jobs[i]) by {
        lemma_gc_keeps_active(jobs, epoch, keep_n, i);
    }
    assert forall|x: JobView| #[trigger] r.contains(x) implies jobs.contains(x) by {
        lemma_gc_from_members(jobs, epoch, keep_n, 0, x);
    }
    // Membership in the result is exactly `gc_keeps`.
    assert forall|i: int| 0 <= i < jobs.len() && r.contains(#[trigger] jobs[i]) implies gc_keeps(
        jobs,
        epoch,
        keep_n,
        i,
    ) by {
        lemma_gc_from_members(jobs, epoch, keep_n, 0, jobs[i]);
        let q = choose|q: int| 0 <= q < jobs.len() && gc_keeps(jobs, epoch, keep_n, q) && #[trigger] jobs[q] == jobs[i];
        if q != i {
            assert(jobs[q].job_id != jobs[i].job_id);
        }
    }
    assert forall|i: int, j: int|
        0 <= i < jobs.len() && 0 <= j < jobs.len() && !state_is_active(jobs[i].state)
            && !state_is_active(jobs[j].state) && r.contains(#[trigger] jobs[i]) && !r.contains(
            #[trigger] jobs[j],
        ) implies start_offset(jobs[i].started_at, epoch) >= start_offset(jobs[j].started_at, epoch) by {
        if gc_keeps(jobs, epoch, keep_n, j) {
            lemma_gc_from_contains(jobs, epoch, keep_n, 0, j);
        }
        lemma_gc_keeps_most_recent(jobs, epoch, keep_n, i, j);
    }
    lemma_finished_count_from(jobs, 0);
    lemma_gc_from_finished_count(jobs, epoch, keep_n, 0);
    assert(jobs.skip(0) =~= jobs);
    assert(finished_from(jobs, 0) =~= finished_positions(jobs));
    assert(kept_from(jobs, epoch, keep_n, 0) =~= finished_kept(jobs, epoch, keep_n));
    lemma_gc_keeps_count(jobs, epoch, keep_n);
}

/// Cancelling an id that no job carries changes nothing.
pub proof fn lemma_cancel_in_absent(jobs: Seq<JobView>, id: Seq<char>)
    requires
        !has_job(jobs, id),
    ensures
        cancel_in(jobs, id) == jobs,
{
    assert forall|k: int| 0 <= k < jobs.len() implies #[trigger] cancel_in(jobs, id)[k] == jobs[k] by {
        assert(jobs[k].job_id != id);
    }
    assert(cancel_in(jobs, id) =~= jobs);
}

} // verus!
