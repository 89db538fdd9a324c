//! Process-wide session lifecycle.
//!
//! At most one profiling session is active in a process. The session state
//! holds the channel endpoints every guard sends through; installing it into
//! the process-wide slot fails fast while another session is active, and the
//! shutdown handshake can run only once, so a second teardown is a no-op.

use vstd::prelude::*;

use crate::channel::{
    channel_bounded, channel_recv, channel_send, channel_try_send, channel_unbounded, SendOutcome,
};
use crate::report::{MetricsJson, ProfilingMode};
use crate::stats::{Measurement, StatsMap};

verus! {

/// Output format for the end-of-session report.
#[derive(Clone, Copy, Debug, PartialEq, Eq, Structural)]
pub enum Format {
    /// Human-readable table.
    Table,
    /// Compact single-line JSON.
    Json,
    /// Indented JSON.
    JsonPretty,
}

impl Default for Format {
    /// The default report format is the table.
    fn default() -> (r: Format)
        ensures
            r == Format::Table,
    {
        Format::Table
    }
}

/// The recent raw samples of one function, as a live query returns them.
pub struct SamplesJson {
    pub function_name: String,
    /// The most recent raw sample values, newest last.
    pub samples: Vec<u64>,
}

/// A live query sent to the aggregation worker, carrying its own one-shot
/// response channel.
pub enum QueryRequest {
    /// A point-in-time snapshot of the current aggregate.
    GetMetrics(crossbeam_channel::Sender<MetricsJson>),
    /// The recent raw samples of one function, or nothing if it is unknown.
    GetSamples {
        function_name: String,
        response_tx: crossbeam_channel::Sender<Option<SamplesJson>>,
    },
}

/// The state of the active profiling session: the channel endpoints guards
/// and queries go through, and the reporting configuration.
pub struct HotPathState {
    /// Where guards send measurements; taken out when shutdown begins.
    pub sender: Option<crossbeam_channel::Sender<Measurement>>,
    /// Tells the worker to drain and stop; taken out by the first shutdown.
    pub shutdown_tx: Option<crossbeam_channel::Sender<()>>,
    /// Delivers the final aggregate once; taken out by the first shutdown.
    pub completion_rx: Option<crossbeam_channel::Receiver<StatsMap>>,
    /// Where live queries are sent; closed when shutdown begins.
    pub query_tx: Option<crossbeam_channel::Sender<QueryRequest>>,
    /// When the session started, in nanoseconds of the process clock.
    pub start_time_ns: u64,
    /// The name of the session's top-level caller.
    pub caller_name: String,
    /// The percentiles the report shows.
    pub percentiles: Vec<u8>,
    /// Greatest number of report rows; zero means no limit.
    pub limit: usize,
    /// How many recent raw samples the worker keeps per function.
    pub recent_samples_limit: usize,
    /// Which quantity the session measures.
    pub mode: ProfilingMode,
    /// Whether allocation totals include nested calls.
    pub cumulative: bool,
}

/// The endpoints the aggregation worker's thread takes with it.
pub struct WorkerEndpoints {
    pub measurement_rx: crossbeam_channel::Receiver<Measurement>,
    pub shutdown_rx: crossbeam_channel::Receiver<()>,
    pub completion_tx: crossbeam_channel::Sender<StatsMap>,
    pub query_rx: crossbeam_channel::Receiver<QueryRequest>,
}

/// A session state after its shutdown handshake was taken: every endpoint is
/// gone, so no further measurement is accepted and no second handshake exists.
pub open spec fn spec_after_shutdown(s: HotPathState) -> HotPathState {
    HotPathState {
        sender: None,
        shutdown_tx: None,
        completion_rx: None,
        query_tx: None,
        ..s
    }
}

/// Whether a shutdown handshake is still available.
pub open spec fn spec_can_shutdown(s: HotPathState) -> bool {
    s.shutdown_tx is Some && s.completion_rx is Some
}

impl HotPathState {
    /// Creates the state of a fresh session together with the endpoints its
    /// worker thread consumes.
    pub fn create(
        start_time_ns: u64,
        caller_name: String,
        percentiles: Vec<u8>,
        limit: usize,
        recent_samples_limit: usize,
        mode: ProfilingMode,
        cumulative: bool,
    ) -> (r: (HotPathState, WorkerEndpoints))
        ensures
            r.0.sender is Some,
            spec_can_shutdown(r.0),
            r.0.query_tx is Some,
            r.0.start_time_ns == start_time_ns,
            r.0.caller_name == caller_name,
            r.0.percentiles == percentiles,
            r.0.limit == limit,
            r.0.recent_samples_limit == recent_samples_limit,
            r.0.mode == mode,
            r.0.cumulative == cumulative,
    {
        let (tx, rx) = channel_unbounded::<Measurement>();
        let (shutdown_tx, shutdown_rx) = channel_bounded::<()>(1);
        let (completion_tx, completion_rx) = channel_bounded::<StatsMap>(1);
        let (query_tx, query_rx) = channel_unbounded::<QueryRequest>();
        let state = HotPathState {
            sender: Some(tx),
            shutdown_tx: Some(shutdown_tx),
            completion_rx: Some(completion_rx),
            query_tx: Some(query_tx),
            start_time_ns,
            caller_name,
            percentiles,
            limit,
            recent_samples_limit,
            mode,
            cumulative,
        };
        let endpoints = WorkerEndpoints {
            measurement_rx: rx,
            shutdown_rx,
            completion_tx,
            query_rx,
        };
        (state, endpoints)
    }

    /// Takes the shutdown handshake out of the session state. Only the first
    /// call obtains it: afterwards no endpoint is left, so a second shutdown
    /// finds nothing to do.
    pub fn begin_shutdown(&mut self) -> (r: Option<
        (crossbeam_channel::Sender<()>, crossbeam_channel::Receiver<StatsMap>),
    >)
        ensures
            *final(self) == spec_after_shutdown(*old(self)),
            r is Some <==> spec_can_shutdown(*old(self)),
            match r {
                Some(handshake) => old(self).shutdown_tx == Some(handshake.0) && old(
                    self,
                ).completion_rx == Some(handshake.1),
                None => true,
            },
    {
        self.sender = None;
        self.query_tx = None;
        let shutdown_tx = self.shutdown_tx.take();
        let completion_rx = self.completion_rx.take();
        match (shutdown_tx, completion_rx) {
            (Some(tx), Some(rx)) => Some((tx, rx)),
            _ => None,
        }
    }

    /// Runs the shutdown handshake: signals the worker, then blocks until the
    /// worker hands back the final aggregate. Idempotent: after the first
    /// call the handshake is gone, and every later call returns nothing and
    /// changes nothing further.
    pub fn finish(&mut self) -> (r: Option<StatsMap>)
        ensures
            *final(self) == spec_after_shutdown(*old(self)),
            !spec_can_shutdown(*old(self)) ==> r is None,
    {
        match self.begin_shutdown() {
            Some((shutdown_tx, completion_rx)) => {
                let _signalled = channel_send(&shutdown_tx, ());
                channel_recv(&completion_rx)
            },
            None => None,
        }
    }
}

impl HotPathState {
    /// Runs the whole teardown step: the shutdown handshake, then validation
    /// of the aggregate the worker handed back, packaged with the session's
    /// reporting configuration. Nothing is returned on a repeated shutdown,
    /// and a final aggregate that does not pass validation degrades to no
    /// report rather than being trusted.
    pub fn finish_into_report(&mut self, now_ns: u64) -> (r: Option<crate::report::StatsData>)
        ensures
            *final(self) == spec_after_shutdown(*old(self)),
            !spec_can_shutdown(*old(self)) ==> r is None,
            r matches Some(data) ==> data.wf() && data.caller_name@ == old(self).caller_name@
                && data.percentiles@ == old(self).percentiles@ && data.limit == old(self).limit
                && data.mode == old(self).mode && data.cumulative == old(self).cumulative,
    {
        let caller_name = self.caller_name.clone();
        let percentiles = crate::report::copy_vec_u8(&self.percentiles);
        let limit = self.limit;
        let mode = self.mode;
        let cumulative = self.cumulative;
        let elapsed: u64 = if now_ns >= self.start_time_ns {
            now_ns - self.start_time_ns
        } else {
            0
        };
        match self.finish() {
            Some(stats) => {
                if percentiles.len() <= usize::MAX - 3 && stats.check_wf() {
                    Some(
                        crate::report::StatsData::new(
                            stats,
                            elapsed,
                            percentiles,
                            caller_name,
                            limit,
                            mode,
                            cumulative,
                        ),
                    )
                } else {
                    None
                }
            },
            None => None,
        }
    }
}

/// Idempotent shutdown: once a session state has gone through shutdown, no
/// further handshake is available, and shutting the result down again leaves
/// it exactly as it is. One drain-and-report cycle is therefore all a session
/// can ever trigger.
pub proof fn lemma_shutdown_idempotent(s: HotPathState)
    ensures
        !spec_can_shutdown(spec_after_shutdown(s)),
        spec_after_shutdown(spec_after_shutdown(s)) == spec_after_shutdown(s),
{
}

/// The process-wide singleton slot. At most one session state is installed at
/// any time; the slot is the one place that enforces it.
pub struct SessionSlot {
    pub active: Option<HotPathState>,
}

/// Installing into an occupied slot fails and changes nothing; installing
/// into an empty slot occupies it.
pub open spec fn spec_install(slot: SessionSlot, s: HotPathState) -> (SessionSlot, bool) {
    if slot.active is Some {
        (slot, false)
    } else {
        (SessionSlot { active: Some(s) }, true)
    }
}

impl SessionSlot {
    /// An empty slot: no session is active.
    pub fn new() -> (r: SessionSlot)
        ensures
            r.active is None,
    {
        SessionSlot { active: None }
    }

    /// Installs a new session's state. While a session is active this fails
    /// deterministically, hands the rejected state back untouched, and leaves
    /// the active session alone; the caller treats that as a programmer
    /// contract violation and fails fast.
    pub fn install(&mut self, s: HotPathState) -> (r: Result<(), HotPathState>)
        ensures
            (*final(self), r is Ok) == spec_install(*old(self), s),
            r is Err ==> r == Result::<(), HotPathState>::Err(s),
    {
        match &self.active {
            Some(_) => Err(s),
            None => {
                self.active = Some(s);
                Ok(())
            },
        }
    }

    /// Takes the active session's state out for teardown, leaving the slot
    /// free for a new session. Empty slots stay empty.
    pub fn clear(&mut self) -> (r: Option<HotPathState>)
        ensures
            final(self).active is None,
            r == old(self).active,
    {
        self.active.take()
    }
}

/// Singleton enforcement: starting a session in a free slot succeeds, and
/// starting a second one while the first is active fails deterministically
/// and leaves the slot exactly as it was — before anything of the second
/// session can record data.
pub proof fn lemma_single_session(slot: SessionSlot, s1: HotPathState, s2: HotPathState)
    requires
        slot.active is None,
    ensures
        ({
            let (slot1, ok1) = spec_install(slot, s1);
            let (slot2, ok2) = spec_install(slot1, s2);
            ok1 && !ok2 && slot2 == slot1
        }),
{
}

/// Sends one timing measurement through the session's channel, without ever
/// blocking: a full or closed channel drops the measurement instead of
/// stalling the instrumented code, and a session already shutting down
/// (no sender left) accepts nothing.
pub fn send_duration_measurement(
    state: &HotPathState,
    name: &str,
    duration_ns: u64,
    wrapper: bool,
) {
    match &state.sender {
        Some(tx) => {
            let m = Measurement::Duration { name: name.to_owned(), duration_ns, wrapper };
            let _outcome: SendOutcome = channel_try_send(tx, m);
        },
        None => {},
    }
}

/// Sends one allocation measurement through the session's channel, without
/// ever blocking; a full or closed channel drops the measurement.
pub fn send_alloc_measurement(
    state: &HotPathState,
    name: &str,
    value: u64,
    unsupported_async: bool,
    wrapper: bool,
    cross_thread: bool,
) {
    match &state.sender {
        Some(tx) => {
            let m = Measurement::Allocation {
                name: name.to_owned(),
                value,
                unsupported_async,
                wrapper,
                cross_thread,
            };
            let _outcome: SendOutcome = channel_try_send(tx, m);
        },
        None => {},
    }
}

/// Configures and assembles a profiling session: caller name, percentiles,
/// display limit and report format, with the same defaults the report uses
/// when nothing is configured.
pub struct GuardBuilder {
    pub caller_name: String,
    pub percentiles: Vec<u8>,
    pub limit: usize,
    pub format: Format,
}

impl GuardBuilder {
    /// Starts a session configuration under the given caller name, with one
    /// default percentile of 95 and a display limit of 15 rows.
    pub fn new(caller_name: &str) -> (r: GuardBuilder)
        ensures
            r.caller_name@ == caller_name@,
            r.percentiles@.len() == 1 && r.percentiles@[0] == 95u8,
            r.limit == 15,
            r.format == Format::Table,
    {
        let mut percentiles: Vec<u8> = Vec::new();
        percentiles.push(95);
        GuardBuilder { caller_name: caller_name.to_owned(), percentiles, limit: 15, format: Format::Table }
    }

    /// Replaces the percentile list shown in the report.
    pub fn percentiles(self, percentiles: Vec<u8>) -> (r: GuardBuilder)
        ensures
            r.percentiles == percentiles,
            r.caller_name == self.caller_name,
            r.limit == self.limit,
            r.format == self.format,
    {
        GuardBuilder { percentiles, ..self }
    }

    /// Replaces the greatest number of report rows; zero means no limit.
    pub fn limit(self, limit: usize) -> (r: GuardBuilder)
        ensures
            r.limit == limit,
            r.caller_name == self.caller_name,
            r.percentiles == self.percentiles,
            r.format == self.format,
    {
        GuardBuilder { limit, ..self }
    }

    /// Replaces the report format.
    pub fn format(self, format: Format) -> (r: GuardBuilder)
        ensures
            r.format == format,
            r.caller_name == self.caller_name,
            r.percentiles == self.percentiles,
            r.limit == self.limit,
    {
        GuardBuilder { format, ..self }
    }

    /// Assembles the session state and the worker's endpoints from this
    /// configuration. The caller spawns the worker thread, installs the
    /// state into the process-wide slot, and arms the wrapper guard.
    pub fn build(
        self,
        start_time_ns: u64,
        recent_samples_limit: usize,
        mode: ProfilingMode,
        cumulative: bool,
    ) -> (r: (HotPathState, WorkerEndpoints))
        ensures
            r.0.sender is Some,
            spec_can_shutdown(r.0),
            r.0.query_tx is Some,
            r.0.caller_name == self.caller_name,
            r.0.percentiles == self.percentiles,
            r.0.limit == self.limit,
            r.0.start_time_ns == start_time_ns,
            r.0.recent_samples_limit == recent_samples_limit,
            r.0.mode == mode,
            r.0.cumulative == cumulative,
    {
        HotPathState::create(
            start_time_ns,
            self.caller_name,
            self.percentiles,
            self.limit,
            recent_samples_limit,
            mode,
            cumulative,
        )
    }
}

} // verus!
