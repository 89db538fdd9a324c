//! The aggregation worker's decision logic.
//!
//! One background thread per session owns a `StatsMap` and loops over three
//! inputs: measurements are folded in, live queries are answered from the
//! current in-memory state, and a shutdown signal (or a closed measurement
//! channel) tells the thread to drain what is still buffered and hand the
//! final aggregate back through the completion channel. The thread's loop
//! performs the waiting; every decision and every fold is here.

use vstd::prelude::*;

use crate::channel::channel_send;
use crate::report::{copy_vec_u64, spec_rows_of, MetricsJson, ProfilingMode};
use crate::session::{QueryRequest, SamplesJson};
use crate::stats::{Measurement, StatsMap};

verus! {

/// The reporting configuration the worker answers queries from.
pub struct WorkerConfig {
    /// The name of the session's top-level caller.
    pub caller_name: String,
    /// The percentiles each report row shows.
    pub percentiles: Vec<u8>,
    /// Greatest number of report rows; zero means no limit.
    pub limit: usize,
    /// Which quantity the session measures.
    pub mode: ProfilingMode,
    /// Whether allocation totals include nested calls.
    pub cumulative: bool,
    /// When the session started, in nanoseconds of the process clock.
    pub start_time_ns: u64,
}

impl WorkerConfig {
    pub open spec fn wf(self) -> bool {
        self.percentiles@.len() + 3 <= usize::MAX
    }
}

/// One input the worker reacts to.
pub enum WorkerEvent {
    /// A measurement arrived.
    Measurement(Measurement),
    /// A live query arrived.
    Query(QueryRequest),
    /// The session asked the worker to stop.
    Shutdown,
    /// Every sender is gone; nothing further can arrive.
    Disconnected,
}

/// What the worker's loop does next.
#[derive(Clone, Copy, Debug, PartialEq, Eq, Structural)]
pub enum WorkerDirective {
    /// Keep waiting for input.
    Continue,
    /// Drain the buffered measurements without waiting, then send the final
    /// aggregate through the completion channel and stop.
    DrainAndFinish,
}

/// Time elapsed between two clock readings; a clock that appears to run
/// backwards yields zero.
pub open spec fn spec_elapsed(start_ns: u64, now_ns: u64) -> u64 {
    if now_ns >= start_ns {
        (now_ns - start_ns) as u64
    } else {
        0
    }
}

/// The snapshot a metrics query is answered with: the exported report built
/// from the worker's current aggregate.
pub fn snapshot_metrics(stats: &StatsMap, config: &WorkerConfig, now_ns: u64) -> (r: MetricsJson)
    requires
        stats.wf(),
        config.wf(),
    ensures
        r.hotpath_profiling_mode == config.mode,
        r.total_elapsed == spec_elapsed(config.start_time_ns, now_ns),
        r.caller_name@ == config.caller_name@,
        r.percentiles@ == config.percentiles@,
        r.description@ == config.mode.spec_description(config.cumulative),
        spec_rows_of(
            *stats,
            config.percentiles@,
            config.limit,
            config.mode,
            spec_elapsed(config.start_time_ns, now_ns),
            r.data.entries@,
        ),
{
    let elapsed: u64 = if now_ns >= config.start_time_ns {
        now_ns - config.start_time_ns
    } else {
        0
    };
    MetricsJson::from_parts(
        stats,
        elapsed,
        &config.percentiles,
        &config.caller_name,
        config.limit,
        config.mode,
        config.cumulative,
    )
}

/// The answer to a samples query: the function's recent raw samples, or
/// nothing when the function is unknown — absence of data is a normal case,
/// not an error.
pub fn samples_response(stats: &StatsMap, function_name: &String) -> (r: Option<SamplesJson>)
    requires
        stats.wf(),
    ensures
        match r {
            Some(sj) => stats.spec_contains(function_name@) && sj.function_name@
                == function_name@ && sj.samples@ == stats.spec_stats_of(
                function_name@,
            ).recent_samples@,
            None => !stats.spec_contains(function_name@),
        },
{
    match stats.get(function_name) {
        Some(fs) => Some(
            SamplesJson {
                function_name: function_name.clone(),
                samples: copy_vec_u64(&fs.recent_samples),
            },
        ),
        None => None,
    }
}

/// Answers one live query from the current aggregate, through the one-shot
/// response channel the query carries. A receiver that gave up waiting is
/// simply gone; the answer is then dropped.
pub fn handle_query(stats: &StatsMap, config: &WorkerConfig, now_ns: u64, q: QueryRequest)
    requires
        stats.wf(),
        config.wf(),
{
    match q {
        QueryRequest::GetMetrics(response_tx) => {
            let snapshot = snapshot_metrics(stats, config, now_ns);
            let _delivered = channel_send(&response_tx, snapshot);
        },
        QueryRequest::GetSamples { function_name, response_tx } => {
            let answer = samples_response(stats, &function_name);
            let _delivered = channel_send(&response_tx, answer);
        },
    }
}

/// Reacts to one worker input: folds a measurement in, answers a query
/// in place, and turns a shutdown or a closed channel into the order to
/// drain and finish. Only a measurement changes the aggregate.
pub fn worker_step(
    stats: &mut StatsMap,
    config: &WorkerConfig,
    now_ns: u64,
    ev: WorkerEvent,
) -> (r: WorkerDirective)
    requires
        old(stats).wf(),
        config.wf(),
    ensures
        final(stats).wf(),
        final(stats).recent_limit == old(stats).recent_limit,
        forall|n: Seq<char>| #[trigger]
            final(stats).spec_total_of(n) >= old(stats).spec_total_of(n),
        match ev {
            WorkerEvent::Measurement(m) => {
                &&& r == WorkerDirective::Continue
                &&& final(stats).spec_contains(m.spec_name())
                &&& old(stats).spec_has_headroom(m.spec_name()) ==> final(stats).spec_count_of(
                    m.spec_name(),
                ) == old(stats).spec_count_of(m.spec_name()) + 1
                &&& forall|other: Seq<char>|
                    other != m.spec_name() ==> #[trigger] final(stats).spec_count_of(other) == old(
                        stats,
                    ).spec_count_of(other)
            },
            WorkerEvent::Query(_) => r == WorkerDirective::Continue && *final(stats) == *old(
                stats,
            ),
            WorkerEvent::Shutdown => r == WorkerDirective::DrainAndFinish && *final(stats) == *old(
                stats,
            ),
            WorkerEvent::Disconnected => r == WorkerDirective::DrainAndFinish && *final(stats)
                == *old(stats),
        },
{
    match ev {
        WorkerEvent::Measurement(m) => {
            let ghost m_name = m.spec_name();
            let ghost before = *stats;
            stats.process_measurement(m);
            proof {
                assert forall|n: Seq<char>| #[trigger] stats.spec_total_of(n)
                    >= before.spec_total_of(n) by {
                    if n != m_name {
                        assert(stats.spec_total_of(n) == before.spec_total_of(n));
                    }
                }
            }
            WorkerDirective::Continue
        },
        WorkerEvent::Query(q) => {
            handle_query(stats, config, now_ns, q);
            WorkerDirective::Continue
        },
        WorkerEvent::Shutdown => WorkerDirective::DrainAndFinish,
        WorkerEvent::Disconnected => WorkerDirective::DrainAndFinish,
    }
}

/// Hands the final aggregate back through the one-shot completion channel;
/// the session's teardown blocks on the other end, so the report reflects
/// every measurement folded before shutdown.
pub fn finish_worker(stats: StatsMap, completion_tx: &crossbeam_channel::Sender<StatsMap>) -> (r:
    bool) {
    channel_send(completion_tx, stats)
}

} // verus!
