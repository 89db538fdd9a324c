//! Session lifecycle: the singleton slot, the idempotent shutdown handshake,
//! backpressure on the measurement channel, and live queries.

use hotpath::guard::MeasurementGuard;
use hotpath::report::{MetricType, ProfilingMode};
use hotpath::session::{
    send_duration_measurement, Format, GuardBuilder, HotPathState, QueryRequest, SessionSlot,
};
use hotpath::stats::{Measurement, StatsMap};
use hotpath::worker::{worker_step, WorkerConfig, WorkerDirective, WorkerEvent};

fn fresh_state(caller: &str) -> (HotPathState, hotpath::session::WorkerEndpoints) {
    HotPathState::create(
        0,
        caller.to_string(),
        vec![95],
        15,
        0,
        ProfilingMode::Timing,
        true,
    )
}

#[test]
fn second_session_install_fails_deterministically() {
    let mut slot = SessionSlot::new();
    let (first, _first_endpoints) = fresh_state("first");
    assert!(slot.install(first).is_ok());
    let (second, _second_endpoints) = fresh_state("second");
    match slot.install(second) {
        Ok(()) => panic!("a second session must not install while one is active"),
        Err(rejected) => assert_eq!(rejected.caller_name, "second"),
    }
    let active = slot.clear().expect("first session still active");
    assert_eq!(active.caller_name, "first");
    assert!(slot.clear().is_none());
}

#[test]
fn shutdown_handshake_runs_once() {
    let (mut state, _endpoints) = fresh_state("main");
    let first = state.begin_shutdown();
    assert!(first.is_some());
    let second = state.begin_shutdown();
    assert!(second.is_none());
    assert!(state.sender.is_none());
    assert!(state.query_tx.is_none());
}

#[test]
fn finish_returns_the_workers_final_aggregate_once() {
    let (mut state, endpoints) = fresh_state("main");
    send_duration_measurement(&state, "a", 1_000, false);
    let mut map = StatsMap::new(0);
    while let Ok(m) = endpoints.measurement_rx.try_recv() {
        map.process_measurement(m);
    }
    endpoints.completion_tx.send(map).expect("completion channel empty");
    let finished = state.finish().expect("first shutdown yields the aggregate");
    assert_eq!(finished.get(&"a".to_string()).unwrap().count, 1);
    assert!(state.finish().is_none());
}

#[test]
fn finish_into_report_packages_the_configuration() {
    let (mut state, endpoints) = fresh_state("main");
    send_duration_measurement(&state, "a", 2_000, false);
    let mut map = StatsMap::new(0);
    while let Ok(m) = endpoints.measurement_rx.try_recv() {
        map.process_measurement(m);
    }
    endpoints.completion_tx.send(map).expect("completion channel empty");
    let data = state.finish_into_report(5_000).expect("report data");
    assert_eq!(data.caller_name, "main");
    assert_eq!(data.percentiles, vec![95]);
    assert_eq!(data.total_elapsed_ns, 5_000);
    assert!(state.finish_into_report(6_000).is_none());
}

#[test]
fn sending_after_the_receiver_is_gone_never_panics() {
    let (state, endpoints) = fresh_state("main");
    drop(endpoints);
    send_duration_measurement(&state, "a", 1, false);
    send_duration_measurement(&state, "a", 2, false);
    let (mut shut, _eps) = fresh_state("other");
    shut.begin_shutdown();
    send_duration_measurement(&shut, "a", 3, false);
}

#[test]
fn count_never_exceeds_guards_constructed() {
    let (state, endpoints) = fresh_state("main");
    let constructed = 5u64;
    for k in 0..constructed {
        let guard = MeasurementGuard::new("g", false, k);
        guard.finish(k + 10, &state);
    }
    let mut map = StatsMap::new(0);
    while let Ok(m) = endpoints.measurement_rx.try_recv() {
        map.process_measurement(m);
    }
    let count = map.get(&"g".to_string()).unwrap().count;
    assert!(count <= constructed);
    assert_eq!(count, constructed);
}

#[test]
fn timing_guard_measures_the_clock_delta() {
    let guard = MeasurementGuard::new("g", false, 1_000);
    assert_eq!(guard.delta(3_500), 2_500);
    assert_eq!(guard.delta(500), 0);
}

#[test]
fn worker_answers_metrics_query_from_current_state() {
    let mut map = StatsMap::new(0);
    map.process_measurement(Measurement::Duration {
        name: "a".to_string(),
        duration_ns: 1_000,
        wrapper: false,
    });
    let config = WorkerConfig {
        caller_name: "main".to_string(),
        percentiles: vec![95],
        limit: 15,
        mode: ProfilingMode::Timing,
        cumulative: true,
        start_time_ns: 100,
    };
    let (tx, rx) = crossbeam_channel::bounded(1);
    let directive = worker_step(&mut map, &config, 1_100, WorkerEvent::Query(
        QueryRequest::GetMetrics(tx),
    ));
    assert!(matches!(directive, WorkerDirective::Continue));
    let snapshot = rx.try_recv().expect("query answered inline");
    assert_eq!(snapshot.total_elapsed, 1_000);
    assert_eq!(snapshot.caller_name, "main");
    assert_eq!(snapshot.data.entries.len(), 1);
    assert_eq!(snapshot.data.entries[0].0, "a");
    assert!(matches!(snapshot.data.entries[0].1[0], MetricType::CallsCount(1)));
}

#[test]
fn worker_answers_samples_query_or_reports_absence() {
    let mut map = StatsMap::new(8);
    map.process_measurement(Measurement::Duration {
        name: "a".to_string(),
        duration_ns: 42,
        wrapper: false,
    });
    let config = WorkerConfig {
        caller_name: "main".to_string(),
        percentiles: vec![95],
        limit: 15,
        mode: ProfilingMode::Timing,
        cumulative: true,
        start_time_ns: 0,
    };
    let (tx, rx) = crossbeam_channel::bounded(1);
    worker_step(&mut map, &config, 0, WorkerEvent::Query(QueryRequest::GetSamples {
        function_name: "a".to_string(),
        response_tx: tx,
    }));
    let answer = rx.try_recv().expect("answered").expect("function known");
    assert_eq!(answer.function_name, "a");
    assert_eq!(answer.samples, vec![42]);

    let (tx2, rx2) = crossbeam_channel::bounded(1);
    worker_step(&mut map, &config, 0, WorkerEvent::Query(QueryRequest::GetSamples {
        function_name: "missing".to_string(),
        response_tx: tx2,
    }));
    assert!(rx2.try_recv().expect("answered").is_none());
}

#[test]
fn worker_stops_on_shutdown_and_disconnect() {
    let mut map = StatsMap::new(0);
    let config = WorkerConfig {
        caller_name: "main".to_string(),
        percentiles: vec![95],
        limit: 15,
        mode: ProfilingMode::Timing,
        cumulative: true,
        start_time_ns: 0,
    };
    assert!(matches!(
        worker_step(&mut map, &config, 0, WorkerEvent::Shutdown),
        WorkerDirective::DrainAndFinish
    ));
    assert!(matches!(
        worker_step(&mut map, &config, 0, WorkerEvent::Disconnected),
        WorkerDirective::DrainAndFinish
    ));
}

fn is_send_sync<T: Send + Sync>() {}

#[test]
fn test_hotpath_is_send_sync() {
    is_send_sync::<HotPathState>();
    is_send_sync::<StatsMap>();
}

#[test]
fn default_format_is_the_table() {
    assert_eq!(Format::default(), Format::Table);
}

#[test]
fn builder_carries_the_configuration() {
    let builder = GuardBuilder::new("bench")
        .percentiles(vec![50, 99])
        .limit(0)
        .format(Format::JsonPretty);
    assert_eq!(builder.format, Format::JsonPretty);
    let (state, _endpoints) = builder.build(7, 16, ProfilingMode::Timing, true);
    assert_eq!(state.caller_name, "bench");
    assert_eq!(state.percentiles, vec![50, 99]);
    assert_eq!(state.limit, 0);
    assert_eq!(state.start_time_ns, 7);
    assert_eq!(state.recent_samples_limit, 16);
}
