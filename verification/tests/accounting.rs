//! Nested allocation accounting through the fixed-depth stack and the
//! allocation guards.

use hotpath::guard::{frame_value, AllocGuard};
use hotpath::report::ProfilingMode;
use hotpath::session::HotPathState;
use hotpath::stack::{track_alloc, track_dealloc, AllocationInfoStack, CountingAllocator, MAX_DEPTH};
use hotpath::stats::{Measurement, StatsMap};

#[test]
fn nested_allocation_cumulative() {
    let mut stack = AllocationInfoStack::new(true);
    stack.push();
    track_alloc(&mut stack, 1000);
    stack.push();
    track_alloc(&mut stack, 500);
    let inner = stack.pop();
    assert_eq!(inner.bytes_total, 500);
    assert_eq!(inner.count_total, 1);
    let outer = stack.pop();
    assert_eq!(outer.bytes_total, 1500);
    assert_eq!(outer.count_total, 2);
}

#[test]
fn nested_allocation_exclusive() {
    let mut stack = AllocationInfoStack::new(false);
    stack.push();
    track_alloc(&mut stack, 1000);
    stack.push();
    track_alloc(&mut stack, 500);
    let inner = stack.pop();
    assert_eq!(inner.bytes_total, 500);
    let outer = stack.pop();
    assert_eq!(outer.bytes_total, 1000);
    assert_eq!(outer.count_total, 1);
}

#[test]
fn dealloc_tracks_net_and_peak() {
    let mut stack = AllocationInfoStack::new(true);
    stack.push();
    CountingAllocator::on_alloc(&mut stack, 100);
    CountingAllocator::on_dealloc(&mut stack, 40);
    CountingAllocator::on_alloc(&mut stack, 10);
    let frame = stack.pop();
    assert_eq!(frame.bytes_total, 110);
    assert_eq!(frame.bytes_current, 70);
    assert_eq!(frame.bytes_max, 100);
    assert_eq!(frame.count_total, 2);
    assert_eq!(frame.count_current, 1);
    assert_eq!(frame.count_max, 1);
}

#[test]
fn untracked_allocations_land_in_root_frame() {
    let mut stack = AllocationInfoStack::new(true);
    track_alloc(&mut stack, 64);
    track_dealloc(&mut stack, 64);
    assert_eq!(stack.depth, 0);
    assert_eq!(stack.elements[0].bytes_total, 64);
    assert_eq!(stack.elements[0].bytes_current, 0);
}

#[test]
fn stack_has_fixed_capacity() {
    let stack = AllocationInfoStack::new(true);
    assert_eq!(MAX_DEPTH, 64);
    assert_eq!(stack.elements.len(), MAX_DEPTH);
    assert_eq!(stack.depth, 0);
}

#[test]
fn frame_value_follows_profiling_mode() {
    let mut stack = AllocationInfoStack::new(true);
    stack.push();
    track_alloc(&mut stack, 100);
    track_alloc(&mut stack, 50);
    track_dealloc(&mut stack, 100);
    let frame = stack.pop();
    assert_eq!(frame_value(ProfilingMode::AllocBytesTotal, &frame), 150);
    assert_eq!(frame_value(ProfilingMode::AllocBytesMax, &frame), 150);
    assert_eq!(frame_value(ProfilingMode::AllocCountTotal, &frame), 2);
    assert_eq!(frame_value(ProfilingMode::AllocCountMax, &frame), 2);
    assert_eq!(frame_value(ProfilingMode::Timing, &frame), 0);
}

#[test]
fn allocation_session_reports_nested_totals() {
    let (state, endpoints) = HotPathState::create(
        0,
        "alloc_main".to_string(),
        vec![95],
        15,
        0,
        ProfilingMode::AllocBytesTotal,
        true,
    );
    let mut stack = AllocationInfoStack::new(true);
    let outer = AllocGuard::new("outer", false, false, &mut stack);
    track_alloc(&mut stack, 1000);
    let inner = AllocGuard::new("inner", false, false, &mut stack);
    track_alloc(&mut stack, 500);
    inner.finish(&mut stack, &state, false);
    outer.finish(&mut stack, &state, false);

    let mut received: Vec<Measurement> = Vec::new();
    while let Ok(m) = endpoints.measurement_rx.try_recv() {
        received.push(m);
    }
    assert_eq!(received.len(), 2);
    let mut map = StatsMap::new(0);
    map.process_measurements(received);
    let inner_stats = map.get(&"inner".to_string()).expect("inner measured");
    assert_eq!(inner_stats.total(), 500);
    let outer_stats = map.get(&"outer".to_string()).expect("outer measured");
    assert_eq!(outer_stats.total(), 1500);
}

#[test]
fn unsupported_async_guard_reports_marked_measurement() {
    let (state, endpoints) = HotPathState::create(
        0,
        "alloc_main".to_string(),
        vec![95],
        15,
        0,
        ProfilingMode::AllocBytesTotal,
        true,
    );
    let mut stack = AllocationInfoStack::new(true);
    let guard = AllocGuard::new("async_fn", false, true, &mut stack);
    assert_eq!(stack.depth, 0);
    guard.finish(&mut stack, &state, false);
    let m = endpoints.measurement_rx.try_recv().expect("measurement sent");
    match m {
        Measurement::Allocation { name, value, unsupported_async, .. } => {
            assert_eq!(name, "async_fn");
            assert_eq!(value, 0);
            assert!(unsupported_async);
        }
        Measurement::Duration { .. } => panic!("expected an allocation measurement"),
    }
}
