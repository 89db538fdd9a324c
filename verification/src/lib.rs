//! In-process profiling engine: instrumented call sites record timing or
//! allocation measurements through guards, a background aggregation worker
//! folds them into per-function statistics, and a report is produced at
//! session end or on live query.
//!
//! The pieces mirror the measurement pipeline. A [`guard::MeasurementGuard`]
//! or [`guard::AllocGuard`] brackets one instrumented call; allocation guards
//! account through the fixed-depth [`stack::AllocationInfoStack`]. Finished
//! guards send a [`stats::Measurement`] through the active session's channel
//! — never blocking, dropping the sample under backpressure — and the worker
//! of [`worker`] folds it into a [`stats::StatsMap`] of per-function
//! [`stats::FunctionStats`], each backed by a bounded-range
//! [`hist::ValueHistogram`]. The process-wide [`session::SessionSlot`] admits
//! at most one session at a time, and its shutdown handshake runs exactly
//! once. [`report`] turns the aggregate into rows, [`json`] writes and reads
//! the stable exported form, and [`diff`] compares two exported reports.

pub mod channel;
pub mod cli;
pub mod diff;
pub mod guard;
pub mod hist;
pub mod json;
pub mod report;
pub mod session;
pub mod stack;
pub mod stats;
pub mod text;
pub mod worker;
