//! Trusted interface to the measurement channels.
//!
//! The profiling pipeline moves values between threads through
//! `crossbeam_channel` endpoints. What a channel operation yields depends on
//! the other threads using it, so nothing is promised about which message
//! arrives; every caller in the library handles each possible outcome.

use vstd::prelude::*;

verus! {

/// Declares crossbeam_channel::Sender so session state can hold an endpoint;
/// the value itself is opaque.
#[verifier::external_type_specification]
#[verifier::external_body]
#[verifier::reject_recursive_types(T)]
pub struct ExSender<T>(crossbeam_channel::Sender<T>);

/// Declares crossbeam_channel::Receiver so session state can hold an
/// endpoint; the value itself is opaque.
#[verifier::external_type_specification]
#[verifier::external_body]
#[verifier::reject_recursive_types(T)]
pub struct ExReceiver<T>(crossbeam_channel::Receiver<T>);

/// How a non-blocking send ended.
pub enum SendOutcome {
    /// The message was accepted into the channel.
    Accepted,
    /// The channel was full; the message was dropped.
    Full,
    /// All receivers are gone; the message was dropped.
    Disconnected,
}

/// Relies on crossbeam_channel::unbounded: returns the connected sender and
/// receiver of a new channel without a capacity bound.
#[verifier::external_body]
pub(crate) fn channel_unbounded<T>() -> (crossbeam_channel::Sender<T>, crossbeam_channel::Receiver<
    T,
>) {
    crossbeam_channel::unbounded()
}

/// Relies on crossbeam_channel::bounded: returns the connected sender and
/// receiver of a new channel holding at most `cap` messages.
#[verifier::external_body]
pub(crate) fn channel_bounded<T>(cap: usize) -> (crossbeam_channel::Sender<T>,
    crossbeam_channel::Receiver<T>) {
    crossbeam_channel::bounded(cap)
}

/// Relies on crossbeam_channel::Sender::try_send: never blocks; on a full or
/// disconnected channel the message is refused rather than waited on.
#[verifier::external_body]
pub(crate) fn channel_try_send<T>(tx: &crossbeam_channel::Sender<T>, msg: T) -> SendOutcome {
    match tx.try_send(msg) {
        Ok(()) => SendOutcome::Accepted,
        Err(crossbeam_channel::TrySendError::Full(_)) => SendOutcome::Full,
        Err(crossbeam_channel::TrySendError::Disconnected(_)) => SendOutcome::Disconnected,
    }
}

/// Relies on crossbeam_channel::Sender::send: blocks until the message is
/// taken; fails only when every receiver is gone.
#[verifier::external_body]
pub(crate) fn channel_send<T>(tx: &crossbeam_channel::Sender<T>, msg: T) -> bool {
    tx.send(msg).is_ok()
}

/// Relies on crossbeam_channel::Receiver::recv: blocks until a message
/// arrives; `None` only when every sender is gone and the channel is drained.
#[verifier::external_body]
pub(crate) fn channel_recv<T>(rx: &crossbeam_channel::Receiver<T>) -> Option<T> {
    rx.recv().ok()
}

} // verus!
