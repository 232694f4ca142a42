//! Trusted declarations for the bounded FIFO channel endpoints the stage
//! communicates through, with one wrapper per channel operation relied on.

use vstd::prelude::*;

verus! {

#[verifier::external_type_specification]
#[verifier::external_body]
#[verifier::reject_recursive_types(T)]
pub struct ExReceiver<T>(crossbeam_channel::Receiver<T>);

#[verifier::external_type_specification]
#[verifier::external_body]
#[verifier::reject_recursive_types(T)]
pub struct ExSender<T>(crossbeam_channel::Sender<T>);

/// Relies on crossbeam_channel::Receiver::try_recv: a non-blocking poll that
/// yields a message only when one is ready; which message arrives depends on
/// the threads feeding the channel, so nothing is claimed of the value.
#[verifier::external_body]
pub(crate) fn ch_try_recv<T>(r: &crossbeam_channel::Receiver<T>) -> Option<T> {
    r.try_recv().ok()
}

/// Relies on crossbeam_channel::Receiver::recv: blocks until a message
/// arrives; returns nothing only when the channel is closed and drained.
#[verifier::external_body]
pub(crate) fn ch_recv<T>(r: &crossbeam_channel::Receiver<T>) -> Option<T> {
    r.recv().ok()
}

/// Relies on crossbeam_channel::Sender::try_send: a non-blocking push whose
/// error (channel full or closed) hands the rejected message back unchanged,
/// which TrySendError::into_inner recovers.
#[verifier::external_body]
pub(crate) fn ch_try_send<T>(s: &crossbeam_channel::Sender<T>, v: T) -> (r: Option<T>)
    ensures
        r matches Some(w) ==> w == v,
{
    match s.try_send(v) {
        Ok(()) => None,
        Err(e) => Some(e.into_inner()),
    }
}

/// Relies on crossbeam_channel::Sender::send: blocks until the message is
/// accepted; returns false only when the channel is closed.
#[verifier::external_body]
pub(crate) fn ch_send<T>(s: &crossbeam_channel::Sender<T>, v: T) -> bool {
    s.send(v).is_ok()
}

} // verus!
