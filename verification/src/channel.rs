use vstd::prelude::*;

verus! {

use crate::control::ControlMessage;
use crate::data::Sample;
use crate::errors::Error;

// Delivery between producers, controllers and the aggregator runs over
// bounded channels of the `crossbeam_channel` crate: one merged event
// channel carrying sample batches and control requests (so a single timed
// receive serves as the aggregator's poll), and one buffer-pool channel
// recycling cleared batches.  What a concurrent channel hands back depends
// on the other endpoints, so the contracts promise nothing about contents;
// every consumer of a received value is verified for all values.

/// The sending end of a bounded channel of the `crossbeam_channel` crate.
#[verifier::external_body]
#[verifier::reject_recursive_types(T)]
pub struct ChanSender<T> {
    inner: crossbeam_channel::Sender<T>,
}

/// The receiving end of a bounded channel of the `crossbeam_channel` crate.
#[verifier::external_body]
#[verifier::reject_recursive_types(T)]
pub struct ChanReceiver<T> {
    inner: crossbeam_channel::Receiver<T>,
}

/// One message on the merged aggregator channel: a batch of samples, or a
/// control request.
pub enum Event {
    Data(Vec<Sample>),
    Control(ControlMessage),
}

/// Relies on crossbeam_channel::bounded: a connected bounded channel pair.
#[verifier::external_body]
pub(crate) fn chan_bounded<T>(cap: usize) -> (ChanSender<T>, ChanReceiver<T>) {
    let (tx, rx) = crossbeam_channel::bounded(cap);
    (ChanSender { inner: tx }, ChanReceiver { inner: rx })
}

/// Relies on Sender::try_send: delivery without blocking, refused when the
/// channel is full or all receivers are gone.
#[verifier::external_body]
pub(crate) fn chan_try_send<T>(tx: &ChanSender<T>, value: T) -> (r: Result<
    (),
    Error,
>)
    ensures
        r matches Err(e) ==> e == Error::ChannelFull || e == Error::ChannelClosed,
{
    match tx.inner.try_send(value) {
        Ok(()) => Ok(()),
        Err(crossbeam_channel::TrySendError::Full(_)) => Err(Error::ChannelFull),
        Err(crossbeam_channel::TrySendError::Disconnected(_)) => Err(Error::ChannelClosed),
    }
}

/// Relies on Receiver::try_recv: a pending message if one is ready now.
#[verifier::external_body]
pub(crate) fn chan_try_recv<T>(rx: &ChanReceiver<T>) -> (r: Option<T>) {
    rx.inner.try_recv().ok()
}

/// Relies on Receiver::recv: blocks until a message arrives or every sender
/// is gone.
#[verifier::external_body]
pub(crate) fn chan_recv<T>(rx: &ChanReceiver<T>) -> (r: Result<T, Error>)
    ensures
        r matches Err(e) ==> e == Error::ChannelClosed,
{
    rx.inner.recv().map_err(|_| Error::ChannelClosed)
}

/// Relies on Receiver::recv_timeout: a message if one arrives within the
/// given number of milliseconds.
#[verifier::external_body]
pub(crate) fn chan_recv_timeout<T>(rx: &ChanReceiver<T>, ms: u64) -> (r: Option<T>) {
    rx.inner.recv_timeout(std::time::Duration::from_millis(ms)).ok()
}

/// Relies on Sender's Clone: another handle to the same channel.
#[verifier::external_body]
pub(crate) fn chan_clone_sender<T>(tx: &ChanSender<T>) -> (r: ChanSender<T>) {
    ChanSender { inner: tx.inner.clone() }
}

/// Relies on Receiver's Clone: another handle to the same channel.
#[verifier::external_body]
pub(crate) fn chan_clone_receiver<T>(rx: &ChanReceiver<T>) -> (r: ChanReceiver<T>) {
    ChanReceiver { inner: rx.inner.clone() }
}

} // verus!
