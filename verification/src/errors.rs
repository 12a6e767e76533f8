use vstd::prelude::*;

verus! {

/// Failures surfaced to producers and controller callers.
#[derive(Clone, Copy, Debug, PartialEq, Eq, Structural)]
pub enum Error {
    /// A bounded channel is full, so the message could not be enqueued now.
    ChannelFull,
    /// The aggregator is gone; the channel is disconnected.
    ChannelClosed,
    /// A snapshot reply never arrived: the aggregator stopped mid-service.
    ReplyDropped,
    /// Rejected configuration, such as a zero capacity or batch size.
    InvalidConfig,
}

} // verus!
