use vstd::prelude::*;

verus! {

use crate::channel::{
    ChanSender,
    ChanReceiver,Event, chan_bounded, chan_try_send, chan_recv, chan_clone_sender};
use crate::data::{Facet, Snapshot};
use crate::errors::Error;

/// A request served by the aggregator on its control path.
pub enum ControlMessage {
    /// Registers a facet; registering one twice is the same as once.
    AddFacet(Facet),
    /// Deregisters a facet; a no-op if it is absent.
    RemoveFacet(Facet),
    /// Asks for a snapshot, replied on the single-use channel carried here.
    Snapshot(ChanSender<Snapshot>),
}

/// An admin handle bound to a receiver: facet management and synchronous
/// snapshots over the control path.
pub struct Controller {
    control_tx: ChanSender<Event>,
}

impl Controller {
    /// A controller speaking over the given channel.
    pub(crate) fn new(control_tx: ChanSender<Event>) -> Controller {
        Controller { control_tx }
    }

    /// Asks the aggregator to register a facet.  Fails with `ChannelFull`
    /// or `ChannelClosed` when the request cannot be enqueued.
    pub fn add_facet(&self, facet: Facet) -> (r: Result<(), Error>)
        ensures
            r matches Err(e) ==> e == Error::ChannelFull || e == Error::ChannelClosed,
    {
        chan_try_send(&self.control_tx, Event::Control(ControlMessage::AddFacet(facet)))
    }

    /// Asks the aggregator to deregister a facet.
    pub fn remove_facet(&self, facet: Facet) -> (r: Result<(), Error>)
        ensures
            r matches Err(e) ==> e == Error::ChannelFull || e == Error::ChannelClosed,
    {
        chan_try_send(&self.control_tx, Event::Control(ControlMessage::RemoveFacet(facet)))
    }

    /// Asks the aggregator for a snapshot and blocks until the reply
    /// arrives.  Fails with `ChannelFull` or `ChannelClosed` when the
    /// request cannot be enqueued, and with `ReplyDropped` when the
    /// aggregator stopped before serving the reply.
    pub fn get_snapshot(&self) -> (r: Result<Snapshot, Error>)
        ensures
            r matches Err(e) ==> e == Error::ChannelFull || e == Error::ChannelClosed || e
                == Error::ReplyDropped,
    {
        let (reply_tx, reply_rx) = chan_bounded::<Snapshot>(1);
        match chan_try_send(&self.control_tx, Event::Control(ControlMessage::Snapshot(reply_tx))) {
            Ok(()) => {},
            Err(e) => {
                return Err(e);
            },
        }
        match chan_recv(&reply_rx) {
            Ok(s) => Ok(s),
            Err(_) => Err(Error::ReplyDropped),
        }
    }
}

impl Clone for Controller {
    fn clone(&self) -> (r: Controller) {
        Controller { control_tx: chan_clone_sender(&self.control_tx) }
    }
}

} // verus!
