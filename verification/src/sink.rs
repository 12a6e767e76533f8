use vstd::prelude::*;

verus! {

use crate::channel::{
    ChanSender,
    ChanReceiver,
    Event,
    chan_bounded,
    chan_try_send,
    chan_try_recv,
    chan_recv,
    chan_clone_sender,
    chan_clone_receiver,
};
use crate::control::ControlMessage;
use crate::data::{Facet, Sample, SampleV, Snapshot, sample_views};
use crate::errors::Error;

/// A producer handle: batches outgoing samples into reusable buffers and
/// delivers full batches to the aggregator.
///
/// A sink holds at most one current batch, checked out of the buffer pool
/// (or freshly allocated when the pool is momentarily empty), and sends it
/// when it reaches the configured batch size.
pub struct Sink {
    buffer_pool_rx: ChanReceiver<Vec<Sample>>,
    data_tx: ChanSender<Event>,
    batch_size: usize,
    current: Option<Vec<Sample>>,
}

impl Sink {
    /// The samples buffered and not yet delivered, in submission order.
    pub closed spec fn pending(&self) -> Seq<SampleV> {
        match self.current {
            Some(b) => sample_views(b@),
            None => Seq::empty(),
        }
    }

    pub closed spec fn spec_batch_size(&self) -> int {
        self.batch_size as int
    }

    /// The held batch is always strictly below the batch size.
    pub closed spec fn wf(&self) -> bool {
        self.batch_size >= 1 && self.pending().len() < self.batch_size
    }

    /// A sink over the given pool and data channels.
    pub(crate) fn new(
        buffer_pool_rx: ChanReceiver<Vec<Sample>>,
        data_tx: ChanSender<Event>,
        batch_size: usize,
    ) -> (r: Sink)
        requires
            batch_size >= 1,
        ensures
            r.wf(),
            r.pending() == Seq::<SampleV>::empty(),
            r.spec_batch_size() == batch_size,
    {
        Sink { buffer_pool_rx, data_tx, batch_size, current: None }
    }

    /// Buffers one sample; a batch that reaches the batch size is delivered
    /// to the aggregator at once.  `Err` means a full batch could not be
    /// enqueued and was dropped; buffering itself cannot fail.
    pub fn send(&mut self, sample: Sample) -> (r: Result<(), Error>)
        requires
            old(self).wf(),
        ensures
            final(self).wf(),
            final(self).spec_batch_size() == old(self).spec_batch_size(),
            old(self).pending().len() + 1 < old(self).spec_batch_size() ==> r is Ok
                && final(self).pending() == old(self).pending().push(sample@),
            old(self).pending().len() + 1 == old(self).spec_batch_size() ==> final(self).pending()
                == Seq::<SampleV>::empty(),
            r matches Err(e) ==> e == Error::ChannelFull || e == Error::ChannelClosed,
    {
        let mut batch: Vec<Sample> = match self.current.take() {
            Some(b) => b,
            None => {
                match chan_try_recv(&self.buffer_pool_rx) {
                    Some(mut b) => {
                        // The pool recycles cleared batches; clearing again
                        // costs nothing and keeps the size bound local.
                        b.clear();
                        b
                    },
                    None => Vec::new(),
                }
            },
        };
        batch.push(sample);
        proof {
            assert(sample_views(batch@).drop_last() =~= old(self).pending());
            assert(sample_views(batch@).last() == sample@);
            assert(sample_views(batch@) =~= old(self).pending().push(sample@));
        }
        if batch.len() >= self.batch_size {
            self.current = None;
            chan_try_send(&self.data_tx, Event::Data(batch))
        } else {
            self.current = Some(batch);
            Ok(())
        }
    }

    /// Asks the aggregator to register a facet.
    pub fn update_facet(&self, facet: Facet) -> (r: Result<(), Error>)
        ensures
            r matches Err(e) ==> e == Error::ChannelFull || e == Error::ChannelClosed,
    {
        chan_try_send(&self.data_tx, Event::Control(ControlMessage::AddFacet(facet)))
    }

    /// Asks the aggregator to deregister a facet.
    pub fn remove_facet(&self, facet: Facet) -> (r: Result<(), Error>)
        ensures
            r matches Err(e) ==> e == Error::ChannelFull || e == Error::ChannelClosed,
    {
        chan_try_send(&self.data_tx, Event::Control(ControlMessage::RemoveFacet(facet)))
    }

    /// Asks the aggregator for a snapshot and blocks until the reply
    /// arrives.
    pub fn snapshot(&self) -> (r: Result<Snapshot, Error>)
        ensures
            r matches Err(e) ==> e == Error::ChannelFull || e == Error::ChannelClosed || e
                == Error::ReplyDropped,
    {
        let (reply_tx, reply_rx) = chan_bounded::<Snapshot>(1);
        match chan_try_send(&self.data_tx, Event::Control(ControlMessage::Snapshot(reply_tx))) {
            Ok(()) => {},
            Err(e) => {
                return Err(e);
            },
        }
        match chan_recv(&reply_rx) {
            Ok(s) => Ok(s),
            Err(_) => Err(Error::ReplyDropped),
        }
    }
}

impl Clone for Sink {
    /// A clone shares the channels but holds its own, empty, current batch.
    fn clone(&self) -> (r: Sink)
        ensures
            r.spec_batch_size() == self.spec_batch_size(),
            r.pending() == Seq::<SampleV>::empty(),
            self.wf() ==> r.wf(),
    {
        Sink {
            buffer_pool_rx: chan_clone_receiver(&self.buffer_pool_rx),
            data_tx: chan_clone_sender(&self.data_tx),
            batch_size: self.batch_size,
            current: None,
        }
    }
}

} // verus!
