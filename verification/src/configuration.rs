use vstd::prelude::*;

verus! {

use crate::errors::Error;
use crate::receiver::Receiver;

/// Builder-style configuration for a `Receiver`: the channel and buffer
/// pool capacity, the batch size of the sinks, and the aggregator's poll
/// delay in milliseconds.
pub struct Configuration {
    pub capacity: usize,
    pub batch_size: usize,
    pub poll_delay_ms: u64,
}

impl Default for Configuration {
    /// The defaults: capacity 1024, batch size 512, poll delay 100 ms.
    fn default() -> (r: Configuration)
        ensures
            r.capacity == 1024,
            r.batch_size == 512,
            r.poll_delay_ms == 100,
    {
        Configuration { capacity: 1024, batch_size: 512, poll_delay_ms: 100 }
    }
}

impl Configuration {
    /// Sets the capacity of the data channel and of the buffer pool.
    pub fn capacity(self, capacity: usize) -> (r: Configuration)
        ensures
            r.capacity == capacity,
            r.batch_size == self.batch_size,
            r.poll_delay_ms == self.poll_delay_ms,
    {
        Configuration { capacity, ..self }
    }

    /// Sets the number of samples a sink buffers before delivering.
    pub fn batch_size(self, batch_size: usize) -> (r: Configuration)
        ensures
            r.batch_size == batch_size,
            r.capacity == self.capacity,
            r.poll_delay_ms == self.poll_delay_ms,
    {
        Configuration { batch_size, ..self }
    }

    /// Sets how long one turn of the aggregator waits for an event.
    pub fn poll_delay(self, poll_delay_ms: u64) -> (r: Configuration)
        ensures
            r.poll_delay_ms == poll_delay_ms,
            r.capacity == self.capacity,
            r.batch_size == self.batch_size,
    {
        Configuration { poll_delay_ms, ..self }
    }

    /// Builds a `Receiver`; a zero capacity or batch size is rejected with
    /// `InvalidConfig`, anything else is accepted.
    pub fn build(self) -> (r: Result<Receiver, Error>)
        ensures
            r is Ok <==> (self.capacity >= 1 && self.batch_size >= 1),
            r matches Ok(rx) ==> rx.wf() && rx.empty_state() && rx.spec_conf() == self
                && rx.percentile_list() == crate::data::default_percentile_list()
                && rx.spec_last_upkeep() == 0 && rx.spec_window_ns() == 10_000_000_000
                && rx.spec_interval_ns() == 1_000_000_000 && rx.spec_slots() == 10,
            r matches Err(e) ==> e == Error::InvalidConfig,
    {
        if self.capacity == 0 || self.batch_size == 0 {
            Err(Error::InvalidConfig)
        } else {
            Ok(Receiver::from_config(self))
        }
    }
}

} // verus!
