//! Tick generator: hashes a seed and turns the resulting BLAKE3 chain into batches.

use std::time::Duration;
use vstd::prelude::*;

use crate::batch::TickBatch;
use crate::tick::{blake3_digest, hash, Tick};

verus! {

/// Default number of ticks a batch holds before it is shipped downstream.
pub const TICK_BUFFER_CAPACITY: usize = 1024;

/// Default number of batches that may queue in the channel before the generator blocks.
pub const TICK_CHANNEL_CAPACITY: usize = 64;

/// Approximate time to produce a single tick, in nanoseconds.
pub const APPROX_TICK_TIME_NS: u64 = 990;

/// Accumulator of the generator, flushed as a [`TickBatch`] once full. Its view is the sequence of
/// ticks in it.
#[derive(Debug)]
pub struct TickBuffer {
    ticks: Vec<Tick>,
    capacity: usize,
}

impl View for TickBuffer {
    type V = Seq<Tick>;

    closed spec fn view(&self) -> Seq<Tick> {
        self.ticks@
    }
}

impl TickBuffer {
    /// Number of ticks at which the buffer counts as full.
    pub closed spec fn limit(&self) -> usize {
        self.capacity
    }

    /// An empty buffer that is full with `capacity` ticks.
    pub fn new(capacity: usize) -> (buffer: TickBuffer)
        ensures
            buffer@ == Seq::<Tick>::empty(),
            buffer.limit() == capacity,
    {
        TickBuffer { ticks: Vec::new(), capacity }
    }

    /// Number of ticks in the buffer.
    pub fn len(&self) -> (count: usize)
        ensures
            count == self@.len(),
    {
        self.ticks.len()
    }

    /// Last tick, if any.
    pub fn last(&self) -> (last: Option<&Tick>)
        ensures
            last == if self@.len() > 0 {
                Some(&self@.last())
            } else {
                None
            },
    {
        self.ticks.last()
    }

    /// `true` if the buffer is to be flushed before the next tick.
    pub fn is_full(&self) -> (full: bool)
        ensures
            full == (self@.len() >= self.limit()),
    {
        self.ticks.len() >= self.capacity
    }

    /// Appends a tick. A full buffer grows, since dropping a tick would break the chain; the
    /// generator flushes it before that.
    pub fn push(&mut self, tick: Tick)
        ensures
            final(self)@ == old(self)@.push(tick),
            final(self).limit() == old(self).limit(),
    {
        self.ticks.push(tick);
    }

    /// Takes the ticks out as a batch, and leaves the last of them behind, which the next batch
    /// starts with. There is no batch in an empty buffer.
    pub fn flush(&mut self, wall_clock_elapsed: Duration) -> (batch: Option<TickBatch>)
        ensures
            final(self).limit() == old(self).limit(),
            old(self)@.len() == 0 ==> batch is None && final(self)@ == old(self)@,
            old(self)@.len() > 0 ==> {
                &&& batch matches Some(shipped)
                &&& shipped.ticks@ == old(self)@
                &&& shipped.wall_clock_elapsed == wall_clock_elapsed
                &&& final(self)@ == seq![old(self)@.last()]
            },
    {
        let last_tick: Tick = match self.ticks.last() {
            Some(last_tick) => *last_tick,
            None => {
                return None;
            },
        };
        let mut ticks: Vec<Tick> = Vec::new();
        std::mem::swap(&mut ticks, &mut self.ticks);
        self.push(last_tick);
        assert(self@ =~= seq![last_tick]);
        Some(TickBatch { ticks, wall_clock_elapsed })
    }
}

/// Where a chain starts, and how it is cut into batches and queued.
#[derive(Debug, Clone, Copy)]
pub struct TickGenerator {
    genesis: Tick,
    buffer_capacity: usize,
    channel_capacity: usize,
}

impl TickGenerator {
    #[verifier::type_invariant]
    closed spec fn batches_have_links(self) -> bool {
        self.buffer_capacity >= 2
    }

    /// The first tick of the chain.
    pub closed spec fn first(&self) -> Tick {
        self.genesis
    }

    /// Number of ticks in every batch but the last.
    pub closed spec fn ticks_per_batch(&self) -> usize {
        self.buffer_capacity
    }

    /// Number of batches that may queue before the generator blocks.
    pub closed spec fn queue_limit(&self) -> usize {
        self.channel_capacity
    }

    /// A generator with default capacities for the chain that starts with the hash of `seed`.
    pub fn new(seed: &[u8]) -> (generator: TickGenerator)
        ensures
            generator.first()@ == blake3_digest(seed@),
            generator.ticks_per_batch() == TICK_BUFFER_CAPACITY,
            generator.queue_limit() == TICK_CHANNEL_CAPACITY,
            generator.ticks_per_batch() == 1024,
            generator.queue_limit() == 64,
    {
        Self::with_capacity(seed, TICK_BUFFER_CAPACITY, TICK_CHANNEL_CAPACITY)
    }

    /// A generator with explicit ticks-per-batch and channel capacities for the chain that starts
    /// with the hash of `seed`. A batch of fewer than two ticks would carry no link.
    pub fn with_capacity(
        seed: &[u8],
        buffer_capacity: usize,
        channel_capacity: usize,
    ) -> (generator: TickGenerator)
        requires
            buffer_capacity >= 2,
        ensures
            generator.first()@ == blake3_digest(seed@),
            generator.ticks_per_batch() == buffer_capacity,
            generator.queue_limit() == channel_capacity,
    {
        Self::from_genesis(hash(seed), buffer_capacity, channel_capacity)
    }

    /// A generator for the chain that starts with the tick `genesis`.
    pub fn from_genesis(
        genesis: Tick,
        buffer_capacity: usize,
        channel_capacity: usize,
    ) -> (generator: TickGenerator)
        requires
            buffer_capacity >= 2,
        ensures
            generator.first() == genesis,
            generator.ticks_per_batch() == buffer_capacity,
            generator.queue_limit() == channel_capacity,
    {
        TickGenerator { genesis, buffer_capacity, channel_capacity }
    }

    /// The first tick of the chain.
    pub fn genesis(&self) -> (genesis: Tick)
        ensures
            genesis == self.first(),
    {
        self.genesis
    }

    /// Number of ticks in every batch but the last, at least two.
    pub fn buffer_capacity(&self) -> (capacity: usize)
        ensures
            capacity == self.ticks_per_batch(),
            capacity >= 2,
    {
        proof {
            use_type_invariant(self);
        }
        self.buffer_capacity
    }

    /// Number of batches that may queue before the generator blocks.
    pub fn channel_capacity(&self) -> (capacity: usize)
        ensures
            capacity == self.queue_limit(),
    {
        self.channel_capacity
    }
}

} // verus!
