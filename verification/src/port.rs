//! The generator's end of the outside world: the channel that takes its batches, and the signal
//! that stops it.
//!
//! Both are held in private fields of a [`SendPort`], which keeps a log of every use. What a caller
//! does with a port is what is added to the log, neither more nor less.

use crossbeam_channel::Sender;
use std::sync::atomic::AtomicBool;
use vstd::prelude::*;

use crate::batch::TickBatch;
use crate::channel::{send_timeout, ChannelEnd, OfferCall};
use crate::flag::{can_be_loaded, is_stored, FlagTouch, SharedFlag};

verus! {

/// The sending end of a channel: `crossbeam_channel::Sender`. Nothing is known of what is inside.
#[verifier::external_type_specification]
#[verifier::external_body]
#[verifier::reject_recursive_types(T)]
pub struct ExSender<T>(crossbeam_channel::Sender<T>);

/// What a channel made of a batch that it was offered.
#[derive(Debug)]
pub enum Offer {
    /// The channel took the batch.
    Taken,
    /// The receiver is gone.
    Disconnected,
    /// The channel stayed full, and the batch came back.
    Full(TickBatch),
}

/// One use of a port.
pub enum SendEvent {
    /// A batch was offered to the channel for so many milliseconds, with this result.
    Offered { batch: TickBatch, timeout_ms: u64, attempt: Offer },
    /// The stop signal was read, with this result.
    Read { value: bool },
    /// This value was stored in the stop signal.
    Stored { value: bool },
}

/// The channel and the stop signal of a generator, with a log of their use.
pub struct SendPort<'a> {
    end: ChannelEnd<'a>,
    stop_signal: SharedFlag<'a>,
    log: Ghost<Seq<SendEvent>>,
}

impl<'a> SendPort<'a> {
    /// The channel that batches are offered to.
    pub closed spec fn channel(&self) -> &'a Sender<TickBatch> {
        self.end.target()
    }

    /// The stop signal that is read and raised.
    pub closed spec fn signal(&self) -> &'a AtomicBool {
        self.stop_signal.target()
    }

    /// Every use that was made of the port, in order.
    pub closed spec fn events(&self) -> Seq<SendEvent> {
        self.log@
    }

    /// The calls that were made on the channel through this port, in order. No call can be made
    /// through a port without standing here.
    pub closed spec fn calls(&self) -> Seq<OfferCall> {
        self.end.calls()
    }

    /// The uses that were made of the stop signal through this port, in order.
    pub closed spec fn touches(&self) -> Seq<FlagTouch> {
        self.stop_signal.touches()
    }

    /// The log is true of the channel and the stop signal: its offers are the calls made on the
    /// channel, and its other entries the uses made of the stop signal.
    pub open spec fn log_is_true(&self) -> bool {
        calls_in(self.events()) == self.calls() && touches_in(self.events()) == self.touches()
    }

    /// The port leads to the same channel and the same stop signal.
    pub open spec fn same_ends(&self, other: &Self) -> bool {
        self.channel() == other.channel() && self.signal() == other.signal()
    }

    /// The attempt is what the channel can make of an offer of `batch` for `timeout_ms`
    /// milliseconds: if it hands a batch back, it is that one.
    pub closed spec fn can_answer(
        &self,
        batch: TickBatch,
        timeout_ms: u64,
        attempt: Offer,
    ) -> bool {
        attempt matches Offer::Full(unsent) ==> unsent == batch
    }

    /// A port to the given channel and stop signal that has not been used.
    pub fn new(sender: &'a Sender<TickBatch>, stop_signal: &'a AtomicBool) -> (port: SendPort<'a>)
        ensures
            port.channel() == sender,
            port.signal() == stop_signal,
            port.events() == Seq::<SendEvent>::empty(),
            port.calls() == Seq::<OfferCall>::empty(),
            port.touches() == Seq::<FlagTouch>::empty(),
            port.log_is_true(),
        opens_invariants none
        no_unwind
    {
        SendPort {
            end: ChannelEnd::new(sender),
            stop_signal: SharedFlag::new(stop_signal),
            log: Ghost(Seq::empty()),
        }
    }

    /// Offers a batch to the channel, once.
    pub fn offer(&mut self, batch: TickBatch, timeout_ms: u64) -> (attempt: Offer)
        ensures
            final(self).same_ends(old(self)),
            final(self).events() == old(self).events().push(
                SendEvent::Offered { batch, timeout_ms, attempt },
            ),
            final(self).calls() == old(self).calls().push(
                OfferCall { batch, timeout_ms, attempt },
            ),
            final(self).touches() == old(self).touches(),
            old(self).log_is_true() ==> final(self).log_is_true(),
            old(self).can_answer(batch, timeout_ms, attempt),
            attempt matches Offer::Full(unsent) ==> unsent == batch,
    {
        let attempt: Offer = send_timeout(&mut self.end, batch, timeout_ms);
        self.log = Ghost(self.log@.push(SendEvent::Offered { batch, timeout_ms, attempt }));
        assert(self.log@.drop_last() =~= old(self).log@);
        attempt
    }

    /// Reads the stop signal, once.
    pub fn stop_requested(&mut self) -> (value: bool)
        ensures
            final(self).same_ends(old(self)),
            final(self).events() == old(self).events().push(SendEvent::Read { value }),
            taken_in(final(self).events()) == taken_in(old(self).events()),
            stored_in(final(self).events()) == stored_in(old(self).events()),
            final(self).calls() == old(self).calls(),
            final(self).touches() == old(self).touches().push(FlagTouch::Read { value }),
            old(self).log_is_true() ==> final(self).log_is_true(),
            can_be_loaded(old(self).signal(), value),
    {
        let value: bool = self.stop_signal.is_up();
        self.log = Ghost(self.log@.push(SendEvent::Read { value }));
        assert(self.log@.drop_last() =~= old(self).log@);
        value
    }

    /// Raises the stop signal.
    pub fn raise(&mut self)
        ensures
            final(self).same_ends(old(self)),
            final(self).events() == old(self).events().push(SendEvent::Stored { value: true }),
            final(self).calls() == old(self).calls(),
            final(self).touches() == old(self).touches().push(FlagTouch::Stored { value: true }),
            old(self).log_is_true() ==> final(self).log_is_true(),
            is_stored(old(self).signal(), true),
    {
        self.stop_signal.raise();
        self.log = Ghost(self.log@.push(SendEvent::Stored { value: true }));
        assert(self.log@.drop_last() =~= old(self).log@);
    }
}

/// The calls on the channel that some events record, in order.
pub open spec fn calls_in(events: Seq<SendEvent>) -> Seq<OfferCall>
    decreases events.len(),
{
    if events.len() == 0 {
        Seq::empty()
    } else {
        let earlier = calls_in(events.drop_last());
        match events.last() {
            SendEvent::Offered { batch, timeout_ms, attempt } => earlier.push(
                OfferCall { batch, timeout_ms, attempt },
            ),
            _ => earlier,
        }
    }
}

/// The uses of the stop signal that some events record, in order.
pub open spec fn touches_in(events: Seq<SendEvent>) -> Seq<FlagTouch>
    decreases events.len(),
{
    if events.len() == 0 {
        Seq::empty()
    } else {
        let earlier = touches_in(events.drop_last());
        match events.last() {
            SendEvent::Offered { .. } => earlier,
            SendEvent::Read { value } => earlier.push(FlagTouch::Read { value }),
            SendEvent::Stored { value } => earlier.push(FlagTouch::Stored { value }),
        }
    }
}

/// The batches that some calls put into the channel, in order: those of the calls that the channel
/// answered by taking the batch.
pub open spec fn put_in_by(calls: Seq<OfferCall>) -> Seq<TickBatch> {
    calls.filter(|call: OfferCall| call.attempt is Taken).map_values(|call: OfferCall| call.batch)
}

/// A call puts at most one batch into the channel: the one that it offers, if the channel takes it.
pub proof fn call_puts_in_its_batch_or_nothing(calls: Seq<OfferCall>, call: OfferCall)
    ensures
        put_in_by(Seq::empty()) == Seq::<TickBatch>::empty(),
        call.attempt is Taken ==> put_in_by(calls.push(call)) == put_in_by(calls).push(call.batch),
        call.attempt !is Taken ==> put_in_by(calls.push(call)) == put_in_by(calls),
{
    reveal(Seq::filter);
    let taken = |call: OfferCall| call.attempt is Taken;
    let longer = calls.push(call);
    assert(longer.drop_last() =~= calls);
    assert(longer.filter(taken) == if taken(call) {
        calls.filter(taken).push(call)
    } else {
        calls.filter(taken)
    });
    if call.attempt is Taken {
        assert(put_in_by(longer) =~= put_in_by(calls).push(call.batch));
    } else {
        assert(put_in_by(longer) =~= put_in_by(calls));
    }
    assert(put_in_by(Seq::empty()) =~= Seq::<TickBatch>::empty());
}

/// The batches that the channel took in the course of some events, in order.
pub open spec fn taken_in(events: Seq<SendEvent>) -> Seq<TickBatch>
    decreases events.len(),
{
    if events.len() == 0 {
        Seq::empty()
    } else {
        let earlier = taken_in(events.drop_last());
        match events.last() {
            SendEvent::Offered { batch, timeout_ms, attempt: Offer::Taken } => earlier.push(batch),
            _ => earlier,
        }
    }
}

/// The values that were stored in the stop signal in the course of some events, in order.
pub open spec fn stored_in(events: Seq<SendEvent>) -> Seq<bool>
    decreases events.len(),
{
    if events.len() == 0 {
        Seq::empty()
    } else {
        let earlier = stored_in(events.drop_last());
        match events.last() {
            SendEvent::Stored { value } => earlier.push(value),
            _ => earlier,
        }
    }
}

/// What happened in two stretches of events is what happened in the first, and then in the second.
pub proof fn stretches_of_events_add_up(first: Seq<SendEvent>, second: Seq<SendEvent>)
    ensures
        taken_in(first + second) == taken_in(first) + taken_in(second),
        stored_in(first + second) == stored_in(first) + stored_in(second),
    decreases second.len(),
{
    if second.len() == 0 {
        assert(first + second =~= first);
    } else {
        assert((first + second).drop_last() =~= first + second.drop_last());
        stretches_of_events_add_up(first, second.drop_last());
    }
    assert(taken_in(first + second) =~= taken_in(first) + taken_in(second));
    assert(stored_in(first + second) =~= stored_in(first) + stored_in(second));
}

proof fn lemma_log_puts_in(events: Seq<SendEvent>)
    ensures
        put_in_by(calls_in(events)) == taken_in(events),
    decreases events.len(),
{
    call_puts_in_its_batch_or_nothing(Seq::empty(), arbitrary());
    if events.len() > 0 {
        let front = events.drop_last();
        lemma_log_puts_in(front);
        if let SendEvent::Offered { batch, timeout_ms, attempt } = events.last() {
            let call = OfferCall { batch, timeout_ms, attempt };
            call_puts_in_its_batch_or_nothing(calls_in(front), call);
        }
    }
}

/// What goes into the channel is exactly what the log says: the batches that were put in by the
/// calls made through a port are, in order, those that its log records as taken.
pub proof fn channel_gets_what_is_logged(port: SendPort<'_>)
    requires
        port.log_is_true(),
    ensures
        port.calls().filter(|call: OfferCall| call.attempt is Taken).map_values(
            |call: OfferCall| call.batch,
        ) == taken_in(port.events()),
{
    lemma_log_puts_in(port.events());
}

} // verus!
