//! One run of the generator: how the chain grows, when a batch is due, and when the run ends.
//!
//! The run decides; whoever drives it looks at the stop signal, measures time and makes the
//! channel.

use std::time::Duration;
use vstd::prelude::*;

use crate::batch::{
    can_be_joined, is_chain_of_batches, joined, joined_ends_and_length, TickBatch,
};
use crate::chain::{nth_tick, ticks_from};
use crate::channel::OfferCall;
use crate::flag::FlagTouch;
use crate::generator::{TickBuffer, TickGenerator};
use crate::port::{
    call_puts_in_its_batch_or_nothing, channel_gets_what_is_logged, put_in_by, stored_in,
    stretches_of_events_add_up, taken_in, Offer, SendPort,
};
use crate::send::{
    batch_is_taken_once_or_not_at_all, full_trace_of, lead_to, outcomes_of, stalls_in,
    still_retrying, trace_of, verdict_on, GiveUpCause, SendAttempts, SendOutcome, SendVerdict,
    MAX_STALLS, SEND_POLL_INTERVAL_MS,
};
use crate::stream::{
    all_full, batch_start, full_stream_links, is_stream, is_stream_batch, stream_continues,
    stream_is_accepted, stream_joins_to_the_chain, stream_prefix_is_stream,
};
use crate::tick::{blake3_digest, hash, Tick};

verus! {

/// What a run waits for. A batch is `closing` if the run ends with it.
#[derive(Debug, Clone, Copy, PartialEq, Eq, Structural)]
pub enum RunPhase {
    /// The state of the stop signal.
    Filling,
    /// The time that it took to fill the batch.
    Flushing { closing: bool },
    /// The outcome of an attempt to send the batch.
    Sending { closing: bool },
    /// The word to begin the next batch.
    Resuming,
    /// Nothing: the run is over.
    Finished,
}

/// What a run asks for after it has learnt the state of the stop signal.
#[derive(Debug, Clone, Copy, PartialEq, Eq, Structural)]
pub enum PollAction {
    /// A tick was added. Look at the stop signal again.
    Poll,
    /// A batch is due. Stop the clock and flush it.
    Flush,
    /// The run is over.
    Finish,
}

/// What a run asks for after it has learnt the outcome of an attempt to send a batch.
#[derive(Debug, Clone, Copy, PartialEq, Eq, Structural)]
pub enum SendAction {
    /// The batch is on its way. Restart the clock and begin the next one.
    Resume,
    /// Offer the same batch again.
    Retry,
    /// The last batch is on its way, and the run is over.
    Close,
    /// The batch is dropped, and the run is over. If the receiver stalled, raise the stop signal.
    GiveUp { cause: GiveUpCause },
}

/// What a run with `buffered` ticks in its buffer asks for when it learns the state of the stop
/// signal. With the signal up, it ends with a last batch of whatever ticks there are; a buffer with
/// only one tick carries no link and is left out. Otherwise a full buffer is to be flushed, and any
/// other gets its next tick.
pub open spec fn poll_action(
    stop_requested: bool,
    buffered: nat,
    ticks_per_batch: nat,
) -> PollAction {
    if stop_requested {
        if buffered >= 2 {
            PollAction::Flush
        } else {
            PollAction::Finish
        }
    } else if buffered == ticks_per_batch {
        PollAction::Flush
    } else {
        PollAction::Poll
    }
}

/// What a run asks for after the verdict on an attempt to send a batch.
pub open spec fn send_action(closing: bool, verdict: SendVerdict) -> SendAction {
    match verdict {
        SendVerdict::Sent => if closing {
            SendAction::Close
        } else {
            SendAction::Resume
        },
        SendVerdict::Retry => SendAction::Retry,
        SendVerdict::GiveUp { cause } => SendAction::GiveUp { cause },
    }
}

/// One run of a generator.
pub struct TickRun {
    genesis: Tick,
    buffer: TickBuffer,
    phase: RunPhase,
    attempts: SendAttempts,
    flushed: Ghost<Seq<TickBatch>>,
    sent: Ghost<Seq<TickBatch>>,
}

impl TickRun {
    /// The first tick of the chain.
    pub closed spec fn first(&self) -> Tick {
        self.genesis
    }

    /// Number of ticks in every batch but the last.
    pub closed spec fn ticks_per_batch(&self) -> usize {
        self.buffer.limit()
    }

    /// What the run waits for.
    pub closed spec fn waits_for(&self) -> RunPhase {
        self.phase
    }

    /// The ticks that the next batch starts with.
    pub closed spec fn buffered(&self) -> Seq<Tick> {
        self.buffer@
    }

    /// Number of attempts to send the current batch that timed out.
    pub closed spec fn stalls(&self) -> int {
        self.attempts@
    }

    /// The batches flushed so far.
    pub closed spec fn batches(&self) -> Seq<TickBatch> {
        self.flushed@
    }

    /// The batches that the channel took so far: those of which [`TickRun::on_send`] was told that
    /// they were delivered. [`TickRun::send`] tells it what the channel answered.
    pub closed spec fn delivered(&self) -> Seq<TickBatch> {
        self.sent@
    }

    /// The buffer goes on where the batches flushed so far, all of them full, leave off.
    pub open spec fn buffer_continues_batches(&self) -> bool {
        &&& all_full(self.ticks_per_batch() as nat, self.batches())
        &&& ticks_from(
            self.first()@,
            batch_start(self.ticks_per_batch() as nat, self.batches().len() as int),
            self.buffered(),
        )
    }

    /// The buffer holds nothing but the last tick of the last batch delivered, or, if there is no
    /// such batch, nothing but the first tick of all.
    pub open spec fn buffer_holds_last_delivered_tick(&self) -> bool {
        &&& self.buffered().len() == 1
        &&& self.buffered()[0]@ == if self.delivered().len() == 0 {
            self.first()@
        } else {
            self.delivered().last().ticks@.last()@
        }
    }

    /// What holds between any two events: the batches flushed so far are the chain from the first
    /// tick, cut into full batches, the buffer goes on from there without a gap, and the channel
    /// took them all in order, but for the one that is being sent or that the run ended with.
    pub open spec fn inv(&self) -> bool {
        &&& self.ticks_per_batch() >= 2
        &&& 1 <= self.buffered().len() <= self.ticks_per_batch()
        &&& is_stream(self.first()@, self.ticks_per_batch() as nat, self.batches())
        &&& 0 <= self.stalls()
        &&& match self.waits_for() {
            RunPhase::Filling => {
                &&& self.delivered() == self.batches()
                &&& self.buffer_continues_batches()
                &&& self.batches().len() > 0 ==> self.buffered().len() >= 2
            },
            RunPhase::Flushing { closing } => {
                &&& self.delivered() == self.batches()
                &&& self.buffer_continues_batches()
                &&& self.buffered().len() >= 2
                &&& !closing ==> self.buffered().len() == self.ticks_per_batch()
            },
            RunPhase::Sending { closing } => {
                &&& self.batches().len() > 0
                &&& self.delivered() == self.batches().drop_last()
                &&& self.stalls() <= MAX_STALLS
                &&& self.buffered() == seq![self.batches().last().ticks@.last()]
                &&& !closing ==> self.buffer_continues_batches()
            },
            RunPhase::Resuming => {
                &&& self.delivered() == self.batches()
                &&& self.buffer_continues_batches()
                &&& self.buffer_holds_last_delivered_tick()
            },
            RunPhase::Finished => {
                ||| self.delivered() == self.batches() && self.buffer_holds_last_delivered_tick()
                ||| self.batches().len() > 0 && self.delivered() == self.batches().drop_last()
            },
        }
    }

    /// The run is of the same chain, cut in the same way.
    pub open spec fn same_chain(&self, other: &TickRun) -> bool {
        self.first() == other.first() && self.ticks_per_batch() == other.ticks_per_batch()
    }

    /// Begins a run: the buffer holds the first tick, and nothing has been flushed.
    pub fn new(generator: &TickGenerator) -> (run: TickRun)
        ensures
            run.inv(),
            run.first() == generator.first(),
            run.ticks_per_batch() == generator.ticks_per_batch(),
            run.waits_for() is Filling,
            run.buffered() == seq![generator.first()],
            run.batches() == Seq::<TickBatch>::empty(),
            run.delivered() == Seq::<TickBatch>::empty(),
            run.stalls() == 0,
    {
        let genesis: Tick = generator.genesis();
        let mut buffer: TickBuffer = TickBuffer::new(generator.buffer_capacity());
        buffer.push(genesis);
        assert(buffer@ =~= seq![genesis]);
        let run = TickRun {
            genesis,
            buffer,
            phase: RunPhase::Filling,
            attempts: SendAttempts::new(),
            flushed: Ghost(Seq::empty()),
            sent: Ghost(Seq::empty()),
        };
        assert(batch_start(run.ticks_per_batch() as nat, 0) == 0) by (nonlinear_arith);
        assert(run.buffered()[0]@ == nth_tick(run.first()@, 0));
        run
    }

    /// What the run waits for.
    pub fn phase(&self) -> (phase: RunPhase)
        ensures
            phase == self.waits_for(),
    {
        self.phase
    }

    /// Adds the hash of the last tick.
    fn advance(&mut self)
        requires
            old(self).ticks_per_batch() >= 2,
            1 <= old(self).buffered().len() < old(self).ticks_per_batch(),
            old(self).buffer_continues_batches(),
        ensures
            final(self).same_chain(old(self)),
            final(self).waits_for() == old(self).waits_for(),
            final(self).stalls() == old(self).stalls(),
            final(self).batches() == old(self).batches(),
            final(self).delivered() == old(self).delivered(),
            final(self).buffered().len() == old(self).buffered().len() + 1,
            final(self).buffered().drop_last() == old(self).buffered(),
            final(self).buffered().last()@ == blake3_digest(old(self).buffered().last()@),
            final(self).buffer_continues_batches(),
    {
        let ghost before = self.buffer@;
        let ghost start = batch_start(self.buffer.limit() as nat, self.flushed@.len() as int);
        if let Some(last) = self.buffer.last() {
            let tick: Tick = hash(last.as_bytes());
            self.buffer.push(tick);
        }
        assert(self.buffered().drop_last() =~= before);
        assert forall|i: int| 0 <= i < self.buffered().len() implies (#[trigger]
        self.buffered()[i])@ == nth_tick(self.first()@, (start + i) as nat) by {
            if i < before.len() {
                assert(self.buffered()[i] == before[i]);
            } else {
                assert(before[i - 1]@ == nth_tick(self.first()@, (start + (i - 1)) as nat));
            }
        }
    }

    /// Takes note of the state of the stop signal, and adds a tick unless a batch is due or the run
    /// is over.
    pub fn poll(&mut self, stop_requested: bool) -> (action: PollAction)
        requires
            old(self).inv(),
            old(self).waits_for() is Filling,
        ensures
            final(self).inv(),
            final(self).same_chain(old(self)),
            final(self).batches() == old(self).batches(),
            final(self).delivered() == old(self).delivered(),
            final(self).stalls() == old(self).stalls(),
            action == poll_action(
                stop_requested,
                old(self).buffered().len(),
                old(self).ticks_per_batch() as nat,
            ),
            final(self).waits_for() == match action {
                PollAction::Poll => RunPhase::Filling,
                PollAction::Flush => RunPhase::Flushing { closing: stop_requested },
                PollAction::Finish => RunPhase::Finished,
            },
            action is Finish ==> stop_requested && old(self).buffered().len() < 2,
            action is Poll <==> !stop_requested && old(self).buffered().len()
                < old(self).ticks_per_batch(),
            final(self).waits_for() is Finished <==> action is Finish,
            action !is Poll ==> final(self).buffered() == old(self).buffered(),
            action is Poll ==> {
                &&& final(self).buffered().len() == old(self).buffered().len() + 1
                &&& final(self).buffered().drop_last() == old(self).buffered()
                &&& final(self).buffered().last()@ == blake3_digest(old(self).buffered().last()@)
            },
    {
        if stop_requested {
            if self.buffer.len() >= 2 {
                self.phase = RunPhase::Flushing { closing: true };
                PollAction::Flush
            } else {
                assert(batch_start(self.ticks_per_batch() as nat, 0) == 0) by (nonlinear_arith);
                assert(self.buffered()[0]@ == nth_tick(self.first()@, 0));
                self.phase = RunPhase::Finished;
                PollAction::Finish
            }
        } else if self.buffer.is_full() {
            self.phase = RunPhase::Flushing { closing: false };
            PollAction::Flush
        } else {
            self.advance();
            PollAction::Poll
        }
    }

    /// Hands out the batch that is due, with the time that it took to fill it, and keeps its last
    /// tick for the next.
    pub fn flush(&mut self, wall_clock_elapsed: Duration) -> (batch: TickBatch)
        requires
            old(self).inv(),
            old(self).waits_for() is Flushing,
        ensures
            final(self).inv(),
            final(self).same_chain(old(self)),
            batch.ticks@ == old(self).buffered(),
            batch.wall_clock_elapsed == wall_clock_elapsed,
            final(self).buffered() == seq![old(self).buffered().last()],
            final(self).batches() == old(self).batches().push(batch),
            final(self).delivered() == old(self).delivered(),
            final(self).stalls() == 0,
            final(self).waits_for() == (RunPhase::Sending {
                closing: old(self).waits_for()->Flushing_closing,
            }),
    {
        let closing: bool = matches!(self.phase, RunPhase::Flushing { closing: true });
        let batch: TickBatch = match self.buffer.flush(wall_clock_elapsed) {
            Some(batch) => batch,
            None => vstd::pervasive::unreached(),
        };
        proof {
            stream_continues(
                self.genesis@,
                self.buffer.limit() as nat,
                self.flushed@,
                batch,
            );
        }
        self.flushed = Ghost(self.flushed@.push(batch));
        assert(self.flushed@.drop_last() =~= old(self).flushed@);
        self.phase = RunPhase::Sending { closing };
        self.attempts = SendAttempts::new();
        batch
    }

    /// Takes note of what became of an attempt to send the current batch. Once it is sent, the run
    /// goes on with the next batch, or is over if the batch was the last. If the receiver is gone,
    /// the stop signal is up or the receiver has stalled too often, the run is over at once.
    pub fn on_send(&mut self, outcome: SendOutcome) -> (action: SendAction)
        requires
            old(self).inv(),
            old(self).waits_for() is Sending,
        ensures
            final(self).inv(),
            final(self).same_chain(old(self)),
            final(self).batches() == old(self).batches(),
            final(self).delivered() == if outcome is Delivered {
                old(self).batches()
            } else {
                old(self).delivered()
            },
            action == send_action(
                old(self).waits_for()->Sending_closing,
                verdict_on(old(self).stalls(), outcome),
            ),
            final(self).waits_for() == match action {
                SendAction::Resume => RunPhase::Resuming,
                SendAction::Retry => old(self).waits_for(),
                SendAction::Close | SendAction::GiveUp { .. } => RunPhase::Finished,
            },
            final(self).stalls() == if outcome is TimedOut {
                old(self).stalls() + 1
            } else {
                old(self).stalls()
            },
            final(self).buffered() == old(self).buffered(),
            action is Retry <==> outcome == (SendOutcome::TimedOut { stop_requested: false })
                && old(self).stalls() < 10,
            action is Resume || action is Close <==> outcome is Delivered,
            action is Close ==> old(self).waits_for()->Sending_closing,
            action is Resume ==> !old(self).waits_for()->Sending_closing,
            action == (SendAction::GiveUp { cause: GiveUpCause::Disconnected })
                <==> outcome is Disconnected,
            action == (SendAction::GiveUp { cause: GiveUpCause::StopRequested }) <==> outcome == (
            SendOutcome::TimedOut { stop_requested: true }),
            final(self).waits_for() is Finished <==> action is Close || action is GiveUp,
    {
        match self.attempts.record(outcome) {
            SendVerdict::Sent => {
                self.sent = Ghost(self.flushed@);
                if matches!(self.phase, RunPhase::Sending { closing: true }) {
                    self.phase = RunPhase::Finished;
                    SendAction::Close
                } else {
                    self.phase = RunPhase::Resuming;
                    SendAction::Resume
                }
            },
            SendVerdict::Retry => SendAction::Retry,
            SendVerdict::GiveUp { cause } => {
                self.phase = RunPhase::Finished;
                SendAction::GiveUp { cause }
            },
        }
    }

    /// Number of attempts to send the current batch that timed out.
    pub fn stall_count(&self) -> (count: usize)
        ensures
            count == self.stalls(),
    {
        self.attempts.stalls()
    }

    /// Offers the batch just flushed to the channel until it is taken or the run gives up on it,
    /// and raises the stop signal if the receiver has stalled too often. Every attempt offers the
    /// same batch for the same time, and the stop signal is looked at after each that timed out.
    ///
    /// What becomes of an attempt depends on the receiver, on time and on the stop signal. The
    /// contract says exactly which use is made of the port for each course of events. If the channel
    /// has taken what the run has delivered, and nothing else, that stays so.
    pub fn send(&mut self, port: &mut SendPort<'_>, batch: TickBatch) -> (action: SendAction)
        requires
            old(self).inv(),
            old(self).waits_for() is Sending,
            old(self).stalls() == 0,
            batch == old(self).batches().last(),
        ensures
            final(self).inv(),
            final(self).same_chain(old(self)),
            final(self).batches() == old(self).batches(),
            final(self).buffered() == old(self).buffered(),
            final(port).same_ends(old(port)),
            action !is Retry,
            final(self).waits_for() == if action is Resume {
                RunPhase::Resuming
            } else {
                RunPhase::Finished
            },
            final(self).stalls() <= MAX_STALLS + 1,
            exists|attempts: Seq<Offer>, readings: Seq<bool>, verdict: SendVerdict|
                {
                    &&& attempts.len() == readings.len()
                    &&& #[trigger] lead_to(outcomes_of(attempts, readings), verdict)
                    &&& action == send_action(old(self).waits_for()->Sending_closing, verdict)
                    &&& final(port).events() == old(port).events() + full_trace_of(
                        attempts,
                        readings,
                        batch,
                        verdict,
                    )
                    &&& final(self).stalls() == stalls_in(outcomes_of(attempts, readings))
                    &&& final(self).delivered() == if verdict is Sent {
                        old(self).batches()
                    } else {
                        old(self).delivered()
                    }
                },
            taken_in(final(port).events()) == if action is GiveUp {
                taken_in(old(port).events())
            } else {
                taken_in(old(port).events()).push(batch)
            },
            taken_in(old(port).events()) == old(self).delivered() ==> taken_in(
                final(port).events(),
            ) == final(self).delivered(),
            stored_in(final(port).events()) == if action == (SendAction::GiveUp {
                cause: GiveUpCause::Stalled,
            }) {
                stored_in(old(port).events()).push(true)
            } else {
                stored_in(old(port).events())
            },
            old(port).log_is_true() ==> final(port).log_is_true(),
            // What was done to the channel: one to eleven calls, each with this batch and for
            // 100 ms, of which all but the last came to a full channel.
            old(port).calls().len() < final(port).calls().len() <= old(port).calls().len() + 11,
            forall|i: int|
                0 <= i < old(port).calls().len() ==> #[trigger] final(port).calls()[i]
                    == old(port).calls()[i],
            forall|i: int|
                old(port).calls().len() <= i < final(port).calls().len() ==> {
                    &&& (#[trigger] final(port).calls()[i]).batch == batch
                    &&& final(port).calls()[i].timeout_ms == 100
                    &&& i < final(port).calls().len() - 1 ==> final(port).calls()[i].attempt is Full
                },
            // What has been put in after that: this batch once more, or no more than before.
            put_in_by(final(port).calls()) == if action is GiveUp {
                put_in_by(old(port).calls())
            } else {
                put_in_by(old(port).calls()).push(batch)
            },
            // How the last call decides.
            final(port).calls().last().attempt is Taken <==> action is Resume || action is Close,
            final(port).calls().last().attempt is Disconnected <==> action == (SendAction::GiveUp {
                cause: GiveUpCause::Disconnected,
            }),
            action is Close ==> old(self).waits_for()->Sending_closing,
            action is Resume ==> !old(self).waits_for()->Sending_closing,
            action == (SendAction::GiveUp { cause: GiveUpCause::Stalled })
                ==> final(port).calls().len() == old(port).calls().len() + 11,
            final(self).delivered() == if final(port).calls().last().attempt is Taken {
                old(self).delivered().push(batch)
            } else {
                old(self).delivered()
            },
            // What was done to the stop signal: one look after each call that came to a full
            // channel, and one store of `true` if eleven of them did and the signal was down.
            forall|i: int|
                0 <= i < old(port).touches().len() ==> #[trigger] final(port).touches()[i]
                    == old(port).touches()[i],
            final(port).touches().len() == old(port).touches().len() + (final(port).calls().len()
                - old(port).calls().len()) - (if final(port).calls().last().attempt is Full {
                0int
            } else {
                1int
            }) + (if action == (SendAction::GiveUp { cause: GiveUpCause::Stalled }) {
                1int
            } else {
                0int
            }),
            forall|i: int|
                {
                    let made = final(port).calls().len() - old(port).calls().len();
                    &&& 0 <= i < made
                    &&& i < made - 1 || final(port).calls().last().attempt is Full
                } ==> #[trigger] final(port).touches()[old(port).touches().len() + i] == (
                FlagTouch::Read {
                    value: i == final(port).calls().len() - old(port).calls().len() - 1 && action
                        == (SendAction::GiveUp { cause: GiveUpCause::StopRequested }),
                }),
            action == (SendAction::GiveUp { cause: GiveUpCause::Stalled })
                ==> final(port).touches().last() == (FlagTouch::Stored { value: true }),
    {
        let mut offered: TickBatch = batch;
        let ghost mut attempts: Seq<Offer> = Seq::empty();
        let ghost mut readings: Seq<bool> = Seq::empty();
        assert(old(self).batches() =~= old(self).delivered().push(batch));
        assert(old(port).events() + trace_of(attempts, readings, batch) =~= old(port).events());
        loop
            invariant
                self.inv(),
                self.waits_for() is Sending,
                self.waits_for() == old(self).waits_for(),
                self.same_chain(old(self)),
                self.batches() == old(self).batches(),
                self.delivered() == old(self).delivered(),
                self.buffered() == old(self).buffered(),
                old(self).batches() == old(self).delivered().push(batch),
                port.same_ends(old(port)),
                offered == batch,
                attempts.len() == readings.len(),
                port.events() == old(port).events() + trace_of(attempts, readings, batch),
                still_retrying(outcomes_of(attempts, readings)),
                self.stalls() == attempts.len(),
                self.stalls() <= 10,
                old(port).log_is_true() ==> port.log_is_true(),
                port.calls().len() == old(port).calls().len() + self.stalls(),
                forall|i: int|
                    0 <= i < old(port).calls().len() ==> #[trigger] port.calls()[i]
                        == old(port).calls()[i],
                forall|i: int|
                    old(port).calls().len() <= i < port.calls().len() ==> {
                        &&& (#[trigger] port.calls()[i]).batch == batch
                        &&& port.calls()[i].timeout_ms == 100
                        &&& port.calls()[i].attempt is Full
                    },
                put_in_by(port.calls()) == put_in_by(old(port).calls()),
                port.touches().len() == old(port).touches().len() + self.stalls(),
                forall|i: int|
                    0 <= i < old(port).touches().len() ==> #[trigger] port.touches()[i]
                        == old(port).touches()[i],
                forall|i: int|
                    old(port).touches().len() <= i < port.touches().len()
                        ==> #[trigger] port.touches()[i] == (FlagTouch::Read { value: false }),
            decreases MAX_STALLS - self.stalls(),
        {
            let ghost calls = port.calls();
            let attempt: Offer = port.offer(offered, SEND_POLL_INTERVAL_MS);
            proof {
                let call = OfferCall { batch, timeout_ms: SEND_POLL_INTERVAL_MS, attempt };
                call_puts_in_its_batch_or_nothing(calls, call);
            }
            let ghost made = attempts.push(attempt);
            let (outcome, unsent): (SendOutcome, Option<TickBatch>) = match attempt {
                Offer::Taken => (SendOutcome::Delivered, None),
                Offer::Disconnected => (SendOutcome::Disconnected, None),
                Offer::Full(unsent) => {
                    let stop_requested: bool = port.stop_requested();
                    (SendOutcome::TimedOut { stop_requested }, Some(unsent))
                },
            };
            let ghost read = readings.push(outcome == (SendOutcome::TimedOut {
                stop_requested: true,
            }));
            proof {
                assert(made.drop_last() =~= attempts);
                assert(read.drop_last() =~= readings);
                assert(outcomes_of(made, read).drop_last() =~= outcomes_of(attempts, readings));
                assert(outcomes_of(made, read).last() == outcome);
                assert(port.events() =~= old(port).events() + trace_of(made, read, batch));
            }
            let action: SendAction = self.on_send(outcome);
            match (action, unsent) {
                (SendAction::Retry, Some(unsent)) => {
                    offered = unsent;
                    proof {
                        let outcomes = outcomes_of(made, read);
                        assert forall|i: int| 0 <= i < outcomes.len() implies verdict_on(
                            i,
                            #[trigger] outcomes[i],
                        ) is Retry by {
                            if i < attempts.len() {
                                assert(outcomes[i] == outcomes_of(attempts, readings)[i]);
                            }
                        }
                        attempts = made;
                        readings = read;
                    }
                },
                _ => {
                    if matches!(action, SendAction::GiveUp { cause: GiveUpCause::Stalled }) {
                        port.raise();
                    }
                    proof {
                        let verdict = verdict_on(made.len() - 1, outcome);
                        assert(lead_to(outcomes_of(made, read), verdict));
                        let trace = full_trace_of(made, read, batch, verdict);
                        assert(port.events() =~= old(port).events() + trace);
                        stretches_of_events_add_up(old(port).events(), trace);
                        batch_is_taken_once_or_not_at_all(made, read, batch, verdict);
                        assert(taken_in(old(port).events()) + seq![batch] =~= taken_in(
                            old(port).events(),
                        ).push(batch));
                        assert(stored_in(old(port).events()) + seq![true] =~= stored_in(
                            old(port).events(),
                        ).push(true));
                    }
                    return action;
                },
            }
        }
    }

    /// Begins the next batch, which starts with the last tick of the batch just delivered: adds the
    /// hash of that tick, before the stop signal is looked at again.
    pub fn resume(&mut self)
        requires
            old(self).inv(),
            old(self).waits_for() is Resuming,
        ensures
            final(self).inv(),
            final(self).same_chain(old(self)),
            final(self).waits_for() is Filling,
            final(self).batches() == old(self).batches(),
            final(self).delivered() == old(self).delivered(),
            final(self).stalls() == old(self).stalls(),
            final(self).buffered().len() == 2,
            final(self).buffered()[0] == old(self).buffered()[0],
            final(self).buffered()[1]@ == blake3_digest(old(self).buffered()[0]@),
    {
        let ghost before = self.buffered();
        self.advance();
        assert(self.buffered()[0] == before[0]) by {
            assert(self.buffered().drop_last()[0] == before[0]);
        }
        self.phase = RunPhase::Filling;
    }
}

/// Without a stop request, polling never ends a run: a buffer that is not full gets its next tick,
/// and a full one is flushed. With a stop request, a run with a link to ship ships it, and any
/// other is over.
pub proof fn polling_goes_on_until_stopped(buffered: nat, ticks_per_batch: nat)
    ensures
        poll_action(false, buffered, ticks_per_batch) !is Finish,
        buffered < ticks_per_batch ==> poll_action(false, buffered, ticks_per_batch) is Poll,
        buffered == ticks_per_batch ==> poll_action(false, buffered, ticks_per_batch) is Flush,
        poll_action(true, buffered, ticks_per_batch) is Flush <==> buffered >= 2,
        poll_action(true, buffered, ticks_per_batch) is Finish <==> buffered < 2,
{
}

/// A batch that is sent begins the next one, unless it was the last; one that is to be offered
/// again is offered again; one that is given up ends the run, for the same cause.
pub proof fn verdict_decides_the_action(closing: bool, verdict: SendVerdict)
    ensures
        send_action(closing, verdict) is Resume <==> verdict is Sent && !closing,
        send_action(closing, verdict) is Close <==> verdict is Sent && closing,
        send_action(closing, verdict) is Retry <==> verdict is Retry,
        verdict matches SendVerdict::GiveUp { cause } ==> send_action(closing, verdict) == (
        SendAction::GiveUp { cause }),
{
}

/// Over a whole run, the batches that were put into the channel through its port are, in order,
/// those that the run has delivered, and a verifier accepts them: they are in sequence, form one
/// unbroken chain, start with the first tick, and each carries a link. Nothing else was put in, in
/// any state of the run.
pub proof fn channel_holds_an_accepted_stream(run: TickRun, port: SendPort<'_>)
    requires
        run.inv(),
        port.log_is_true(),
        taken_in(port.events()) == run.delivered(),
    ensures
        ({
            let received = port.calls().filter(
                |call: OfferCall| call.attempt is Taken,
            ).map_values(|call: OfferCall| call.batch);
            &&& received == run.delivered()
            &&& is_chain_of_batches(received)
            &&& received.len() > 0 ==> received[0].ticks@[0]@ == run.first()@
            &&& forall|k: int|
                0 <= k < received.len() ==> (#[trigger] received[k]).ticks@.len() >= 2
            &&& forall|k: int|
                0 <= k < received.len() - 1 ==> (#[trigger] received[k]).ticks@.len()
                    == run.ticks_per_batch()
            &&& forall|k: int, i: int|
                0 <= k < received.len() && 0 <= i < received[k].ticks@.len() ==> (
                #[trigger] received[k].ticks@[i])@ == nth_tick(
                    run.first()@,
                    (k * (run.ticks_per_batch() - 1) + i) as nat,
                )
        }),
{
    channel_gets_what_is_logged(port);
    delivered_batches_are_accepted(run);
    let received = run.delivered();
    let capacity = run.ticks_per_batch() as nat;
    assert forall|k: int| 0 <= k < received.len() implies #[trigger] is_stream_batch(
        run.first()@,
        capacity,
        received,
        k,
    ) by {}
    assert forall|k: int| 0 <= k < received.len() implies (#[trigger] received[k]).ticks@.len()
        >= 2 by {
        delivered_batches_are_full(run, k);
    }
    assert forall|k: int| 0 <= k < received.len() - 1 implies (
    #[trigger] received[k]).ticks@.len() == run.ticks_per_batch() by {
        delivered_batches_are_full(run, k);
    }
    assert forall|k: int, i: int|
        0 <= k < received.len() && 0 <= i < received[k].ticks@.len() implies (
    #[trigger] received[k].ticks@[i])@ == nth_tick(
        run.first()@,
        (k * (run.ticks_per_batch() - 1) + i) as nat,
    ) by {
        assert(is_stream_batch(run.first()@, capacity, received, k));
        assert(k * (capacity - 1) >= 0) by (nonlinear_arith)
            requires
                k >= 0,
                capacity >= 2,
        ;
        assert(received[k].ticks@[i]@ == nth_tick(
            run.first()@,
            (batch_start(capacity, k) + i) as nat,
        ));
    }
}

/// The stop signal ends a run. Once it is up, no tick is added at a poll, no batch is
/// offered twice, and an attempt to send the closing batch ends the run whatever becomes of it.
pub proof fn stop_signal_ends_the_run(
    buffered: nat,
    ticks_per_batch: nat,
    closing: bool,
    stalls: int,
    outcome: SendOutcome,
)
    requires
        outcome matches SendOutcome::TimedOut { stop_requested } ==> stop_requested,
    ensures
        poll_action(true, buffered, ticks_per_batch) !is Poll,
        send_action(closing, verdict_on(stalls, outcome)) !is Retry,
        closing ==> send_action(closing, verdict_on(stalls, outcome)) !is Resume,
{
}

/// A receiver that is gone ends a run, stop signal or not.
pub proof fn disconnection_ends_the_run(closing: bool, stalls: int)
    ensures
        send_action(closing, verdict_on(stalls, SendOutcome::Disconnected)) is GiveUp,
{
}

/// In every state of a run, what the channel took so far is accepted by a verifier: the batches
/// are in sequence, form one unbroken chain and start with the first tick. Joined again, they are
/// the chain that the first tick starts.
pub proof fn delivered_batches_are_accepted(run: TickRun)
    requires
        run.inv(),
    ensures
        is_stream(run.first()@, run.ticks_per_batch() as nat, run.delivered()),
        can_be_joined(run.delivered()),
        is_chain_of_batches(run.delivered()),
        run.delivered().len() > 0 ==> run.delivered()[0].ticks@[0]@ == run.first()@,
        ticks_from(run.first()@, 0, joined(run.delivered())),
{
    let batches = run.batches();
    let count = run.delivered().len() as int;
    let capacity = run.ticks_per_batch() as nat;
    assert(run.delivered() =~= batches.take(count));
    stream_prefix_is_stream(run.first()@, capacity, batches, count);
    stream_is_accepted(run.first()@, capacity, run.delivered());
    stream_joins_to_the_chain(run.first()@, capacity, run.delivered());
}

/// Every batch that the channel took, but perhaps the last, holds exactly the configured number of
/// ticks, and none holds fewer than two or more than that number.
pub proof fn delivered_batches_are_full(run: TickRun, k: int)
    requires
        run.inv(),
        0 <= k < run.delivered().len(),
    ensures
        2 <= run.delivered()[k].ticks@.len() <= run.ticks_per_batch(),
        k < run.delivered().len() - 1 ==> run.delivered()[k].ticks@.len()
            == run.ticks_per_batch(),
{
    delivered_batches_are_accepted(run);
    assert(is_stream_batch(
        run.first()@,
        run.ticks_per_batch() as nat,
        run.delivered(),
        k,
    ));
}

/// While a batch is being filled, no tick is missing between what the channel took and the buffer:
/// the buffer starts with the last tick delivered, or with the first tick of all.
pub proof fn buffer_starts_where_delivery_ends(run: TickRun)
    requires
        run.inv(),
        run.waits_for() is Filling,
    ensures
        run.buffered()[0]@ == if run.delivered().len() == 0 {
            run.first()@
        } else {
            joined(run.delivered()).last()@
        },
{
    let genesis = run.first()@;
    let capacity = run.ticks_per_batch() as nat;
    let delivered = run.delivered();
    let start = batch_start(capacity, delivered.len() as int);
    assert(run.buffered()[0]@ == nth_tick(genesis, (start + 0) as nat));
    if delivered.len() == 0 {
        assert(batch_start(capacity, 0) == 0) by (nonlinear_arith);
    } else {
        delivered_batches_are_accepted(run);
        full_stream_links(genesis, capacity, delivered);
        assert(is_stream_batch(genesis, capacity, delivered, 0));
        joined_ends_and_length(delivered);
        let ticks = joined(delivered);
        assert(ticks[ticks.len() - 1]@ == nth_tick(genesis, (0 + (ticks.len() - 1)) as nat));
    }
}

/// A run that is over has delivered every tick that it produced, unless it gave up on its last
/// batch: the last tick in the buffer is the last tick delivered.
pub proof fn finished_run_has_delivered_every_tick(run: TickRun)
    requires
        run.inv(),
        run.waits_for() is Finished,
        run.delivered() == run.batches(),
        run.delivered().len() > 0,
    ensures
        joined(run.delivered()).last()@ == run.buffered().last()@,
{
    delivered_batches_are_accepted(run);
    let delivered = run.delivered();
    assert(is_stream_batch(run.first()@, run.ticks_per_batch() as nat, delivered, 0));
    joined_ends_and_length(delivered);
    assert(run.buffer_holds_last_delivered_tick()) by {
        assert(delivered.len() != delivered.drop_last().len());
    }
}

/// How a chain is cut into batches makes no difference to the chain: two runs that start with the
/// same tick deliver the same ticks, as far as both have come.
pub proof fn batch_size_does_not_matter(left: TickRun, right: TickRun, i: int)
    requires
        left.inv(),
        right.inv(),
        left.first()@ == right.first()@,
        0 <= i < joined(left.delivered()).len(),
        i < joined(right.delivered()).len(),
    ensures
        joined(left.delivered())[i]@ == joined(right.delivered())[i]@,
{
    delivered_batches_are_accepted(left);
    delivered_batches_are_accepted(right);
    assert(joined(left.delivered())[i]@ == nth_tick(left.first()@, (0 + i) as nat));
    assert(joined(right.delivered())[i]@ == nth_tick(left.first()@, (0 + i) as nat));
}

} // verus!
