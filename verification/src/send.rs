//! What to do with a batch that the channel may not take at once.

use vstd::prelude::*;

use crate::batch::TickBatch;
use crate::port::{stored_in, taken_in, Offer, SendEvent};

verus! {

/// How long one attempt to send a batch may block, in milliseconds, before the stop signal is
/// looked at again.
pub const SEND_POLL_INTERVAL_MS: u64 = 100;

/// Maximum number of consecutive stalls tolerated before the generator stops.
pub const MAX_STALLS: usize = 10;

/// What became of one attempt to send a batch.
#[derive(Debug, Clone, Copy, PartialEq, Eq, Structural)]
pub enum SendOutcome {
    /// The channel took the batch.
    Delivered,
    /// The receiver is gone.
    Disconnected,
    /// The channel stayed full; `stop_requested` is the state of the stop signal afterwards.
    TimedOut { stop_requested: bool },
}

/// What to do after an attempt to send a batch.
#[derive(Debug, Clone, Copy, PartialEq, Eq, Structural)]
pub enum SendVerdict {
    /// The batch is on its way.
    Sent,
    /// Offer the same batch again.
    Retry,
    /// Drop the batch and stop. If the receiver stalled, raise the stop signal.
    GiveUp { cause: GiveUpCause },
}

/// Why a batch is not sent.
#[derive(Debug, Clone, Copy, PartialEq, Eq, Structural)]
pub enum GiveUpCause {
    /// The receiver is gone.
    Disconnected,
    /// The channel was full when the stop signal was up.
    StopRequested,
    /// The channel was full more often than is tolerated.
    Stalled,
}

/// The verdict on an attempt that came after `stalls` attempts that timed out.
pub open spec fn verdict_on(stalls: int, outcome: SendOutcome) -> SendVerdict {
    match outcome {
        SendOutcome::Delivered => SendVerdict::Sent,
        SendOutcome::Disconnected => SendVerdict::GiveUp { cause: GiveUpCause::Disconnected },
        SendOutcome::TimedOut { stop_requested } => if stop_requested {
            SendVerdict::GiveUp { cause: GiveUpCause::StopRequested }
        } else if stalls + 1 > MAX_STALLS {
            SendVerdict::GiveUp { cause: GiveUpCause::Stalled }
        } else {
            SendVerdict::Retry
        },
    }
}

/// The attempts to send one batch. Its view is the number of attempts that timed out.
#[derive(Debug)]
pub struct SendAttempts {
    stalls: usize,
}

impl View for SendAttempts {
    type V = int;

    closed spec fn view(&self) -> int {
        self.stalls as int
    }
}

impl SendAttempts {
    /// No attempt has been made.
    pub fn new() -> (attempts: SendAttempts)
        ensures
            attempts@ == 0,
    {
        SendAttempts { stalls: 0 }
    }

    /// Number of attempts that timed out.
    pub fn stalls(&self) -> (count: usize)
        ensures
            count == self@,
    {
        self.stalls
    }

    /// Takes note of what became of an attempt, and says what to do next.
    pub fn record(&mut self, outcome: SendOutcome) -> (verdict: SendVerdict)
        requires
            old(self)@ <= MAX_STALLS,
        ensures
            verdict == verdict_on(old(self)@, outcome),
            verdict is Sent <==> outcome is Delivered,
            verdict is Retry <==> outcome == (SendOutcome::TimedOut { stop_requested: false })
                && old(self)@ < 10,
            final(self)@ == if outcome is TimedOut {
                old(self)@ + 1
            } else {
                old(self)@
            },
    {
        match outcome {
            SendOutcome::Delivered => SendVerdict::Sent,
            SendOutcome::Disconnected => SendVerdict::GiveUp { cause: GiveUpCause::Disconnected },
            SendOutcome::TimedOut { stop_requested } => {
                self.stalls = self.stalls + 1;
                if stop_requested {
                    SendVerdict::GiveUp { cause: GiveUpCause::StopRequested }
                } else if self.stalls > MAX_STALLS {
                    SendVerdict::GiveUp { cause: GiveUpCause::Stalled }
                } else {
                    SendVerdict::Retry
                }
            },
        }
    }
}

/// What became of an attempt: what the channel made of the batch, and, if it stayed full, what the
/// stop signal was read to be afterwards.
pub open spec fn outcome_of(attempt: Offer, stop_requested: bool) -> SendOutcome {
    match attempt {
        Offer::Taken => SendOutcome::Delivered,
        Offer::Disconnected => SendOutcome::Disconnected,
        Offer::Full(_) => SendOutcome::TimedOut { stop_requested },
    }
}

/// What became of each attempt.
pub open spec fn outcomes_of(attempts: Seq<Offer>, readings: Seq<bool>) -> Seq<SendOutcome> {
    Seq::new(attempts.len(), |i: int| outcome_of(attempts[i], readings[i]))
}

/// The use of a port that some attempts to send one batch make: for each, one offer of the batch
/// for [`SEND_POLL_INTERVAL_MS`] milliseconds, and, where the channel stayed full, one reading of
/// the stop signal.
pub open spec fn trace_of(
    attempts: Seq<Offer>,
    readings: Seq<bool>,
    batch: TickBatch,
) -> Seq<SendEvent>
    decreases attempts.len(),
{
    if attempts.len() == 0 {
        Seq::empty()
    } else {
        let offered = trace_of(attempts.drop_last(), readings.drop_last(), batch).push(
            SendEvent::Offered {
                batch,
                timeout_ms: SEND_POLL_INTERVAL_MS,
                attempt: attempts.last(),
            },
        );
        if attempts.last() is Full {
            offered.push(SendEvent::Read { value: readings.last() })
        } else {
            offered
        }
    }
}

/// The use of a port that sending one batch to the end makes: that of its attempts, and, only if
/// the verdict is that the receiver stalled, raising the stop signal.
pub open spec fn full_trace_of(
    attempts: Seq<Offer>,
    readings: Seq<bool>,
    batch: TickBatch,
    verdict: SendVerdict,
) -> Seq<SendEvent> {
    if verdict == (SendVerdict::GiveUp { cause: GiveUpCause::Stalled }) {
        trace_of(attempts, readings, batch).push(SendEvent::Stored { value: true })
    } else {
        trace_of(attempts, readings, batch)
    }
}

/// The outcomes are those of sending one batch to the end: every attempt but the last asked for
/// another, and the last led to `verdict`.
pub open spec fn lead_to(outcomes: Seq<SendOutcome>, verdict: SendVerdict) -> bool {
    &&& outcomes.len() > 0
    &&& still_retrying(outcomes.drop_last())
    &&& verdict == verdict_on(outcomes.len() - 1, outcomes.last())
    &&& verdict !is Retry
}

/// Number of attempts that timed out.
pub open spec fn stalls_in(outcomes: Seq<SendOutcome>) -> int {
    if outcomes.len() > 0 && outcomes.last() !is TimedOut {
        outcomes.len() - 1
    } else {
        outcomes.len() as int
    }
}

/// All attempts to send one batch so far asked for another: attempt `i`, which came after `i`
/// attempts that timed out, was to be retried.
pub open spec fn still_retrying(outcomes: Seq<SendOutcome>) -> bool {
    forall|i: int|
        0 <= i < outcomes.len() ==> verdict_on(i, #[trigger] outcomes[i]) is Retry
}

/// Sending a batch always comes to an end: after at most [`MAX_STALLS`] retries the next attempt
/// is the last, whatever becomes of it. If it times out too, the stop signal is raised, unless it
/// is up already.
pub proof fn sending_always_ends(outcomes: Seq<SendOutcome>, next: SendOutcome)
    requires
        still_retrying(outcomes),
    ensures
        outcomes.len() <= MAX_STALLS,
        outcomes.len() == MAX_STALLS ==> verdict_on(outcomes.len() as int, next) !is Retry,
        outcomes.len() == MAX_STALLS && next == (SendOutcome::TimedOut { stop_requested: false })
            ==> verdict_on(outcomes.len() as int, next) == (SendVerdict::GiveUp {
            cause: GiveUpCause::Stalled,
        }),
{
    if outcomes.len() > MAX_STALLS {
        assert(verdict_on(MAX_STALLS as int, outcomes[MAX_STALLS as int]) is Retry);
    }
}

/// Sending a batch takes at most one attempt more than [`MAX_STALLS`]. It ends at the first attempt
/// that does not time out, and at the first after which the stop signal is up. It ends with the
/// verdict that the receiver stalled exactly if that many attempts timed out, and the stop signal
/// was down after every one of them.
pub proof fn sending_takes_bounded_attempts(outcomes: Seq<SendOutcome>, verdict: SendVerdict)
    requires
        lead_to(outcomes, verdict),
    ensures
        outcomes.len() <= MAX_STALLS + 1,
        forall|i: int|
            0 <= i < outcomes.len() - 1 ==> #[trigger] outcomes[i] == (SendOutcome::TimedOut {
                stop_requested: false,
            }),
        verdict is Sent <==> outcomes.last() is Delivered,
        verdict == (SendVerdict::GiveUp { cause: GiveUpCause::Stalled }) <==> outcomes.len()
            == MAX_STALLS + 1 && forall|i: int|
            0 <= i < outcomes.len() ==> #[trigger] outcomes[i] == (SendOutcome::TimedOut {
                stop_requested: false,
            }),
{
    let earlier = outcomes.drop_last();
    let last = outcomes.len() - 1;
    sending_always_ends(earlier, outcomes.last());
    assert forall|i: int| 0 <= i < last implies #[trigger] outcomes[i] == (SendOutcome::TimedOut {
        stop_requested: false,
    }) by {
        assert(verdict_on(i, earlier[i]) is Retry);
    }
    assert(outcomes[last] == outcomes.last());
}

/// While a batch is being sent, none is taken: attempts that ask for another were all answered with
/// a full channel, and leave the stop signal alone.
proof fn lemma_retries_take_nothing(attempts: Seq<Offer>, readings: Seq<bool>, batch: TickBatch)
    requires
        attempts.len() == readings.len(),
        still_retrying(outcomes_of(attempts, readings)),
    ensures
        taken_in(trace_of(attempts, readings, batch)) == Seq::<TickBatch>::empty(),
        stored_in(trace_of(attempts, readings, batch)) == Seq::<bool>::empty(),
    decreases attempts.len(),
{
    if attempts.len() > 0 {
        let last = attempts.len() - 1;
        let front = attempts.drop_last();
        let outcomes = outcomes_of(attempts, readings);
        assert(verdict_on(last, outcomes[last]) is Retry);
        assert forall|i: int| 0 <= i < front.len() implies verdict_on(
            i,
            #[trigger] outcomes_of(front, readings.drop_last())[i],
        ) is Retry by {
            assert(verdict_on(i, outcomes[i]) is Retry);
        }
        lemma_retries_take_nothing(front, readings.drop_last(), batch);
        lemma_trace_step(attempts, readings, batch);
    }
}

/// What the last attempt adds to what was taken and stored.
proof fn lemma_trace_step(attempts: Seq<Offer>, readings: Seq<bool>, batch: TickBatch)
    requires
        attempts.len() == readings.len(),
        attempts.len() > 0,
    ensures
        ({
            let earlier = trace_of(attempts.drop_last(), readings.drop_last(), batch);
            let trace = trace_of(attempts, readings, batch);
            &&& taken_in(trace) == if attempts.last() is Taken {
                taken_in(earlier).push(batch)
            } else {
                taken_in(earlier)
            }
            &&& stored_in(trace) == stored_in(earlier)
        }),
{
    let earlier = trace_of(attempts.drop_last(), readings.drop_last(), batch);
    let offer = SendEvent::Offered {
        batch,
        timeout_ms: SEND_POLL_INTERVAL_MS,
        attempt: attempts.last(),
    };
    let offered = earlier.push(offer);
    assert(offered.drop_last() =~= earlier);
    assert(taken_in(offered) == if attempts.last() is Taken {
        taken_in(earlier).push(batch)
    } else {
        taken_in(earlier)
    });
    assert(stored_in(offered) == stored_in(earlier));
    if attempts.last() is Full {
        let read = offered.push(SendEvent::Read { value: readings.last() });
        assert(read.drop_last() =~= offered);
        assert(taken_in(read) == taken_in(offered));
        assert(stored_in(read) == stored_in(offered));
    }
}

/// Sending a batch puts it into the channel exactly once if the verdict is that it was sent, and
/// puts nothing into the channel otherwise. It raises the stop signal exactly if the verdict is
/// that the receiver stalled, and never lowers it.
pub proof fn batch_is_taken_once_or_not_at_all(
    attempts: Seq<Offer>,
    readings: Seq<bool>,
    batch: TickBatch,
    verdict: SendVerdict,
)
    requires
        attempts.len() == readings.len(),
        lead_to(outcomes_of(attempts, readings), verdict),
    ensures
        taken_in(full_trace_of(attempts, readings, batch, verdict)) == if verdict is Sent {
            seq![batch]
        } else {
            Seq::empty()
        },
        stored_in(full_trace_of(attempts, readings, batch, verdict)) == if verdict == (
        SendVerdict::GiveUp { cause: GiveUpCause::Stalled }) {
            seq![true]
        } else {
            Seq::empty()
        },
{
    let front = attempts.drop_last();
    let trace = trace_of(attempts, readings, batch);
    assert(outcomes_of(front, readings.drop_last()) =~= outcomes_of(
        attempts,
        readings,
    ).drop_last());
    lemma_retries_take_nothing(front, readings.drop_last(), batch);
    lemma_trace_step(attempts, readings, batch);
    assert(Seq::empty().push(batch) =~= seq![batch]);
    if verdict == (SendVerdict::GiveUp { cause: GiveUpCause::Stalled }) {
        let raised = trace.push(SendEvent::Stored { value: true });
        assert(raised.drop_last() =~= trace);
        assert(stored_in(raised) =~= seq![true]);
        assert(taken_in(raised) == taken_in(trace));
    }
}

/// A retry is asked for only while the receiver is there, the channel is full and nobody wants the
/// generator to stop.
pub proof fn stop_and_disconnect_end_sending(stalls: int, outcome: SendOutcome)
    ensures
        verdict_on(stalls, outcome) is Retry ==> outcome == (SendOutcome::TimedOut {
            stop_requested: false,
        }),
{
}

/// What becomes of an attempt decides what is done: a batch that was delivered is sent, a lost
/// receiver and a raised stop signal end the sending at once and for that cause, and only a full
/// channel is tried again, ten times.
pub proof fn outcome_decides_the_verdict(stalls: int, outcome: SendOutcome)
    ensures
        verdict_on(stalls, outcome) is Sent <==> outcome is Delivered,
        verdict_on(stalls, outcome) is Retry <==> outcome == (SendOutcome::TimedOut {
            stop_requested: false,
        }) && stalls < 10,
        verdict_on(stalls, outcome) == (SendVerdict::GiveUp { cause: GiveUpCause::Disconnected })
            <==> outcome is Disconnected,
        verdict_on(stalls, outcome) == (SendVerdict::GiveUp { cause: GiveUpCause::StopRequested })
            <==> outcome == (SendOutcome::TimedOut { stop_requested: true }),
        verdict_on(stalls, outcome) == (SendVerdict::GiveUp { cause: GiveUpCause::Stalled })
            <==> outcome == (SendOutcome::TimedOut { stop_requested: false }) && stalls >= 10,
{
}

} // verus!
