//! The sending end of the channel, with the list of the calls made on it.
//!
//! A [`ChannelEnd`] can be made only from a channel, and neither copied nor taken apart: its field
//! is private, and this file has no other way in. Sending asks for the end itself, by mutable
//! reference, and adds to its list. So a call that is not on the list cannot be made, by anyone who
//! holds an end: not to make a further call is to leave the list as it is.

use crossbeam_channel::{SendTimeoutError, Sender};
use std::time::Duration;
use vstd::prelude::*;

use crate::batch::TickBatch;
use crate::port::Offer;

verus! {

/// One call of `Sender::send_timeout`: what was offered, for how long, and with what result.
pub struct OfferCall {
    pub batch: TickBatch,
    pub timeout_ms: u64,
    pub attempt: Offer,
}

/// The sending end of a channel.
pub struct ChannelEnd<'a> {
    sender: &'a Sender<TickBatch>,
    made: Ghost<Seq<OfferCall>>,
}

impl<'a> ChannelEnd<'a> {
    /// The channel.
    pub closed spec fn target(&self) -> &'a Sender<TickBatch> {
        self.sender
    }

    /// The calls of `Sender::send_timeout` that were made through this end, in order.
    pub closed spec fn calls(&self) -> Seq<OfferCall> {
        self.made@
    }

    /// The end of the given channel through which no call has been made. Making it makes none: a
    /// call may unwind, and this does not.
    pub fn new(sender: &'a Sender<TickBatch>) -> (end: ChannelEnd<'a>)
        ensures
            end.target() == sender,
            end.calls() == Seq::<OfferCall>::empty(),
        opens_invariants none
        no_unwind
    {
        ChannelEnd { sender, made: Ghost(Seq::empty()) }
    }
}

/// Calls `Sender::send_timeout`, once. It waits for room in the channel, but no longer than
/// `timeout_ms` milliseconds. The contract says that the call is added to those made through the
/// end, with its arguments and its result, and that a batch which comes back because the time was
/// up is the batch that was offered. Which of the three results comes about depends on the receiver
/// and on time, and is left open.
#[verifier::external_body]
pub(crate) fn send_timeout(
    end: &mut ChannelEnd<'_>,
    batch: TickBatch,
    timeout_ms: u64,
) -> (attempt: Offer)
    ensures
        final(end).target() == old(end).target(),
        final(end).calls() == old(end).calls().push(OfferCall { batch, timeout_ms, attempt }),
        attempt matches Offer::Full(unsent) ==> unsent == batch,
{
    match end.sender.send_timeout(batch, Duration::from_millis(timeout_ms)) {
        Ok(()) => Offer::Taken,
        Err(SendTimeoutError::Disconnected(_)) => Offer::Disconnected,
        Err(SendTimeoutError::Timeout(unsent)) => Offer::Full(unsent),
    }
}

} // verus!
