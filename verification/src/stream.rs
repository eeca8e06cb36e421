//! The batches that a generator ships, and why a verifier accepts them.

use vstd::prelude::*;

use crate::batch::{
    can_be_joined, chain_of_batches_is_batchwise, continues, in_sequence, is_chain_of_batches,
    joined, joined_ends_and_length, links_in_batches, TickBatch,
};
use crate::chain::{
    chain_is_determined_by_first_tick, is_chain, lemma_ticks_from_is_chain, nth_tick, ticks_from,
};

verus! {

/// Position in the chain of the first tick of batch `k`, when every batch before it holds
/// `capacity` ticks and shares the last of them with the next.
pub open spec fn batch_start(capacity: nat, k: int) -> nat {
    (k * (capacity - 1)) as nat
}

/// Batch `k` holds ticks of the chain from `genesis`, starting where the batch before it ended. It
/// has at least one link and at most `capacity` ticks, and exactly as many if it is not the last.
pub open spec fn is_stream_batch(
    genesis: Seq<u8>,
    capacity: nat,
    batches: Seq<TickBatch>,
    k: int,
) -> bool {
    &&& 2 <= batches[k].ticks@.len() <= capacity
    &&& k < batches.len() - 1 ==> batches[k].ticks@.len() == capacity
    &&& ticks_from(genesis, batch_start(capacity, k), batches[k].ticks@)
}

/// The batches are the chain from `genesis`, cut into pieces of `capacity` ticks.
pub open spec fn is_stream(genesis: Seq<u8>, capacity: nat, batches: Seq<TickBatch>) -> bool {
    forall|k: int|
        0 <= k < batches.len() ==> #[trigger] is_stream_batch(genesis, capacity, batches, k)
}

/// Every batch holds `capacity` ticks.
pub open spec fn all_full(capacity: nat, batches: Seq<TickBatch>) -> bool {
    forall|k: int| 0 <= k < batches.len() ==> (#[trigger] batches[k]).ticks@.len() == capacity
}

/// The batches that start a stream are a stream: a receiver that misses the end has no less of a
/// chain.
pub proof fn stream_prefix_is_stream(
    genesis: Seq<u8>,
    capacity: nat,
    batches: Seq<TickBatch>,
    count: int,
)
    requires
        is_stream(genesis, capacity, batches),
        0 <= count <= batches.len(),
    ensures
        is_stream(genesis, capacity, batches.take(count)),
{
    let prefix = batches.take(count);
    assert forall|k: int| 0 <= k < prefix.len() implies #[trigger] is_stream_batch(
        genesis,
        capacity,
        prefix,
        k,
    ) by {
        assert(is_stream_batch(genesis, capacity, batches, k));
    }
}

proof fn lemma_batch_start_step(capacity: nat, k: int)
    requires
        capacity >= 1,
        k >= 0,
    ensures
        batch_start(capacity, 0) == 0,
        batch_start(capacity, k + 1) == batch_start(capacity, k) + (capacity - 1),
{
    assert(k * (capacity - 1) >= 0 && (k + 1) * (capacity - 1) == k * (capacity - 1) + (capacity
        - 1)) by (nonlinear_arith)
        requires
            capacity >= 1,
            k >= 0,
    ;
}

/// Consecutive batches of a stream overlap by one tick.
pub proof fn stream_is_in_sequence(genesis: Seq<u8>, capacity: nat, batches: Seq<TickBatch>)
    requires
        is_stream(genesis, capacity, batches),
    ensures
        in_sequence(batches),
{
    assert forall|k: int| 0 < k < batches.len() implies #[trigger] continues(batches, k) by {
        assert(is_stream_batch(genesis, capacity, batches, k - 1));
        assert(is_stream_batch(genesis, capacity, batches, k));
        lemma_batch_start_step(capacity, k - 1);
        let previous = batches[k - 1].ticks@;
        let next = batches[k].ticks@;
        assert(previous[capacity - 1]@ == nth_tick(
            genesis,
            (batch_start(capacity, k - 1) + (capacity - 1)) as nat,
        ));
        assert(next[0]@ == nth_tick(genesis, (batch_start(capacity, k) + 0) as nat));
    }
}

/// Whatever a generator ships, a verifier accepts: a stream is in sequence and forms one unbroken
/// chain, and that chain starts at the genesis tick.
pub proof fn stream_is_accepted(genesis: Seq<u8>, capacity: nat, batches: Seq<TickBatch>)
    requires
        is_stream(genesis, capacity, batches),
    ensures
        can_be_joined(batches),
        is_chain_of_batches(batches),
        batches.len() > 0 ==> batches[0].ticks@[0]@ == genesis,
{
    stream_is_in_sequence(genesis, capacity, batches);
    if batches.len() > 0 {
        assert(is_stream_batch(genesis, capacity, batches, 0));
        lemma_batch_start_step(capacity, 0);
        assert(batches[0].ticks@[0]@ == nth_tick(genesis, (batch_start(capacity, 0) + 0) as nat));
    }
    assert forall|k: int| 0 <= k < batches.len() implies is_chain(
        (#[trigger] batches[k]).ticks@,
    ) by {
        assert(is_stream_batch(genesis, capacity, batches, k));
        lemma_ticks_from_is_chain(genesis, batch_start(capacity, k), batches[k].ticks@);
    }
    chain_of_batches_is_batchwise(batches);
}

/// Joined again, a stream is the chain that `genesis` starts, from its first tick on: how it was
/// cut into batches leaves no trace.
pub proof fn stream_joins_to_the_chain(genesis: Seq<u8>, capacity: nat, batches: Seq<TickBatch>)
    requires
        is_stream(genesis, capacity, batches),
    ensures
        ticks_from(genesis, 0, joined(batches)),
{
    stream_is_accepted(genesis, capacity, batches);
    if batches.len() > 0 {
        assert(is_stream_batch(genesis, capacity, batches, 0));
        joined_ends_and_length(batches);
        chain_is_determined_by_first_tick(joined(batches));
    }
}

/// A stream of full batches has as many links as its batches have together.
pub proof fn full_stream_links(genesis: Seq<u8>, capacity: nat, batches: Seq<TickBatch>)
    requires
        is_stream(genesis, capacity, batches),
        all_full(capacity, batches),
    ensures
        links_in_batches(batches) == batch_start(capacity, batches.len() as int),
    decreases batches.len(),
{
    if batches.len() == 0 {
        assert(batch_start(capacity, 0) == 0) by (nonlinear_arith);
    } else {
        let last = batches.len() - 1;
        let front = batches.drop_last();
        assert(is_stream_batch(genesis, capacity, batches, last));
        assert(front =~= batches.take(last));
        stream_prefix_is_stream(genesis, capacity, batches, last);
        assert forall|k: int| 0 <= k < front.len() implies (#[trigger] front[k]).ticks@.len()
            == capacity by {
            assert(batches[k].ticks@.len() == capacity);
        }
        full_stream_links(genesis, capacity, front);
        lemma_batch_start_step(capacity, last);
        assert(batches[last].ticks@.len() == capacity);
    }
}

/// Shipping one more batch, when all shipped so far are full, continues the stream.
pub proof fn stream_continues(
    genesis: Seq<u8>,
    capacity: nat,
    batches: Seq<TickBatch>,
    batch: TickBatch,
)
    requires
        is_stream(genesis, capacity, batches),
        all_full(capacity, batches),
        2 <= batch.ticks@.len() <= capacity,
        ticks_from(genesis, batch_start(capacity, batches.len() as int), batch.ticks@),
    ensures
        is_stream(genesis, capacity, batches.push(batch)),
        batch.ticks@.len() == capacity ==> {
            &&& all_full(capacity, batches.push(batch))
            &&& ticks_from(
                genesis,
                batch_start(capacity, batches.len() as int + 1),
                seq![batch.ticks@.last()],
            )
        },
{
    let longer = batches.push(batch);
    assert forall|k: int| 0 <= k < longer.len() implies #[trigger] is_stream_batch(
        genesis,
        capacity,
        longer,
        k,
    ) by {
        if k < batches.len() {
            assert(is_stream_batch(genesis, capacity, batches, k));
            assert(batches[k].ticks@.len() == capacity);
        }
    }
    lemma_batch_start_step(capacity, batches.len() as int);
    if batch.ticks@.len() == capacity {
        assert forall|k: int| 0 <= k < longer.len() implies (#[trigger] longer[k]).ticks@.len()
            == capacity by {
            if k < batches.len() {
                assert(batches[k].ticks@.len() == capacity);
            }
        }
        assert(batch.ticks@[capacity - 1]@ == nth_tick(
            genesis,
            (batch_start(capacity, batches.len() as int) + (capacity - 1)) as nat,
        ));
    }
}

} // verus!
