//! Batches of ticks, and what it means for batches to follow one another.

use std::time::Duration;
use vstd::prelude::*;

use crate::chain::{
    chain_is_determined_by_first_tick, chain_splits_at_shared_tick, corrupted_tick_breaks_chain,
    is_chain, nth_tick, ticks_from,
};
use crate::tick::Tick;

verus! {

/// A contiguous run of ticks. Consecutive batches share one tick, so that every link can be
/// checked, those across batch boundaries included.
#[derive(Debug)]
pub struct TickBatch {
    /// Ticks in chain order; each is the BLAKE3 hash of the previous one, starting from the hashed
    /// seed.
    pub ticks: Vec<Tick>,
    /// Wall-clock time that elapsed while this batch was being filled.
    pub wall_clock_elapsed: Duration,
}

impl TickBatch {
    /// Number of ticks in the batch.
    pub fn len(&self) -> (count: usize)
        ensures
            count == self.ticks@.len(),
    {
        self.ticks.len()
    }

    /// `true` if the batch holds no ticks. The generator never sends one.
    pub fn is_empty(&self) -> (empty: bool)
        ensures
            empty == (self.ticks@.len() == 0),
    {
        self.ticks.is_empty()
    }

    /// Number of hash links, that is one less than the number of ticks, or 0 for fewer than two
    /// ticks.
    pub fn link_count(&self) -> (links: usize)
        ensures
            links == links_in(self.ticks@),
            self.ticks@.len() == 0 ==> links == 0,
            self.ticks@.len() > 0 ==> links + 1 == self.ticks@.len(),
    {
        self.ticks.len().saturating_sub(1)
    }

    /// First tick, if any.
    pub fn first_tick(&self) -> (first: Option<&Tick>)
        ensures
            first == if self.ticks@.len() > 0 {
                Some(&self.ticks@[0])
            } else {
                None
            },
    {
        self.ticks.first()
    }
}

impl Clone for TickBatch {
    fn clone(&self) -> (copy: TickBatch)
        ensures
            copy.ticks@ == self.ticks@,
            copy.wall_clock_elapsed == self.wall_clock_elapsed,
    {
        TickBatch { ticks: self.ticks.clone(), wall_clock_elapsed: self.wall_clock_elapsed }
    }
}

/// Number of hash links between the ticks of one run.
pub open spec fn links_in(ticks: Seq<Tick>) -> nat {
    if ticks.len() == 0 {
        0
    } else {
        (ticks.len() - 1) as nat
    }
}

/// `next` starts with the tick that `previous` ends with. A batch without ticks has neither a
/// first nor a last tick, and is followed only by another such batch.
pub open spec fn follows(previous: TickBatch, next: TickBatch) -> bool {
    if previous.ticks@.len() == 0 {
        next.ticks@.len() == 0
    } else {
        next.ticks@.len() > 0 && next.ticks@.first()@ == previous.ticks@.last()@
    }
}

/// Batch `k` starts with the last tick of the batch before it.
pub open spec fn continues(batches: Seq<TickBatch>, k: int) -> bool {
    follows(batches[k - 1], batches[k])
}

/// Every batch but the first starts with the last tick of the batch before it.
pub open spec fn in_sequence(batches: Seq<TickBatch>) -> bool {
    forall|k: int| 0 < k < batches.len() ==> #[trigger] continues(batches, k)
}

/// The ticks of all batches in order, without the first tick of every batch after the first,
/// which repeats the last tick of the batch before.
pub open spec fn joined(batches: Seq<TickBatch>) -> Seq<Tick>
    decreases batches.len(),
{
    if batches.len() == 0 {
        Seq::empty()
    } else if batches.len() == 1 {
        batches[0].ticks@
    } else {
        joined(batches.drop_last()) + batches.last().ticks@.skip(1)
    }
}

/// There are fewer than two batches, or some batch holds a tick. Two or more batches without a
/// single tick between them have no overlap to join at.
pub open spec fn can_be_joined(batches: Seq<TickBatch>) -> bool {
    batches.len() < 2 || exists|k: int|
        0 <= k < batches.len() && (#[trigger] batches[k]).ticks@.len() > 0
}

/// The batches are in sequence and together form one unbroken chain.
pub open spec fn is_chain_of_batches(batches: Seq<TickBatch>) -> bool {
    in_sequence(batches) && is_chain(joined(batches))
}

/// Number of hash links in the batches taken one by one.
pub open spec fn links_in_batches(batches: Seq<TickBatch>) -> nat
    decreases batches.len(),
{
    if batches.len() == 0 {
        0
    } else {
        links_in_batches(batches.drop_last()) + links_in(batches.last().ticks@)
    }
}

/// Of batches in sequence, either every one holds a tick or none does.
pub proof fn sequence_is_all_empty_or_all_filled(batches: Seq<TickBatch>, j: int, k: int)
    requires
        in_sequence(batches),
        0 <= j < batches.len(),
        0 <= k < batches.len(),
    ensures
        batches[j].ticks@.len() == 0 <==> batches[k].ticks@.len() == 0,
    decreases
            if j < k {
                k - j
            } else {
                j - k
            },
{
    if j < k {
        assert(continues(batches, k));
        sequence_is_all_empty_or_all_filled(batches, j, k - 1);
    } else if k < j {
        assert(continues(batches, j));
        sequence_is_all_empty_or_all_filled(batches, j - 1, k);
    }
}

/// The batches that start a sequence are a sequence.
pub proof fn sequence_prefix_is_sequence(batches: Seq<TickBatch>, count: int)
    requires
        in_sequence(batches),
        0 <= count <= batches.len(),
    ensures
        in_sequence(batches.take(count)),
{
    let prefix = batches.take(count);
    assert forall|k: int| 0 < k < prefix.len() implies #[trigger] continues(prefix, k) by {
        assert(continues(batches, k));
    }
}

/// Joining batches in sequence keeps the first tick of the first batch and the last tick of the
/// last, and counts every link once.
pub proof fn joined_ends_and_length(batches: Seq<TickBatch>)
    requires
        in_sequence(batches),
        batches.len() > 0,
        batches[0].ticks@.len() > 0,
    ensures
        joined(batches).len() == links_in_batches(batches) + 1,
        joined(batches).first() == batches.first().ticks@.first(),
        joined(batches).last()@ == batches.last().ticks@.last()@,
    decreases batches.len(),
{
    sequence_is_all_empty_or_all_filled(batches, 0, batches.len() - 1);
    if batches.len() == 1 {
        assert(links_in_batches(batches.drop_last()) == 0);
    } else {
        let front = batches.drop_last();
        assert(front =~= batches.take(batches.len() - 1));
        sequence_prefix_is_sequence(batches, batches.len() - 1);
        joined_ends_and_length(front);
        assert(continues(batches, batches.len() - 1));
    }
}

/// Joining batches in sequence loses no tick: tick `i` of batch `k` stands behind as many ticks
/// as the batches before `k` have links, and `i` more.
pub proof fn joined_holds_every_tick(batches: Seq<TickBatch>, k: int, i: int)
    requires
        in_sequence(batches),
        0 <= k < batches.len(),
        0 <= i < batches[k].ticks@.len(),
    ensures
        links_in_batches(batches.take(k)) + i < joined(batches).len(),
        joined(batches)[links_in_batches(batches.take(k)) + i]@ == batches[k].ticks@[i]@,
    decreases batches.len(),
{
    sequence_is_all_empty_or_all_filled(batches, k, 0);
    joined_ends_and_length(batches);
    let front = batches.drop_last();
    assert(front =~= batches.take(batches.len() - 1));
    sequence_prefix_is_sequence(batches, batches.len() - 1);
    if k < batches.len() - 1 {
        assert(front.take(k) =~= batches.take(k));
        joined_holds_every_tick(front, k, i);
    } else if k == 0 {
        assert(links_in_batches(batches.take(0)) == 0);
    } else {
        joined_ends_and_length(front);
        assert(continues(batches, k));
        if i == 0 {
            assert(joined(batches)[links_in_batches(front) as int] == joined(front).last());
        }
    }
}

/// Batches in sequence, if they hold a tick, form one unbroken chain if and only if each of them
/// is a chain: with the tick that neighbours share, no link is left out between them.
pub proof fn chain_of_batches_is_batchwise(batches: Seq<TickBatch>)
    requires
        in_sequence(batches),
        batches.len() > 0 ==> batches[0].ticks@.len() > 0,
    ensures
        is_chain(joined(batches)) <==> (forall|k: int|
            0 <= k < batches.len() ==> is_chain((#[trigger] batches[k]).ticks@)),
    decreases batches.len(),
{
    if batches.len() == 1 {
        assert(joined(batches) == batches[0].ticks@);
    } else if batches.len() > 1 {
        let front = batches.drop_last();
        let last = batches.len() - 1;
        assert(front =~= batches.take(last));
        sequence_prefix_is_sequence(batches, last);
        chain_of_batches_is_batchwise(front);
        assert(continues(batches, last));
        sequence_is_all_empty_or_all_filled(batches, 0, last);
        joined_ends_and_length(front);
        chain_splits_at_shared_tick(joined(front), batches[last].ticks@);
        assert(is_chain(joined(batches)) <==> is_chain(joined(front)) && is_chain(
            batches[last].ticks@,
        ));
        assert forall|k: int| 0 <= k < last implies front[k] == #[trigger] batches[k] by {}
        if is_chain(joined(batches)) {
            assert forall|k: int| 0 <= k < batches.len() implies is_chain(
                (#[trigger] batches[k]).ticks@,
            ) by {
                if k < last {
                    assert(is_chain(front[k].ticks@));
                }
            }
        } else if is_chain(batches[last].ticks@) {
            let k = choose|k: int| 0 <= k < front.len() && !is_chain((#[trigger] front[k]).ticks@);
            assert(!is_chain(batches[k].ticks@));
        }
    }
}

/// What an accepted set of batches proves: they are the chain that their first tick starts, from
/// that tick on, so that their last tick took one hash operation for every link in them.
pub proof fn accepted_batches_are_the_chain(batches: Seq<TickBatch>)
    requires
        is_chain_of_batches(batches),
        batches.len() > 0,
        batches[0].ticks@.len() > 0,
    ensures
        ticks_from(batches[0].ticks@[0]@, 0, joined(batches)),
        batches.last().ticks@.last()@ == nth_tick(
            batches[0].ticks@[0]@,
            links_in_batches(batches),
        ),
{
    joined_ends_and_length(batches);
    let ticks = joined(batches);
    chain_is_determined_by_first_tick(ticks);
    assert(ticks[ticks.len() - 1]@ == nth_tick(ticks[0]@, (0 + (ticks.len() - 1)) as nat));
}

/// Accepted batches are rejected once any tick of theirs, but the first of all, is replaced by a
/// different one.
pub proof fn corrupted_batch_is_rejected(
    batches: Seq<TickBatch>,
    k: int,
    i: int,
    other: Tick,
    corrupted: TickBatch,
)
    requires
        is_chain_of_batches(batches),
        0 <= k < batches.len(),
        0 <= i < batches[k].ticks@.len(),
        k > 0 || i > 0,
        other@ != batches[k].ticks@[i]@,
        corrupted.ticks@ == batches[k].ticks@.update(i, other),
    ensures
        !is_chain_of_batches(batches.update(k, corrupted)),
{
    let changed = batches.update(k, corrupted);
    sequence_is_all_empty_or_all_filled(batches, k, 0);
    chain_of_batches_is_batchwise(batches);
    if i == 0 {
        assert(continues(batches, k));
        assert(!continues(changed, k));
    } else if in_sequence(changed) {
        corrupted_tick_breaks_chain(batches[k].ticks@, i, other);
        chain_of_batches_is_batchwise(changed);
        assert(!is_chain(changed[k].ticks@));
    }
}

/// One batch is accepted exactly if its ticks are a chain; no batch at all is accepted.
pub proof fn single_batch_is_accepted_if_chain(batch: TickBatch)
    ensures
        is_chain_of_batches(Seq::empty()),
        is_chain_of_batches(seq![batch]) <==> is_chain(batch.ticks@),
        joined(seq![batch]) == batch.ticks@,
{
    assert(joined(Seq::<TickBatch>::empty()) =~= Seq::empty());
}

/// One more batch is accepted after others exactly if these are accepted, it starts with the very
/// tick that the last of them ends with, and its ticks are a chain. Nothing else about it matters,
/// such as how long it is.
pub proof fn one_more_batch_is_accepted_if_it_links_up(batches: Seq<TickBatch>, next: TickBatch)
    requires
        batches.len() > 0,
        batches.last().ticks@.len() > 0,
    ensures
        is_chain_of_batches(batches.push(next)) <==> {
            &&& is_chain_of_batches(batches)
            &&& next.ticks@.len() > 0
            &&& next.ticks@[0]@ == batches.last().ticks@.last()@
            &&& is_chain(next.ticks@)
        },
        next.ticks@.len() > 0 ==> joined(batches.push(next)) == joined(batches)
            + next.ticks@.subrange(1, next.ticks@.len() as int),
{
    let longer = batches.push(next);
    let last = batches.len() as int;
    assert(longer.drop_last() =~= batches);
    assert(longer.take(last) =~= batches);
    assert(next.ticks@.skip(1) =~= next.ticks@.subrange(1, next.ticks@.len() as int));
    assert(continues(longer, last) <==> next.ticks@.len() > 0 && next.ticks@[0]@
        == batches.last().ticks@.last()@);
    if in_sequence(longer) {
        sequence_prefix_is_sequence(longer, last);
    }
    if in_sequence(batches) && continues(longer, last) {
        assert forall|k: int| 0 < k < longer.len() implies #[trigger] continues(longer, k) by {
            if k < last {
                assert(continues(batches, k));
            }
        }
        sequence_is_all_empty_or_all_filled(batches, last - 1, 0);
        joined_ends_and_length(batches);
        chain_splits_at_shared_tick(joined(batches), next.ticks@);
    }
}

/// A batch with ticks after one without is out of sequence.
pub proof fn nothing_follows_an_empty_batch(batches: Seq<TickBatch>, next: TickBatch)
    requires
        batches.len() > 0,
        batches.last().ticks@.len() == 0,
        next.ticks@.len() > 0,
    ensures
        !is_chain_of_batches(batches.push(next)),
        !in_sequence(batches.push(next)),
{
    assert(!continues(batches.push(next), batches.len() as int));
}

/// Two batches with ticks are accepted together, whatever their lengths, exactly if each is a chain
/// and the second starts with the tick that the first ends with.
pub proof fn two_batches_are_accepted_if_they_link_up(previous: TickBatch, next: TickBatch)
    requires
        previous.ticks@.len() > 0,
        next.ticks@.len() > 0,
    ensures
        is_chain_of_batches(seq![previous, next]) <==> is_chain(previous.ticks@) && is_chain(
            next.ticks@,
        ) && previous.ticks@.last()@ == next.ticks@.first()@,
        in_sequence(seq![previous, next]) <==> previous.ticks@.last()@ == next.ticks@.first()@,
{
    single_batch_is_accepted_if_chain(previous);
    one_more_batch_is_accepted_if_it_links_up(seq![previous], next);
    assert(seq![previous].push(next) =~= seq![previous, next]);
    let both = seq![previous, next];
    assert(continues(both, 1) <==> previous.ticks@.last()@ == next.ticks@.first()@);
    assert(in_sequence(both) ==> continues(both, 1));
}

/// The batches are `ticks` cut at the given points: batch `k` holds the ticks from point `k` up to
/// and with point `k + 1`, and the points lead from the first tick to the last.
pub open spec fn is_cut_of(batches: Seq<TickBatch>, ticks: Seq<Tick>, points: Seq<int>) -> bool {
    &&& batches.len() > 0
    &&& points.len() == batches.len() + 1
    &&& points[0] == 0
    &&& points.last() == ticks.len() - 1
    &&& forall|j: int, k: int|
        0 <= j <= k < points.len() ==> #[trigger] points[j] <= #[trigger] points[k]
    &&& forall|k: int|
        0 <= k < batches.len() ==> (#[trigger] batches[k]).ticks@ == ticks.subrange(
            points[k],
            points[k + 1] + 1,
        )
}

/// However ticks are cut into batches that overlap by one tick, long or short, joining them gives
/// the ticks back, and the batches are accepted exactly if the ticks are a chain.
pub proof fn any_cut_of_a_chain_is_accepted(
    batches: Seq<TickBatch>,
    ticks: Seq<Tick>,
    points: Seq<int>,
)
    requires
        is_cut_of(batches, ticks, points),
    ensures
        can_be_joined(batches),
        in_sequence(batches),
        joined(batches) == ticks,
        is_chain_of_batches(batches) <==> is_chain(ticks),
{
    let end = batches.len() as int;
    assert(points[0] <= points[end]);
    assert(points[0] <= points[1] <= points[end]);
    assert(batches[0].ticks@.len() > 0);
    assert forall|k: int| 0 < k < end implies #[trigger] continues(batches, k) by {
        assert(0 <= points[0] <= points[k - 1] <= points[k] <= points[k + 1] <= points[end]);
        assert(batches[k - 1].ticks@.last() == ticks[points[k]]);
        assert(batches[k].ticks@.first() == ticks[points[k]]);
    }
    lemma_cut_joins(batches, ticks, points, end);
    assert(batches.take(end) =~= batches);
    assert(ticks.subrange(0, points[end] + 1) =~= ticks);
}

proof fn lemma_cut_joins(
    batches: Seq<TickBatch>,
    ticks: Seq<Tick>,
    points: Seq<int>,
    count: int,
)
    requires
        is_cut_of(batches, ticks, points),
        1 <= count <= batches.len(),
    ensures
        joined(batches.take(count)) == ticks.subrange(0, points[count] + 1),
    decreases count,
{
    let end = batches.len() as int;
    let part = batches.take(count);
    assert(0 <= points[0] <= points[count - 1] <= points[count] <= points[end]);
    if count == 1 {
        assert(joined(part) == batches[0].ticks@);
    } else {
        lemma_cut_joins(batches, ticks, points, count - 1);
        assert(part.drop_last() =~= batches.take(count - 1));
        assert(part.last() == batches[count - 1]);
        assert(ticks.subrange(0, points[count - 1] + 1) + ticks.subrange(
            points[count - 1],
            points[count] + 1,
        ).skip(1) =~= ticks.subrange(0, points[count] + 1));
    }
}

/// Batches can be joined if one of them holds a tick, or there are fewer than two, and in no other
/// case.
pub proof fn batches_with_a_tick_can_be_joined(batches: Seq<TickBatch>, k: int)
    ensures
        batches.len() < 2 ==> can_be_joined(batches),
        0 <= k < batches.len() && batches[k].ticks@.len() > 0 ==> can_be_joined(batches),
        can_be_joined(batches) && batches.len() >= 2 ==> exists|j: int|
            0 <= j < batches.len() && (#[trigger] batches[j]).ticks@.len() > 0,
{
}

/// The links of batches are counted one batch after another: a batch adds one link for each of its
/// ticks but one.
pub proof fn links_are_counted_per_batch(batches: Seq<TickBatch>, next: TickBatch)
    ensures
        links_in_batches(Seq::empty()) == 0,
        next.ticks@.len() > 0 ==> links_in_batches(batches.push(next)) == links_in_batches(batches)
            + next.ticks@.len() - 1,
        next.ticks@.len() == 0 ==> links_in_batches(batches.push(next)) == links_in_batches(
            batches,
        ),
{
    assert(batches.push(next).drop_last() =~= batches);
}

} // verus!
