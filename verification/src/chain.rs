//! What it means for ticks to form a hash chain, and the laws of such chains.

use vstd::prelude::*;

use crate::tick::{blake3_digest, Tick};

verus! {

/// Tick `i` is the hash of the tick before it.
pub open spec fn linked(ticks: Seq<Tick>, i: int) -> bool {
    ticks[i]@ == blake3_digest(ticks[i - 1]@)
}

/// Every tick but the first is the hash of the tick before it.
pub open spec fn is_chain(ticks: Seq<Tick>) -> bool {
    forall|i: int| 0 < i < ticks.len() ==> #[trigger] linked(ticks, i)
}

/// The bytes that `n` hash operations make of `genesis`.
pub open spec fn nth_tick(genesis: Seq<u8>, n: nat) -> Seq<u8>
    decreases n,
{
    if n == 0 {
        genesis
    } else {
        blake3_digest(nth_tick(genesis, (n - 1) as nat))
    }
}

/// The ticks are those that the chain from `genesis` holds from position `start` on.
pub open spec fn ticks_from(genesis: Seq<u8>, start: nat, ticks: Seq<Tick>) -> bool {
    forall|i: int|
        0 <= i < ticks.len() ==> (#[trigger] ticks[i])@ == nth_tick(genesis, (start + i) as nat)
}

/// A chain grows by hashing: no ticks are a chain, and ticks with one more are a chain exactly if
/// they were one before and the new tick is the hash of the last, or there was none. Length and
/// content play no other part.
pub proof fn chain_grows_by_hashing(ticks: Seq<Tick>, next: Tick)
    ensures
        is_chain(Seq::empty()),
        is_chain(ticks.push(next)) <==> is_chain(ticks) && (ticks.len() > 0 ==> next@
            == blake3_digest(ticks.last()@)),
{
    let longer = ticks.push(next);
    let end = ticks.len() as int;
    if is_chain(longer) {
        assert forall|i: int| 0 < i < ticks.len() implies #[trigger] linked(ticks, i) by {
            assert(linked(longer, i));
        }
        assert(end > 0 ==> linked(longer, end));
    }
    if is_chain(ticks) && (ticks.len() > 0 ==> next@ == blake3_digest(ticks.last()@)) {
        assert forall|i: int| 0 < i < longer.len() implies #[trigger] linked(longer, i) by {
            if i < end {
                assert(linked(ticks, i));
            }
        }
    }
}

/// Ticks are a chain exactly if every one of them hashes to the one after it.
pub proof fn chain_links_neighbours(ticks: Seq<Tick>)
    ensures
        is_chain(ticks) <==> forall|i: int|
            #![trigger ticks[i]]
            0 <= i && i + 1 < ticks.len() ==> ticks[i + 1]@ == blake3_digest(ticks[i]@),
{
    if is_chain(ticks) {
        assert forall|i: int|
            #![trigger ticks[i]]
            0 <= i && i + 1 < ticks.len() implies ticks[i + 1]@ == blake3_digest(ticks[i]@) by {
            assert(linked(ticks, i + 1));
        }
    }
    if forall|i: int|
        #![trigger ticks[i]]
        0 <= i && i + 1 < ticks.len() ==> ticks[i + 1]@ == blake3_digest(ticks[i]@) {
        assert forall|i: int| 0 < i < ticks.len() implies #[trigger] linked(ticks, i) by {
            let before = ticks[i - 1];
            assert(ticks[(i - 1) + 1]@ == blake3_digest(before@));
        }
    }
}

/// Tick `n` of a chain is `n` hash operations away from the first: none for the first, and one more
/// for each that follows.
pub proof fn each_tick_is_one_hash_further(genesis: Seq<u8>, n: nat)
    ensures
        nth_tick(genesis, 0) == genesis,
        nth_tick(genesis, n + 1) == blake3_digest(nth_tick(genesis, n)),
{
}

/// The ticks from position `start` on begin with the tick at that position, and go on as the chain
/// does.
pub proof fn ticks_from_are_consecutive(genesis: Seq<u8>, start: nat, ticks: Seq<Tick>)
    ensures
        ticks.len() > 0 ==> (ticks_from(genesis, start, ticks) <==> ticks[0]@ == nth_tick(
            genesis,
            start,
        ) && is_chain(ticks)),
    decreases ticks.len(),
{
    if ticks.len() > 0 {
        if ticks_from(genesis, start, ticks) {
            assert(ticks[0]@ == nth_tick(genesis, (start + 0) as nat));
            lemma_ticks_from_is_chain(genesis, start, ticks);
        }
        if ticks[0]@ == nth_tick(genesis, start) && is_chain(ticks) && ticks.len() > 1 {
            let front = ticks.drop_last();
            let last = ticks.len() - 1;
            assert(front =~= ticks.subrange(0, last));
            part_of_chain_is_chain(ticks, 0, last);
            ticks_from_are_consecutive(genesis, start, front);
            assert forall|i: int| 0 <= i < ticks.len() implies (#[trigger] ticks[i])@ == nth_tick(
                genesis,
                (start + i) as nat,
            ) by {
                if i < last {
                    assert(front[i]@ == nth_tick(genesis, (start + i) as nat));
                } else {
                    assert(linked(ticks, last));
                    assert(front[last - 1]@ == nth_tick(genesis, (start + (last - 1)) as nat));
                }
            }
        }
    }
}

/// Fewer than two ticks are trivially a chain.
pub proof fn short_chains_are_valid(ticks: Seq<Tick>)
    requires
        ticks.len() < 2,
    ensures
        is_chain(ticks),
{
}

/// A chain is determined by its first tick: nonempty ticks are a chain if and only if tick `n` is
/// what `n` hash operations make of the first. No tick can be reached in any other way.
pub proof fn chain_is_determined_by_first_tick(ticks: Seq<Tick>)
    requires
        ticks.len() > 0,
    ensures
        is_chain(ticks) <==> ticks_from(ticks[0]@, 0, ticks),
{
    let genesis = ticks[0]@;
    if is_chain(ticks) {
        assert forall|i: int| 0 <= i < ticks.len() implies (#[trigger] ticks[i])@ == nth_tick(
            genesis,
            (0 + i) as nat,
        ) by {
            lemma_tick_at(ticks, i as nat);
        }
    }
    if ticks_from(genesis, 0, ticks) {
        lemma_ticks_from_is_chain(genesis, 0, ticks);
    }
}

proof fn lemma_tick_at(ticks: Seq<Tick>, n: nat)
    requires
        is_chain(ticks),
        n < ticks.len(),
    ensures
        ticks[n as int]@ == nth_tick(ticks[0]@, n),
    decreases n,
{
    if n > 0 {
        lemma_tick_at(ticks, (n - 1) as nat);
        assert(linked(ticks, n as int));
    }
}

/// Consecutive ticks of the chain from `genesis` are a chain, wherever they start.
pub proof fn lemma_ticks_from_is_chain(genesis: Seq<u8>, start: nat, ticks: Seq<Tick>)
    requires
        ticks_from(genesis, start, ticks),
    ensures
        is_chain(ticks),
{
    assert forall|i: int| 0 < i < ticks.len() implies #[trigger] linked(ticks, i) by {
        assert(ticks[i]@ == nth_tick(genesis, (start + i) as nat));
        assert(ticks[i - 1]@ == nth_tick(genesis, (start + (i - 1)) as nat));
    }
}

/// Two chains with the same first tick agree on every tick that both hold.
pub proof fn chains_with_one_genesis_agree(left: Seq<Tick>, right: Seq<Tick>, i: int)
    requires
        is_chain(left),
        is_chain(right),
        left.len() > 0,
        right.len() > 0,
        left[0]@ == right[0]@,
        0 <= i < left.len(),
        i < right.len(),
    ensures
        left[i]@ == right[i]@,
{
    lemma_tick_at(left, i as nat);
    lemma_tick_at(right, i as nat);
}

/// Any run of consecutive ticks of a chain is a chain.
pub proof fn part_of_chain_is_chain(ticks: Seq<Tick>, start: int, end: int)
    requires
        is_chain(ticks),
        0 <= start <= end <= ticks.len(),
    ensures
        is_chain(ticks.subrange(start, end)),
{
    let part = ticks.subrange(start, end);
    assert forall|i: int| 0 < i < part.len() implies #[trigger] linked(part, i) by {
        assert(linked(ticks, start + i));
    }
}

/// Two runs that share a boundary tick, the last of `left` and the first of `right`, are a chain
/// when joined there if and only if each is one. No link goes unchecked at the boundary.
pub proof fn chain_splits_at_shared_tick(left: Seq<Tick>, right: Seq<Tick>)
    requires
        left.len() > 0,
        right.len() > 0,
        left.last()@ == right.first()@,
    ensures
        is_chain(left + right.skip(1)) <==> is_chain(left) && is_chain(right),
{
    let joined = left + right.skip(1);
    let shift = left.len() - 1;
    if is_chain(joined) {
        assert forall|i: int| 0 < i < left.len() implies #[trigger] linked(left, i) by {
            assert(linked(joined, i));
        }
        assert forall|i: int| 0 < i < right.len() implies #[trigger] linked(right, i) by {
            assert(linked(joined, shift + i));
        }
    }
    if is_chain(left) && is_chain(right) {
        assert forall|i: int| 0 < i < joined.len() implies #[trigger] linked(joined, i) by {
            if i < left.len() {
                assert(linked(left, i));
            } else {
                assert(linked(right, i - shift));
            }
        }
    }
}

/// Replacing any tick of a chain but the first by a different one breaks the chain.
pub proof fn corrupted_tick_breaks_chain(ticks: Seq<Tick>, i: int, other: Tick)
    requires
        is_chain(ticks),
        0 < i < ticks.len(),
        other@ != ticks[i]@,
    ensures
        !is_chain(ticks.update(i, other)),
{
    let corrupted = ticks.update(i, other);
    assert(linked(ticks, i));
    assert(!linked(corrupted, i));
}

} // verus!
