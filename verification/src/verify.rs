//! Tick verifier: checks that ticks form an unbroken BLAKE3 hash chain.

use vstd::prelude::*;
use vstd::slice::slice_subrange;

use crate::batch::{
    can_be_joined, continues, follows, in_sequence, is_chain_of_batches, joined,
    sequence_is_all_empty_or_all_filled, TickBatch,
};
use crate::chain::{chain_splits_at_shared_tick, is_chain, linked};
use crate::flag::{
    flag_is_up_once_raised, history_holds_what_was_done, is_history_of_flag, stored_before,
    touches_by, value_after, FlagHistory, FlagTouch, SharedFlag,
};
use crate::plan::{
    chunks_are_in_bounds, chunkwise_chain_is_chain, is_plan, plan_chunks, ticks_of, Chunk,
};
use crate::tick::{blake3_digest, hash, Tick};

verus! {

/// What is found of one link.
#[derive(Debug, Clone, Copy, PartialEq, Eq, Structural)]
pub enum LinkCheck {
    /// The tick is the hash of its predecessor.
    Holds,
    /// The tick is not the hash of its predecessor.
    Broken,
    /// The link was not looked at, because a mismatch is already known.
    Skipped,
}

/// What is found of one chunk.
#[derive(Debug, Clone, Copy, PartialEq, Eq, Structural)]
pub enum ChunkVerdict {
    /// Every link of the chunk holds.
    Intact,
    /// Some link of the chunk is broken.
    Broken,
    /// The check ended early, because a mismatch was already known.
    Abandoned,
}

/// The verdict is true of the chunk. An abandoned check says nothing of it.
pub open spec fn is_sound(verdict: ChunkVerdict, chunk: Seq<Tick>) -> bool {
    match verdict {
        ChunkVerdict::Intact => is_chain(chunk),
        ChunkVerdict::Broken => !is_chain(chunk),
        ChunkVerdict::Abandoned => true,
    }
}

/// What a check finds of a chunk when `readings` are the answers it gets, one before each link that
/// it comes to, to the question whether a mismatch is already known. It goes on while the answer is
/// no and the link holds, and ends with the first answer that is yes, the first link that is
/// broken, or the last link.
pub open spec fn is_verdict_on(
    verdict: ChunkVerdict,
    chunk: Seq<Tick>,
    readings: Seq<bool>,
) -> bool {
    let last = readings.len() as int;
    &&& forall|i: int| 0 < i < last ==> i < chunk.len() && #[trigger] linked(chunk, i)
    &&& forall|i: int| 0 <= i < last - 1 ==> !#[trigger] readings[i]
    &&& match verdict {
        ChunkVerdict::Intact => {
            &&& last == if chunk.len() == 0 {
                0
            } else {
                chunk.len() - 1
            }
            &&& last > 0 ==> !readings[last - 1] && linked(chunk, last)
        },
        ChunkVerdict::Broken => {
            &&& 0 < last < chunk.len()
            &&& !readings[last - 1]
            &&& !linked(chunk, last)
        },
        ChunkVerdict::Abandoned => {
            &&& 0 < last < chunk.len()
            &&& readings[last - 1]
        },
    }
}

/// What a check of a chunk does with the shared flag: it reads the flag once before each link that it
/// comes to, and raises it only if a link is broken.
pub open spec fn touches_of(verdict: ChunkVerdict, readings: Seq<bool>) -> Seq<FlagTouch> {
    let reads = readings.map_values(|value: bool| FlagTouch::Read { value });
    if verdict is Broken {
        reads.push(FlagTouch::Stored { value: true })
    } else {
        reads
    }
}

/// Every chunk was found intact.
pub open spec fn all_intact(verdicts: Seq<ChunkVerdict>) -> bool {
    forall|k: int| 0 <= k < verdicts.len() ==> #[trigger] verdicts[k] is Intact
}

/// Some chunk was found broken, and that was announced.
pub open spec fn some_broken(verdicts: Seq<ChunkVerdict>) -> bool {
    exists|k: int| 0 <= k < verdicts.len() && #[trigger] verdicts[k] is Broken
}

/// Stateless verifier of BLAKE3 hash chains.
pub struct TickVerifier;

impl TickVerifier {
    /// Judges the link between a tick whose hash is `digest` and the tick `next` after it.
    pub fn judge_link(digest: &Tick, next: &Tick) -> (check: LinkCheck)
        ensures
            check == if next@ == digest@ {
                LinkCheck::Holds
            } else {
                LinkCheck::Broken
            },
    {
        if *next == *digest {
            LinkCheck::Holds
        } else {
            LinkCheck::Broken
        }
    }

    /// Checks the link into tick `i`, unless a mismatch has already been seen.
    pub fn check_link(ticks: &[Tick], i: usize, mismatch_seen: bool) -> (check: LinkCheck)
        requires
            0 < i < ticks@.len(),
        ensures
            check == if mismatch_seen {
                LinkCheck::Skipped
            } else if linked(ticks@, i as int) {
                LinkCheck::Holds
            } else {
                LinkCheck::Broken
            },
            check is Skipped <==> mismatch_seen,
            check is Holds <==> !mismatch_seen && ticks@[i as int]@ == blake3_digest(
                ticks@[i - 1]@,
            ),
    {
        if mismatch_seen {
            return LinkCheck::Skipped;
        }
        let digest = hash(ticks[i - 1].as_bytes());
        Self::judge_link(&digest, &ticks[i])
    }

    /// Checks the links of one chunk in order, and stops at the first that is broken.
    pub fn check_chunk(chunk: &[Tick]) -> (intact: bool)
        ensures
            intact == is_chain(chunk@),
    {
        let mut i: usize = 1;
        while i < chunk.len()
            invariant
                1 <= i,
                forall|j: int| 0 < j < i ==> #[trigger] linked(chunk@, j),
            decreases chunk.len() - i,
        {
            match Self::check_link(chunk, i, false) {
                LinkCheck::Holds => {},
                _ => {
                    return false;
                },
            }
            i += 1;
        }
        true
    }

    /// Checks the links of one chunk in order while other chunks are being checked elsewhere. A
    /// mismatch found here is announced through `mismatch`, and one announced there ends the check:
    /// the flag is read afresh before each link.
    ///
    /// What `mismatch` is read to hold depends on the other checks. The contract says exactly which
    /// verdict comes, and which use is made of the flag, for whatever is read.
    pub fn verify_chunk(chunk: &[Tick], mismatch: &mut SharedFlag<'_>) -> (verdict: ChunkVerdict)
        ensures
            is_sound(verdict, chunk@),
            chunk@.len() < 2 ==> verdict is Intact,
            final(mismatch).target() == old(mismatch).target(),
            exists|readings: Seq<bool>|
                {
                    &&& #[trigger] is_verdict_on(verdict, chunk@, readings)
                    &&& final(mismatch).touches() == old(mismatch).touches() + touches_of(
                        verdict,
                        readings,
                    )
                },
    {
        let ghost mut readings: Seq<bool> = Seq::empty();
        let ghost before = mismatch.touches();
        assert(before + touches_of(ChunkVerdict::Intact, readings) =~= before);
        let mut i: usize = 1;
        while i < chunk.len()
            invariant
                1 <= i,
                chunk@.len() > 0 ==> i <= chunk@.len(),
                chunk@.len() == 0 ==> i == 1,
                forall|j: int| 0 < j < i ==> j < chunk@.len() && #[trigger] linked(chunk@, j),
                readings.len() == i - 1,
                forall|j: int| 0 <= j < readings.len() ==> !#[trigger] readings[j],
                mismatch.target() == old(mismatch).target(),
                before == old(mismatch).touches(),
                mismatch.touches() == before + touches_of(ChunkVerdict::Intact, readings),
            decreases chunk.len() - i,
        {
            let seen: bool = mismatch.is_up();
            let ghost asked = readings.push(seen);
            assert(mismatch.touches() =~= before + touches_of(ChunkVerdict::Intact, asked));
            match Self::check_link(chunk, i, seen) {
                LinkCheck::Holds => {},
                LinkCheck::Broken => {
                    mismatch.raise();
                    assert(mismatch.touches() =~= before + touches_of(ChunkVerdict::Broken, asked));
                    assert(is_verdict_on(ChunkVerdict::Broken, chunk@, asked));
                    return ChunkVerdict::Broken;
                },
                LinkCheck::Skipped => {
                    assert(is_verdict_on(ChunkVerdict::Abandoned, chunk@, asked));
                    return ChunkVerdict::Abandoned;
                },
            }
            proof {
                readings = asked;
            }
            i += 1;
        }
        assert(is_verdict_on(ChunkVerdict::Intact, chunk@, readings));
        ChunkVerdict::Intact
    }

    /// Draws the verdict on all ticks from the verdicts on their chunks: they are accepted if every
    /// chunk is. A chunk whose check was abandoned is not, since a mismatch was known by then.
    pub fn combine_verdicts(verdicts: &[ChunkVerdict]) -> (ok: bool)
        ensures
            ok == all_intact(verdicts@),
            ok <==> forall|k: int|
                0 <= k < verdicts@.len() ==> verdicts@[k] == ChunkVerdict::Intact,
    {
        let mut k: usize = 0;
        while k < verdicts.len()
            invariant
                0 <= k <= verdicts@.len(),
                forall|j: int| 0 <= j < k ==> #[trigger] verdicts@[j] is Intact,
            decreases verdicts.len() - k,
        {
            match verdicts[k] {
                ChunkVerdict::Intact => {},
                _ => {
                    return false;
                },
            }
            k += 1;
        }
        true
    }

    /// Verifies that every tick is the hash of its predecessor, one chunk after another of those
    /// that `max_threads` threads would share.
    pub fn verify_ticks_for(ticks: &[Tick], max_threads: usize) -> (ok: bool)
        requires
            max_threads >= 1,
        ensures
            ok == is_chain(ticks@),
    {
        let chunks: Vec<Chunk> = plan_chunks(ticks.len(), max_threads);
        proof {
            chunkwise_chain_is_chain(ticks@, chunks@, max_threads as nat);
        }
        let mut k: usize = 0;
        while k < chunks.len()
            invariant
                k <= chunks@.len(),
                max_threads >= 1,
                is_plan(chunks@, ticks@.len(), max_threads as nat),
                is_chain(ticks@) <==> (forall|j: int|
                    0 <= j < chunks@.len() ==> is_chain(
                        ticks_of(ticks@, #[trigger] chunks@[j]),
                    )),
                forall|j: int|
                    0 <= j < k ==> is_chain(
                        ticks_of(ticks@, #[trigger] chunks@[j]),
                    ),
            decreases chunks.len() - k,
        {
            proof {
                chunks_are_in_bounds(
                    chunks@,
                    ticks@.len(),
                    max_threads as nat,
                    k as int,
                );
            }
            let chunk: Chunk = chunks[k];
            if !Self::check_chunk(slice_subrange(ticks, chunk.start, chunk.end)) {
                return false;
            }
            k += 1;
        }
        true
    }

    /// Verifies that every tick is the hash of its predecessor; fewer than two ticks is valid.
    pub fn verify_ticks(ticks: &[Tick]) -> (ok: bool)
        ensures
            ok == is_chain(ticks@),
    {
        Self::verify_ticks_for(ticks, 1)
    }

    /// `true` if `next` starts with the tick that `previous` ends with.
    fn starts_at_end_of(previous: &TickBatch, next: &TickBatch) -> (overlap: bool)
        ensures
            overlap == follows(*previous, *next),
    {
        match (previous.ticks.last(), next.ticks.first()) {
            (Some(last), Some(first)) => *first == *last,
            (None, None) => true,
            _ => false,
        }
    }

    /// `true` if every batch starts with the last tick of the batch before it.
    pub fn batches_in_sequence(batches: &[TickBatch]) -> (ok: bool)
        ensures
            ok == in_sequence(batches@),
    {
        let mut k: usize = 1;
        while k < batches.len()
            invariant
                1 <= k,
                forall|j: int| 0 < j < k ==> #[trigger] continues(batches@, j),
            decreases batches.len() - k,
        {
            let overlap = Self::starts_at_end_of(&batches[k - 1], &batches[k]);
            assert(overlap == continues(batches@, k as int));
            if !overlap {
                return false;
            }
            k += 1;
        }
        true
    }

    /// The ticks of batches in sequence as one run, or `None` if the batches are not in sequence.
    pub fn join_batches(batches: &[TickBatch]) -> (ticks: Option<Vec<Tick>>)
        requires
            can_be_joined(batches@),
        ensures
            ticks is Some <==> in_sequence(batches@),
            ticks matches Some(run) ==> run@ == joined(batches@),
    {
        if !Self::batches_in_sequence(batches) {
            return None;
        }
        let mut ticks: Vec<Tick> = Vec::new();
        let mut k: usize = 0;
        assert(batches@.take(0) =~= Seq::empty());
        while k < batches.len()
            invariant
                k <= batches@.len(),
                can_be_joined(batches@),
                in_sequence(batches@),
                ticks@ == joined(batches@.take(k as int)),
            decreases batches.len() - k,
        {
            let batch = &batches[k];
            // Batches overlap by one tick, so the first tick of every later batch is left out.
            let skip: usize = if k == 0 {
                0
            } else {
                1
            };
            proof {
                let prefix = batches@.take(k + 1);
                assert(prefix.drop_last() =~= batches@.take(k as int));
                if k > 0 {
                    let filled = choose|j: int|
                        0 <= j < batches@.len() && (#[trigger] batches@[j]).ticks@.len() > 0;
                    sequence_is_all_empty_or_all_filled(
                        batches@,
                        filled,
                        k as int,
                    );
                }
            }
            let part = slice_subrange(batch.ticks.as_slice(), skip, batch.ticks.len());
            let ghost before = ticks@;
            ticks.extend_from_slice(part);
            assert(ticks@ =~= before + part@);
            assert(part@ =~= batch.ticks@.skip(skip as int));
            assert(k == 0 ==> ticks@ =~= batch.ticks@);
            k += 1;
        }
        assert(batches@.take(batches@.len() as int) =~= batches@);
        Some(ticks)
    }

    /// Verifies that the batches are in sequence (each starts with the last tick of the batch
    /// before it) and together form one unbroken chain.
    pub fn verify_ticks_batch(batches: &[TickBatch]) -> (ok: bool)
        requires
            can_be_joined(batches@),
        ensures
            ok == is_chain_of_batches(batches@),
    {
        match Self::join_batches(batches) {
            Some(ticks) => Self::verify_ticks(ticks.as_slice()),
            None => false,
        }
    }
}

/// A check that is never told of a mismatch is exact: it finds the chunk broken exactly when it is
/// no chain, and intact exactly when it is one.
pub proof fn undisturbed_check_is_exact(
    verdict: ChunkVerdict,
    chunk: Seq<Tick>,
    readings: Seq<bool>,
)
    requires
        is_verdict_on(verdict, chunk, readings),
        !readings.contains(true),
    ensures
        verdict is Broken <==> !is_chain(chunk),
        verdict is Intact <==> is_chain(chunk),
{
    verdict_is_sound(verdict, chunk, readings);
}

/// Whatever a check was told, what it finds is true: the chunk is a chain if it was found intact,
/// and none if it was found broken. It is abandoned exactly if it was told of a mismatch, and at
/// once: nothing is looked at after that.
pub proof fn verdict_is_sound(verdict: ChunkVerdict, chunk: Seq<Tick>, readings: Seq<bool>)
    requires
        is_verdict_on(verdict, chunk, readings),
    ensures
        is_sound(verdict, chunk),
        verdict is Abandoned <==> readings.contains(true),
        forall|i: int|
            0 <= i < readings.len() && #[trigger] readings[i] ==> i == readings.len() - 1,
{
    let last = readings.len() as int;
    if verdict is Abandoned {
        assert(readings[last - 1]);
    } else {
        assert forall|i: int| 0 <= i < last implies !#[trigger] readings[i] by {}
    }
}

/// Check `k` is of the ticks `parts[k]`, reads `readings[k]` and finds `verdicts[k]`, and `history` is
/// the history of the flag that the checks share: it is down at first, and nobody but they touch it.
pub open spec fn share_a_flag(
    verdicts: Seq<ChunkVerdict>,
    parts: Seq<Seq<Tick>>,
    readings: Seq<Seq<bool>>,
    history: FlagHistory,
) -> bool {
    &&& parts.len() == verdicts.len()
    &&& readings.len() == verdicts.len()
    &&& is_history_of_flag(false, history)
    &&& forall|p: int|
        0 <= p < history.len() ==> 0 <= (#[trigger] history[p]).0 < verdicts.len()
    &&& forall|k: int|
        0 <= k < verdicts.len() ==> {
            &&& is_verdict_on(#[trigger] verdicts[k], parts[k], readings[k])
            &&& touches_by(history, k) == touches_of(verdicts[k], readings[k])
        }
}

/// Checks that share a flag raise it exactly if one of them finds a broken link, and none of them
/// is abandoned unless one does.
pub proof fn flag_is_up_if_some_check_fails(
    verdicts: Seq<ChunkVerdict>,
    parts: Seq<Seq<Tick>>,
    readings: Seq<Seq<bool>>,
    history: FlagHistory,
)
    requires
        share_a_flag(verdicts, parts, readings, history),
    ensures
        value_after(false, history) <==> some_broken(verdicts),
        some_broken(verdicts) <==> !all_intact(verdicts),
        some_broken(verdicts) <==> exists|k: int|
            0 <= k < parts.len() && !is_chain(#[trigger] parts[k]),
{
    let raised = FlagTouch::Stored { value: true };
    let end = history.len() as int;
    assert forall|p: int| 0 <= p < end && (#[trigger] history[p]).1 is Stored implies history[p].1
        == raised && verdicts[history[p].0] is Broken by {
        let (k, touch) = history[p];
        assert(history.contains((k, touch)));
        history_holds_what_was_done(history, k, touch);
        assert(touches_of(verdicts[k], readings[k]).contains(touch));
    }
    flag_is_up_once_raised(false, history);
    if some_broken(verdicts) {
        let k = choose|k: int| 0 <= k < verdicts.len() && #[trigger] verdicts[k] is Broken;
        let done = touches_of(verdicts[k], readings[k]);
        assert(touches_by(history, k) == done);
        assert(done.last() == raised && done.contains(raised));
        history_holds_what_was_done(history, k, raised);
        let q = choose|q: int| 0 <= q < end && history[q] == (k, raised);
        assert(history[q].1 == raised);
        assert(stored_before(history, end, true));
        verdict_is_sound(verdicts[k], parts[k], readings[k]);
        assert(!is_chain(parts[k]));
        assert(!all_intact(verdicts));
    }
    if stored_before(history, end, true) {
        let q = choose|q: int| 0 <= q < end && (#[trigger] history[q]).1 == raised;
        assert(verdicts[history[q].0] is Broken);
    }
    assert forall|k: int| 0 <= k < verdicts.len() && !(#[trigger] verdicts[k] is Intact) implies
        some_broken(verdicts) by {
        if verdicts[k] is Abandoned {
            let seen = FlagTouch::Read { value: true };
            let last = readings[k].len() - 1;
            assert(touches_by(history, k) == touches_of(verdicts[k], readings[k]));
            assert(touches_by(history, k)[last] == seen);
            history_holds_what_was_done(history, k, seen);
            let p = choose|p: int| 0 <= p < end && history[p] == (k, seen);
            assert(history[p].1 == seen);
            assert(stored_before(history, p, true));
            let q = choose|q: int| 0 <= q < p && (#[trigger] history[q]).1 == raised;
            assert(verdicts[history[q].0] is Broken);
        }
    }
    if !all_intact(verdicts) {
        let k = choose|k: int| 0 <= k < verdicts.len() && !(#[trigger] verdicts[k] is Intact);
        assert(some_broken(verdicts));
    }
    if exists|k: int| 0 <= k < parts.len() && !is_chain(#[trigger] parts[k]) {
        let k = choose|k: int| 0 <= k < parts.len() && !is_chain(#[trigger] parts[k]);
        verdict_is_sound(verdicts[k], parts[k], readings[k]);
        assert(!(verdicts[k] is Intact));
    }
}

/// What the threads accept is a chain: if every chunk of a plan has a sound verdict, and all are
/// intact, all ticks are linked. Nothing is assumed of the flag that the checks share.
pub proof fn accepted_chunks_are_a_chain(
    ticks: Seq<Tick>,
    chunks: Seq<Chunk>,
    max_threads: nat,
    verdicts: Seq<ChunkVerdict>,
)
    requires
        max_threads >= 1,
        is_plan(chunks, ticks.len(), max_threads),
        verdicts.len() == chunks.len(),
        forall|k: int|
            0 <= k < chunks.len() ==> is_sound(
                #[trigger] verdicts[k],
                ticks_of(ticks, chunks[k]),
            ),
        all_intact(verdicts),
    ensures
        is_chain(ticks),
{
    chunkwise_chain_is_chain(ticks, chunks, max_threads);
    assert forall|k: int| 0 <= k < chunks.len() implies is_chain(
        ticks_of(ticks, #[trigger] chunks[k]),
    ) by {
        assert(is_sound(verdicts[k], ticks_of(ticks, chunks[k])));
    }
}

/// The chunks of a plan may be checked in any order, at the same time, and given up once a mismatch
/// is known. With one flag between them, the combined verdict is the verdict on all ticks, and the
/// flag is up in the end exactly if the ticks are no chain.
pub proof fn combined_verdict_is_exact(
    ticks: Seq<Tick>,
    chunks: Seq<Chunk>,
    max_threads: nat,
    verdicts: Seq<ChunkVerdict>,
    readings: Seq<Seq<bool>>,
    history: FlagHistory,
)
    requires
        max_threads >= 1,
        is_plan(chunks, ticks.len(), max_threads),
        share_a_flag(
            verdicts,
            chunks.map_values(|chunk: Chunk| ticks_of(ticks, chunk)),
            readings,
            history,
        ),
    ensures
        all_intact(verdicts) <==> is_chain(ticks),
        value_after(false, history) <==> !is_chain(ticks),
{
    let parts = chunks.map_values(|chunk: Chunk| ticks_of(ticks, chunk));
    flag_is_up_if_some_check_fails(verdicts, parts, readings, history);
    chunkwise_chain_is_chain(ticks, chunks, max_threads);
    if is_chain(ticks) {
        assert forall|k: int| 0 <= k < parts.len() implies is_chain(#[trigger] parts[k]) by {
            assert(is_chain(ticks_of(ticks, chunks[k])));
        }
    } else {
        let k = choose|k: int|
            0 <= k < chunks.len() && !is_chain(ticks_of(ticks, #[trigger] chunks[k]));
        assert(!is_chain(parts[k]));
    }
}

/// A flag that is down when a check begins, and that nobody else touches, is up after the check
/// exactly if some link is broken. A flag that is up stays up.
pub proof fn lone_check_leaves_its_verdict_in_the_flag(
    verdict: ChunkVerdict,
    ticks: Seq<Tick>,
    readings: Seq<bool>,
    initial: bool,
    history: FlagHistory,
)
    requires
        is_verdict_on(verdict, ticks, readings),
        is_history_of_flag(initial, history),
        forall|p: int| 0 <= p < history.len() ==> (#[trigger] history[p]).0 == 0,
        touches_by(history, 0) == touches_of(verdict, readings),
    ensures
        initial ==> value_after(initial, history),
        !initial ==> (value_after(initial, history) <==> !is_chain(ticks)),
        !initial ==> (verdict is Intact <==> is_chain(ticks)),
{
    if initial {
        assert forall|p: int| 0 <= p < history.len() implies (#[trigger] history[p]).1 != (
        FlagTouch::Stored { value: false }) by {
            let touch = history[p].1;
            assert(history[p] == (0int, touch));
            assert(history.contains((0int, touch)));
            history_holds_what_was_done(history, 0, touch);
            assert(touches_of(verdict, readings).contains(touch));
        }
        flag_is_up_once_raised(initial, history);
    } else {
        let verdicts = seq![verdict];
        let parts = seq![ticks];
        assert(share_a_flag(verdicts, parts, seq![readings], history));
        flag_is_up_if_some_check_fails(verdicts, parts, seq![readings], history);
        assert(parts[0] == ticks);
        assert(verdicts[0] == verdict);
    }
}

/// Two chunks that share one tick, wherever the ticks are cut, miss no link and add none. Checked
/// one after the other or at the same time, with one flag that is down at first and that only they
/// touch, they leave in it what a check of all ticks leaves in a flag of its own.
pub proof fn two_chunks_decide_the_whole(
    ticks: Seq<Tick>,
    cut: int,
    verdicts: Seq<ChunkVerdict>,
    readings: Seq<Seq<bool>>,
    history: FlagHistory,
    whole: ChunkVerdict,
    whole_readings: Seq<bool>,
    whole_history: FlagHistory,
)
    requires
        0 <= cut < ticks.len(),
        share_a_flag(verdicts, seq![ticks.take(cut + 1), ticks.skip(cut)], readings, history),
        share_a_flag(seq![whole], seq![ticks], seq![whole_readings], whole_history),
    ensures
        value_after(false, history) == value_after(false, whole_history),
        value_after(false, history) <==> !is_chain(ticks),
        all_intact(verdicts) <==> whole is Intact,
{
    let front = ticks.take(cut + 1);
    let back = ticks.skip(cut);
    let parts = seq![front, back];
    flag_is_up_if_some_check_fails(verdicts, parts, readings, history);
    flag_is_up_if_some_check_fails(seq![whole], seq![ticks], seq![whole_readings], whole_history);
    chain_splits_at_shared_tick(front, back);
    assert(front + back.skip(1) =~= ticks);
    assert(parts[0] == front && parts[1] == back);
    assert(seq![ticks][0] == ticks);
    assert(seq![whole][0] == whole);
}

/// A check goes through the links of its chunk one by one, and looks at the flag once before each.
/// An intact chunk took as many looks as it has links, all of which showed the flag down. A broken
/// one took as many as there are links up to the first that is broken. An abandoned one ended with
/// the first look that showed the flag up, before any broken link was come to.
pub proof fn check_looks_once_before_each_link(
    verdict: ChunkVerdict,
    chunk: Seq<Tick>,
    readings: Seq<bool>,
)
    requires
        is_verdict_on(verdict, chunk, readings),
    ensures
        ({
            let looks = readings.len() as int;
            &&& forall|i: int| 0 <= i < looks - 1 ==> !#[trigger] readings[i]
            &&& forall|i: int|
                #![trigger chunk[i]]
                0 <= i < looks - 1 ==> i + 1 < chunk.len() && chunk[i + 1]@ == blake3_digest(
                    chunk[i]@,
                )
            &&& verdict is Intact && chunk.len() > 0 ==> looks == chunk.len() - 1
            &&& verdict is Intact && chunk.len() == 0 ==> looks == 0
            &&& verdict is Intact && looks > 0 ==> !readings[looks - 1] && chunk[looks]@
                == blake3_digest(chunk[looks - 1]@)
            &&& verdict !is Intact ==> 0 < looks < chunk.len()
            &&& verdict is Broken ==> !readings[looks - 1] && chunk[looks]@ != blake3_digest(
                chunk[looks - 1]@,
            )
            &&& verdict is Abandoned ==> readings[looks - 1]
        }),
{
    let looks = readings.len() as int;
    assert forall|i: int|
        #![trigger chunk[i]]
        0 <= i < looks - 1 implies i + 1 < chunk.len() && chunk[i + 1]@ == blake3_digest(
        chunk[i]@,
    ) by {
        assert(linked(chunk, i + 1));
    }
}

/// A check leaves nothing in the flag but what it read there, and raises it once at the end if it
/// found a broken link.
pub proof fn check_touches_the_flag_as_it_should(verdict: ChunkVerdict, readings: Seq<bool>)
    ensures
        touches_of(verdict, readings).len() == readings.len() + (if verdict is Broken {
            1int
        } else {
            0int
        }),
        forall|i: int|
            0 <= i < readings.len() ==> #[trigger] touches_of(verdict, readings)[i] == (
            FlagTouch::Read { value: readings[i] }),
        verdict is Broken ==> touches_of(verdict, readings).last() == (FlagTouch::Stored {
            value: true,
        }),
{
}

} // verus!
