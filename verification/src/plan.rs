//! How a long run of ticks is divided into chunks that can be checked independently.

use vstd::arithmetic::div_mod::lemma_fundamental_div_mod;
use vstd::prelude::*;

use crate::chain::{is_chain, linked, part_of_chain_is_chain};
use crate::tick::Tick;

verus! {

/// Fewest hash links worth handing to one thread; smaller inputs are verified inline.
pub const MIN_LINKS_PER_THREAD: usize = 4096;

/// A run of consecutive ticks: those from position `start` up to, and without, position `end`.
#[derive(Debug, Clone, Copy, PartialEq, Eq, Structural)]
pub struct Chunk {
    pub start: usize,
    pub end: usize,
}

/// Number of threads that `links` hash links are spread over: as many as get at least
/// [`MIN_LINKS_PER_THREAD`] links each, but at least one and at most `max_threads`.
pub open spec fn thread_count(links: nat, max_threads: nat) -> nat {
    let wanted = links / MIN_LINKS_PER_THREAD as nat;
    if wanted < 1 {
        1
    } else if wanted > max_threads {
        max_threads
    } else {
        wanted
    }
}

/// The quotient, rounded up.
pub open spec fn div_ceil(dividend: nat, divisor: nat) -> nat {
    if dividend % divisor == 0 {
        dividend / divisor
    } else {
        dividend / divisor + 1
    }
}

/// Number of links in every chunk but the last, which may have fewer.
pub open spec fn chunk_links(links: nat, max_threads: nat) -> nat {
    div_ceil(links, thread_count(links, max_threads))
}

/// The chunk is number `k` of those that `tick_count` ticks are divided into, with `size` links
/// each. It reaches one tick into the next chunk, so that the link between the two is in it.
pub open spec fn is_chunk(chunk: Chunk, tick_count: nat, size: nat, k: int) -> bool {
    &&& chunk.start == k * size
    &&& chunk.end == if k * size + size + 1 < tick_count {
        k * size + size + 1
    } else {
        tick_count as int
    }
}

/// The chunks are the ones that `tick_count` ticks are divided into for `max_threads` threads.
pub open spec fn is_plan(chunks: Seq<Chunk>, tick_count: nat, max_threads: nat) -> bool {
    if tick_count < 2 {
        chunks.len() == 0
    } else {
        let links = (tick_count - 1) as nat;
        let size = chunk_links(links, max_threads);
        &&& (chunks.len() - 1) * size < links <= chunks.len() * size
        &&& forall|k: int|
            0 <= k < chunks.len() ==> is_chunk(#[trigger] chunks[k], tick_count, size, k)
    }
}

/// Divides `tick_count` ticks into chunks for at most `max_threads` threads.
pub fn plan_chunks(tick_count: usize, max_threads: usize) -> (chunks: Vec<Chunk>)
    requires
        max_threads >= 1,
    ensures
        is_plan(chunks@, tick_count as nat, max_threads as nat),
{
    let mut chunks: Vec<Chunk> = Vec::new();
    if tick_count < 2 {
        return chunks;
    }
    let links: usize = tick_count - 1;
    let wanted: usize = links / MIN_LINKS_PER_THREAD;
    let threads: usize = if wanted < 1 {
        1
    } else if wanted > max_threads {
        max_threads
    } else {
        wanted
    };
    let rounded_up: usize = if links % threads == 0 {
        0
    } else {
        1
    };
    proof {
        lemma_chunk_links_bounds(links as nat, max_threads as nat);
    }
    let size: usize = links / threads + rounded_up;

    let mut start: usize = 0;
    assert(chunks.len() * size == 0) by (nonlinear_arith)
        requires
            chunks.len() == 0,
    ;
    while start < links
        invariant
            2 <= tick_count,
            links == tick_count - 1,
            1 <= size <= links,
            start <= links,
            start < links ==> start == chunks.len() * size,
            start == links ==> (chunks.len() - 1) * size < links <= chunks.len() * size,
            forall|k: int|
                0 <= k < chunks.len() ==> is_chunk(
                    #[trigger] chunks[k],
                    tick_count as nat,
                    size as nat,
                    k,
                ),
        decreases links - start,
    {
        let ghost k = chunks.len() as int;
        // One tick more than the chunk has links: its last tick is the next chunk's first.
        let end: usize = if tick_count - start > size + 1 {
            start + size + 1
        } else {
            tick_count
        };
        chunks.push(Chunk { start, end });
        start = if links - start > size {
            start + size
        } else {
            links
        };
        assert((k + 1) * size == k * size + size) by (nonlinear_arith);
    }
    chunks
}

/// With at least one link, a chunk has at least one link and at most all of them, and as many
/// chunks as there are threads have room for all links.
proof fn lemma_chunk_links_bounds(links: nat, max_threads: nat)
    requires
        links >= 1,
        max_threads >= 1,
    ensures
        1 <= thread_count(links, max_threads) <= links,
        1 <= chunk_links(links, max_threads) <= links,
        links / thread_count(links, max_threads) <= links,
        links <= thread_count(links, max_threads) * chunk_links(links, max_threads),
{
    let threads = thread_count(links, max_threads);
    assert(1 <= threads <= links);
    let quotient = links / threads;
    let remainder = links % threads;
    lemma_fundamental_div_mod(links as int, threads as int);
    assert(links == threads * quotient + remainder);
    assert(quotient >= 1 && quotient <= links && (remainder > 0 ==> quotient + 1 <= links)
        && links <= threads * div_ceil(links, threads)) by (nonlinear_arith)
        requires
            1 <= threads <= links,
            links == threads * quotient + remainder,
            0 <= remainder < threads,
            div_ceil(links, threads) == (if remainder == 0 {
                quotient
            } else {
                quotient + 1
            }),
    ;
}

/// The ticks of one chunk.
pub open spec fn ticks_of(ticks: Seq<Tick>, chunk: Chunk) -> Seq<Tick> {
    ticks.subrange(chunk.start as int, chunk.end as int)
}

/// Tick `i` and the tick before it are both in the chunk, so that the link between them is.
pub open spec fn holds_link(chunk: Chunk, i: int) -> bool {
    chunk.start < i < chunk.end
}

/// Every chunk is a part of the ticks, and holds at least one link.
pub proof fn chunks_are_in_bounds(
    chunks: Seq<Chunk>,
    tick_count: nat,
    max_threads: nat,
    k: int,
)
    requires
        is_plan(chunks, tick_count, max_threads),
        max_threads >= 1,
        0 <= k < chunks.len(),
    ensures
        chunks[k].start + 1 < chunks[k].end <= tick_count,
{
    let links = (tick_count - 1) as nat;
    let size = chunk_links(links, max_threads);
    lemma_chunk_links_bounds(links, max_threads);
    assert(is_chunk(chunks[k], tick_count, size, k));
    assert(k * size <= (chunks.len() - 1) * size) by (nonlinear_arith)
        requires
            k <= chunks.len() - 1,
            size >= 1,
    ;
}

/// Every link is in exactly one chunk: none goes unchecked, none is checked twice.
pub proof fn every_link_is_in_exactly_one_chunk(
    chunks: Seq<Chunk>,
    tick_count: nat,
    max_threads: nat,
    i: int,
)
    requires
        is_plan(chunks, tick_count, max_threads),
        max_threads >= 1,
        0 < i < tick_count,
    ensures
        exists|k: int| 0 <= k < chunks.len() && #[trigger] holds_link(chunks[k], i),
        forall|j: int, k: int|
            0 <= j < chunks.len() && 0 <= k < chunks.len() && #[trigger] holds_link(chunks[j], i)
                && #[trigger] holds_link(chunks[k], i) ==> j == k,
{
    let links = (tick_count - 1) as nat;
    let size = chunk_links(links, max_threads) as int;
    lemma_chunk_links_bounds(links, max_threads);
    let k = (i - 1) / size;
    lemma_fundamental_div_mod(i - 1, size);
    assert(size * k == k * size) by (nonlinear_arith);
    assert(0 <= k < chunks.len()) by (nonlinear_arith)
        requires
            i - 1 == k * size + (i - 1) % size,
            0 <= (i - 1) % size < size,
            0 < i <= links,
            links <= chunks.len() * size,
    ;
    assert(is_chunk(chunks[k], tick_count, size as nat, k));
    assert(holds_link(chunks[k], i));
    assert forall|j: int| 0 <= j < chunks.len() && #[trigger] holds_link(chunks[j], i) implies j
        == k by {
        assert(is_chunk(chunks[j], tick_count, size as nat, j));
        assert(j == k) by (nonlinear_arith)
            requires
                j * size < i <= j * size + size,
                k * size < i <= k * size + size,
                size >= 1,
        ;
    }
}

/// The ticks are a chain if and only if every chunk is: the verdicts on the chunks decide the
/// verdict on the whole, however many threads there are.
pub proof fn chunkwise_chain_is_chain(ticks: Seq<Tick>, chunks: Seq<Chunk>, max_threads: nat)
    requires
        is_plan(chunks, ticks.len(), max_threads),
        max_threads >= 1,
    ensures
        is_chain(ticks) <==> (forall|k: int|
            0 <= k < chunks.len() ==> is_chain(ticks_of(ticks, #[trigger] chunks[k]))),
{
    assert forall|k: int| 0 <= k < chunks.len() && is_chain(ticks) implies is_chain(
        ticks_of(ticks, #[trigger] chunks[k]),
    ) by {
        chunks_are_in_bounds(chunks, ticks.len(), max_threads, k);
        part_of_chain_is_chain(ticks, chunks[k].start as int, chunks[k].end as int);
    }
    if forall|k: int| 0 <= k < chunks.len() ==> is_chain(ticks_of(ticks, #[trigger] chunks[k])) {
        assert forall|i: int| 0 < i < ticks.len() implies #[trigger] linked(ticks, i) by {
            every_link_is_in_exactly_one_chunk(chunks, ticks.len(), max_threads, i);
            let k = choose|k: int| 0 <= k < chunks.len() && #[trigger] holds_link(chunks[k], i);
            chunks_are_in_bounds(chunks, ticks.len(), max_threads, k);
            assert(linked(ticks_of(ticks, chunks[k]), i - chunks[k].start));
        }
    }
}

/// Neighbouring chunks share one tick.
pub proof fn neighbouring_chunks_share_a_tick(
    chunks: Seq<Chunk>,
    tick_count: nat,
    max_threads: nat,
    k: int,
)
    requires
        is_plan(chunks, tick_count, max_threads),
        max_threads >= 1,
        0 <= k < chunks.len() - 1,
    ensures
        chunks[k].end == chunks[k + 1].start + 1,
{
    let links = (tick_count - 1) as nat;
    let size = chunk_links(links, max_threads);
    lemma_chunk_links_bounds(links, max_threads);
    assert(is_chunk(chunks[k], tick_count, size, k));
    assert(is_chunk(chunks[k + 1], tick_count, size, k + 1));
    assert((k + 1) * size == k * size + size && (k + 1) * size <= (chunks.len() - 1) * size)
        by (nonlinear_arith)
        requires
            k + 1 <= chunks.len() - 1,
            size >= 1,
    ;
}

/// There is no more than one chunk for each thread, and each chunk but the last has at least
/// [`MIN_LINKS_PER_THREAD`] links. Ticks with that many links for each of two or more available
/// threads are meant for all of these threads, and are split; ticks with fewer than twice that
/// many links are not.
pub proof fn chunks_fit_the_threads(chunks: Seq<Chunk>, tick_count: nat, max_threads: nat)
    requires
        is_plan(chunks, tick_count, max_threads),
        max_threads >= 1,
        tick_count >= 2,
    ensures
        1 <= chunks.len() <= thread_count((tick_count - 1) as nat, max_threads) <= max_threads,
        chunks.len() > 1 ==> chunk_links((tick_count - 1) as nat, max_threads)
            >= MIN_LINKS_PER_THREAD,
        tick_count - 1 >= MIN_LINKS_PER_THREAD * max_threads ==> thread_count(
            (tick_count - 1) as nat,
            max_threads,
        ) == max_threads,
        thread_count((tick_count - 1) as nat, max_threads) >= 2 ==> chunks.len() >= 2,
        tick_count - 1 < 2 * MIN_LINKS_PER_THREAD ==> chunks.len() == 1,
{
    let links = (tick_count - 1) as nat;
    let threads = thread_count(links, max_threads);
    let size = chunk_links(links, max_threads);
    lemma_chunk_links_bounds(links, max_threads);
    assert(1 <= chunks.len() <= threads) by (nonlinear_arith)
        requires
            (chunks.len() - 1) * size < links <= chunks.len() * size,
            links <= threads * size,
            1 <= links,
            1 <= size,
    ;
    if threads >= 2 {
        lemma_fundamental_div_mod(links as int, threads as int);
        let quotient = links / threads;
        assert(size < links && size >= MIN_LINKS_PER_THREAD) by (nonlinear_arith)
            requires
                threads >= 2,
                links == threads * quotient + links % threads,
                0 <= links % threads < threads,
                links >= MIN_LINKS_PER_THREAD * threads,
                size == quotient || size == quotient + 1,
                links <= threads * size,
                MIN_LINKS_PER_THREAD == 4096,
        ;
        assert(chunks.len() >= 2) by (nonlinear_arith)
            requires
                size < links,
                links <= chunks.len() * size,
                1 <= chunks.len(),
        ;
    }
}

/// What a plan looks like, in plain numbers. The chunks lead from the first tick to the last, each
/// starts with the last tick of the one before, and all but the last, which may be shorter, have
/// the same number of links. That number is the least with which one chunk for each thread has room
/// for all links. There are as many threads as get 4096 links each, but at least one, and no more
/// than are available.
pub proof fn plan_is_even(chunks: Seq<Chunk>, tick_count: nat, max_threads: nat)
    requires
        is_plan(chunks, tick_count, max_threads),
        max_threads >= 1,
        tick_count >= 2,
    ensures
        chunks.len() > 0,
        chunks[0].start == 0,
        chunks.last().end == tick_count,
        forall|k: int|
            #![trigger chunks[k]]
            0 <= k < chunks.len() - 1 ==> chunks[k].end == chunks[k + 1].start + 1,
        forall|k: int|
            0 <= k < chunks.len() - 1 ==> (#[trigger] chunks[k]).end - chunks[k].start
                == chunks[0].end - chunks[0].start,
        chunks.last().end - chunks.last().start <= chunks[0].end - chunks[0].start,
        ({
            let links = tick_count - 1;
            let each = chunks[0].end - chunks[0].start - 1;
            let threads = if links < 2 * 4096 || max_threads == 1 {
                1int
            } else if links >= 4096 * max_threads {
                max_threads as int
            } else {
                links / 4096
            };
            (each - 1) * threads < links <= each * threads
        }),
{
    let links = (tick_count - 1) as nat;
    let size = chunk_links(links, max_threads);
    let threads = thread_count(links, max_threads);
    let count = chunks.len() as int;
    lemma_chunk_links_bounds(links, max_threads);
    chunks_fit_the_threads(chunks, tick_count, max_threads);
    assert(is_chunk(chunks[0], tick_count, size, 0));
    assert(is_chunk(chunks[count - 1], tick_count, size, count - 1));
    assert((count - 1) * size + size == count * size && 0 * size == 0) by (nonlinear_arith);
    assert forall|k: int|
        #![trigger chunks[k]]
        0 <= k < count - 1 implies chunks[k].end == chunks[k + 1].start + 1 && chunks[k].end
        - chunks[k].start == size + 1 by {
        neighbouring_chunks_share_a_tick(chunks, tick_count, max_threads, k);
        assert(is_chunk(chunks[k], tick_count, size, k));
        assert(is_chunk(chunks[k + 1], tick_count, size, k + 1));
        assert((k + 1) * size == k * size + size) by (nonlinear_arith);
    }
    chunks_are_in_bounds(chunks, tick_count, max_threads, count - 1);
    assert(chunks[0].end - chunks[0].start - 1 == size) by {
        if count == 1 {
            assert(links == size) by (nonlinear_arith)
                requires
                    links <= count * size,
                    count == 1,
                    size <= links,
            ;
        }
    }
    assert(threads == if links < 2 * 4096 || max_threads == 1 {
        1int
    } else if links >= 4096 * max_threads {
        max_threads as int
    } else {
        links as int / 4096
    });
    lemma_fundamental_div_mod(links as int, threads as int);
    let quotient = links / threads;
    assert((size - 1) * threads < links) by (nonlinear_arith)
        requires
            links == threads * quotient + links % threads,
            0 <= links % threads < threads,
            size == (if links % threads == 0 {
                quotient
            } else {
                quotient + 1
            }),
            threads >= 1,
    ;
    assert(threads * size == size * threads) by (nonlinear_arith);
}

} // verus!
