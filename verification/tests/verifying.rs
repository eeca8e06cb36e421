use std::sync::atomic::{AtomicBool, Ordering};
use std::time::Duration;

use hashclock::flag::SharedFlag;
use hashclock::plan::{plan_chunks, Chunk, MIN_LINKS_PER_THREAD};
use hashclock::verify::{ChunkVerdict, LinkCheck};
use hashclock::{hash, Tick, TickBatch, TickVerifier};

fn tick(digest: blake3::Hash) -> Tick {
    Tick::from_bytes(*digest.as_bytes())
}

fn chain(seed: &[u8], len: usize) -> Vec<Tick> {
    let mut digest = blake3::hash(seed);
    let mut ticks = vec![tick(digest)];
    while ticks.len() < len {
        digest = blake3::hash(digest.as_bytes());
        ticks.push(tick(digest));
    }
    ticks
}

fn verify_chunk(chunk: &[Tick], mismatch: &AtomicBool) -> ChunkVerdict {
    TickVerifier::verify_chunk(chunk, &mut SharedFlag::new(mismatch))
}

fn batch(ticks: Vec<Tick>) -> TickBatch {
    TickBatch {
        ticks,
        wall_clock_elapsed: Duration::ZERO,
    }
}

#[test]
fn accepts_valid_chain() {
    assert!(TickVerifier::verify_ticks(&chain(b"seed", 2)));
}

#[test]
fn fails_on_invalid_chain() {
    let mut ticks = chain(b"seed", 2);
    ticks.push(tick(blake3::hash(b"invalid")));
    assert!(!TickVerifier::verify_ticks(&ticks));
}

#[test]
fn works_on_empty_or_single_tick() {
    assert!(TickVerifier::verify_ticks(&[]));
    assert!(TickVerifier::verify_ticks(&chain(b"seed", 1)));
}

#[test]
fn works_on_large_chain() {
    assert!(TickVerifier::verify_ticks(&chain(
        b"seed",
        MIN_LINKS_PER_THREAD * 4
    )));
}

#[test]
fn fails_on_large_invalid_chain() {
    let mut ticks = chain(b"seed", MIN_LINKS_PER_THREAD * 4);
    // Append a tick that is not the hash of its predecessor.
    ticks.push(tick(blake3::hash(b"invalid")));
    assert!(!TickVerifier::verify_ticks(&ticks));
}

#[test]
fn accepts_batches_in_sequence() {
    let ticks = chain(b"seed", 10);
    let batches = vec![
        batch(ticks[..4].to_vec()),
        batch(ticks[3..7].to_vec()),
        batch(ticks[6..].to_vec()),
    ];
    assert!(TickVerifier::verify_ticks_batch(&batches));
    assert!(TickVerifier::verify_ticks_batch(&[]));
}

#[test]
fn rejects_batches_out_of_sequence() {
    let ticks = chain(b"seed", 10);
    let a = batch(ticks[..4].to_vec());
    let b = batch(ticks[3..7].to_vec());
    let c = batch(ticks[6..].to_vec());
    assert!(!TickVerifier::verify_ticks_batch(&[
        a.clone(),
        c.clone(),
        b.clone()
    ]));
    assert!(!TickVerifier::verify_ticks_batch(&[b, a, c]));
}

#[test]
fn rejects_batches_with_a_gap() {
    let ticks = chain(b"seed", 10);
    // Second batch skips the overlap tick.
    let batches = vec![batch(ticks[..4].to_vec()), batch(ticks[4..].to_vec())];
    assert!(!TickVerifier::verify_ticks_batch(&batches));
}

#[test]
fn rejects_batch_with_wrong_last_tick() {
    let mut b = batch(chain(b"seed", 4));
    *b.ticks.last_mut().unwrap() = tick(blake3::hash(b"other"));
    assert!(!TickVerifier::verify_ticks_batch(&[b]));
}

#[test]
fn rejects_batches_with_broken_link_inside() {
    let ticks = chain(b"seed", 10);
    let mut batches = vec![batch(ticks[..4].to_vec()), batch(ticks[3..].to_vec())];
    batches[1].ticks[2] = tick(blake3::hash(b"garbage"));
    assert!(!TickVerifier::verify_ticks_batch(&batches));
}

#[test]
fn hash_is_the_blake3_digest() {
    // The digest of no input, from the test vectors of BLAKE3.
    let empty: [u8; 32] = [
        0xaf, 0x13, 0x49, 0xb9, 0xf5, 0xf9, 0xa1, 0xa6, 0xa0, 0x40, 0x4d, 0xea, 0x36, 0xdc, 0xc9,
        0x49, 0x9b, 0xcb, 0x25, 0xc9, 0xad, 0xc1, 0x12, 0xb7, 0xcc, 0x9a, 0x93, 0xca, 0xe4, 0x1f,
        0x32, 0x62,
    ];
    assert_eq!(hash(b"").as_bytes(), &empty);
    assert_eq!(hash(b"seed").as_bytes(), blake3::hash(b"seed").as_bytes());
}

#[test]
fn ticks_are_equal_if_their_bytes_are() {
    let bytes = [7u8; 32];
    let mut other = bytes;
    other[31] = 8;
    assert_eq!(Tick::from_bytes(bytes), Tick::from_bytes(bytes));
    assert_ne!(Tick::from_bytes(bytes), Tick::from_bytes(other));
}

#[test]
fn a_link_is_judged_by_the_digest() {
    let digest = Tick::from_bytes([1; 32]);
    let other = Tick::from_bytes([2; 32]);
    assert_eq!(TickVerifier::judge_link(&digest, &digest), LinkCheck::Holds);
    assert_eq!(TickVerifier::judge_link(&digest, &other), LinkCheck::Broken);
}

#[test]
fn a_known_mismatch_skips_the_link() {
    let ticks = chain(b"seed", 2);
    assert_eq!(TickVerifier::check_link(&ticks, 1, false), LinkCheck::Holds);
    assert_eq!(TickVerifier::check_link(&ticks, 1, true), LinkCheck::Skipped);
}

#[test]
fn every_corrupted_tick_but_the_first_is_noticed() {
    let ticks = chain(b"seed", 12);
    for i in 1..ticks.len() {
        let mut corrupted = ticks.clone();
        corrupted[i] = tick(blake3::hash(b"garbage"));
        assert!(!TickVerifier::verify_ticks(&corrupted));
    }
}

#[test]
fn parts_of_a_chain_are_chains() {
    let ticks = chain(b"seed", 9);
    for start in 0..=ticks.len() {
        for end in start..=ticks.len() {
            assert!(TickVerifier::verify_ticks(&ticks[start..end]));
        }
    }
}

#[test]
fn chain_is_checked_alike_for_any_number_of_threads() {
    let ticks = chain(b"seed", MIN_LINKS_PER_THREAD * 3 + 2);
    for max_threads in [1, 2, 3, 8] {
        assert!(TickVerifier::verify_ticks_for(&ticks, max_threads));
        for broken in [1, 4096, 4097, 6145, 8193, 12289] {
            let mut corrupted = ticks.clone();
            corrupted[broken] = tick(blake3::hash(b"garbage"));
            assert!(!TickVerifier::verify_ticks_for(&corrupted, max_threads));
        }
    }
}

#[test]
fn chunks_overlap_by_one_tick() {
    assert_eq!(
        plan_chunks(3 * MIN_LINKS_PER_THREAD + 2, 8),
        vec![
            Chunk { start: 0, end: 4098 },
            Chunk { start: 4097, end: 8195 },
            Chunk { start: 8194, end: 12290 },
        ]
    );
}

#[test]
fn chunks_are_limited_by_threads() {
    assert_eq!(
        plan_chunks(4 * MIN_LINKS_PER_THREAD + 1, 2),
        vec![
            Chunk { start: 0, end: 8193 },
            Chunk { start: 8192, end: 16385 },
        ]
    );
    assert_eq!(
        plan_chunks(4 * MIN_LINKS_PER_THREAD + 1, 1),
        vec![Chunk { start: 0, end: 16385 }]
    );
}

#[test]
fn short_chains_are_not_divided() {
    assert!(plan_chunks(0, 4).is_empty());
    assert!(plan_chunks(1, 4).is_empty());
    assert_eq!(plan_chunks(2, 4), vec![Chunk { start: 0, end: 2 }]);
    assert_eq!(
        plan_chunks(2 * MIN_LINKS_PER_THREAD, 4),
        vec![Chunk { start: 0, end: 8192 }]
    );
    assert_eq!(plan_chunks(2 * MIN_LINKS_PER_THREAD + 1, 4).len(), 2);
}

#[test]
fn extreme_plans_do_not_overflow() {
    let chunks = plan_chunks(usize::MAX, 3);
    assert_eq!(chunks.len(), 3);
    assert_eq!(chunks[0].start, 0);
    assert_eq!(chunks[2].end, usize::MAX);
}

#[test]
fn a_mismatch_is_announced() {
    let mut ticks = chain(b"seed", 5);
    let mismatch = AtomicBool::new(false);
    assert_eq!(
        verify_chunk(&ticks, &mismatch),
        ChunkVerdict::Intact
    );
    assert!(!mismatch.load(Ordering::Relaxed));
    ticks[3] = tick(blake3::hash(b"garbage"));
    assert_eq!(
        verify_chunk(&ticks, &mismatch),
        ChunkVerdict::Broken
    );
    assert!(mismatch.load(Ordering::Relaxed));
}

#[test]
fn an_announced_mismatch_ends_the_check() {
    let mismatch = AtomicBool::new(true);
    assert_eq!(
        verify_chunk(&chain(b"seed", 5), &mismatch),
        ChunkVerdict::Abandoned
    );
    assert_eq!(
        verify_chunk(&chain(b"seed", 1), &mismatch),
        ChunkVerdict::Intact
    );
}

#[test]
fn one_broken_chunk_breaks_the_whole() {
    assert!(TickVerifier::combine_verdicts(&[]));
    assert!(TickVerifier::combine_verdicts(&[
        ChunkVerdict::Intact,
        ChunkVerdict::Intact
    ]));
    assert!(!TickVerifier::combine_verdicts(&[ChunkVerdict::Abandoned]));
    assert!(!TickVerifier::combine_verdicts(&[
        ChunkVerdict::Abandoned,
        ChunkVerdict::Broken,
        ChunkVerdict::Intact
    ]));
}

#[test]
fn verdicts_on_chunks_give_the_verdict_on_all_ticks() {
    let mut ticks = chain(b"seed", MIN_LINKS_PER_THREAD * 3);
    ticks[9000] = tick(blake3::hash(b"garbage"));
    let mismatch = AtomicBool::new(false);
    let verdicts: Vec<ChunkVerdict> = plan_chunks(ticks.len(), 2)
        .iter()
        .rev()
        .map(|c| verify_chunk(&ticks[c.start..c.end], &mismatch))
        .collect();
    assert_eq!(
        verdicts,
        vec![ChunkVerdict::Broken, ChunkVerdict::Abandoned]
    );
    assert!(!TickVerifier::combine_verdicts(&verdicts));
}

#[test]
fn joined_batches_are_the_chain() {
    let ticks = chain(b"seed", 10);
    let batches = vec![
        batch(ticks[..4].to_vec()),
        batch(ticks[3..7].to_vec()),
        batch(ticks[6..].to_vec()),
    ];
    assert_eq!(TickVerifier::join_batches(&batches), Some(ticks.clone()));
    assert_eq!(
        TickVerifier::join_batches(&batches[..1]),
        Some(ticks[..4].to_vec())
    );
    let gap = vec![batch(ticks[..4].to_vec()), batch(ticks[4..].to_vec())];
    assert_eq!(TickVerifier::join_batches(&gap), None);
}

#[test]
fn an_empty_batch_breaks_the_sequence() {
    let ticks = chain(b"seed", 4);
    assert!(TickVerifier::verify_ticks_batch(&[batch(vec![])]));
    assert!(!TickVerifier::verify_ticks_batch(&[
        batch(ticks.clone()),
        batch(vec![])
    ]));
    assert!(!TickVerifier::verify_ticks_batch(&[
        batch(vec![]),
        batch(ticks)
    ]));
}

#[test]
fn batch_getters() {
    let b = batch(chain(b"seed", 4));
    assert_eq!(b.len(), 4);
    assert!(!b.is_empty());
    assert_eq!(b.link_count(), 3);
    assert_eq!(b.first_tick(), Some(&tick(blake3::hash(b"seed"))));
    let empty = batch(vec![]);
    assert_eq!(empty.len(), 0);
    assert!(empty.is_empty());
    assert_eq!(empty.link_count(), 0);
    assert_eq!(empty.first_tick(), None);
}

#[test]
fn last_tick_took_one_hash_for_every_link() {
    let ticks = chain(b"seed", 10);
    let batches = vec![batch(ticks[..4].to_vec()), batch(ticks[3..].to_vec())];
    assert!(TickVerifier::verify_ticks_batch(&batches));
    let links: usize = batches.iter().map(TickBatch::link_count).sum();
    assert_eq!(links, 9);
    let mut expected = hash(b"seed");
    for _ in 0..links {
        expected = hash(expected.as_bytes());
    }
    assert_eq!(batches[1].ticks.last(), Some(&expected));
}

#[test]
fn runs_that_share_a_tick_join_to_a_chain() {
    let ticks = chain(b"seed", 8);
    let other = chain(b"other", 4);
    let mut joined = ticks[..5].to_vec();
    joined.extend_from_slice(&ticks[5..]);
    assert!(TickVerifier::verify_ticks(&joined));
    let mut torn = ticks[..5].to_vec();
    torn.extend_from_slice(&other);
    assert!(!TickVerifier::verify_ticks(&torn));
}

#[test]
fn chains_from_one_seed_agree() {
    let short = chain(b"seed", 5);
    let long = chain(b"seed", 9);
    assert_eq!(short[..], long[..5]);
}

#[test]
fn each_link_is_in_one_chunk() {
    let count = 3 * MIN_LINKS_PER_THREAD + 100;
    let chunks = plan_chunks(count, 3);
    assert_eq!(chunks.len(), 3);
    for i in 1..count {
        let holders = chunks.iter().filter(|c| c.start < i && i < c.end).count();
        assert_eq!(holders, 1);
    }
}

#[test]
fn corrupted_batches_are_rejected() {
    let ticks = chain(b"seed", 10);
    let batches = vec![batch(ticks[..4].to_vec()), batch(ticks[3..].to_vec())];
    for k in 0..batches.len() {
        for i in 0..batches[k].len() {
            if k == 0 && i == 0 {
                continue;
            }
            let mut corrupted = batches.clone();
            corrupted[k].ticks[i] = tick(blake3::hash(b"garbage"));
            assert!(!TickVerifier::verify_ticks_batch(&corrupted));
        }
    }
}

#[test]
fn a_raised_flag_stays_up() {
    let mismatch = AtomicBool::new(true);
    assert_eq!(
        verify_chunk(&chain(b"seed", 5), &mismatch),
        ChunkVerdict::Abandoned
    );
    assert!(mismatch.load(Ordering::Relaxed));
}

#[test]
fn a_shared_flag_is_read_and_raised() {
    let flag = AtomicBool::new(false);
    let mut one = SharedFlag::new(&flag);
    let mut other = SharedFlag::new(&flag);
    assert!(!one.is_up());
    other.raise();
    assert!(one.is_up());
    assert!(flag.load(Ordering::Relaxed));
}

#[test]
fn two_chunks_with_one_flag_decide_the_whole() {
    let ticks = chain(b"seed", 7);
    for broken in 0..=ticks.len() {
        let mut checked = ticks.clone();
        if broken < ticks.len() {
            checked[broken] = tick(blake3::hash(b"garbage"));
        }
        let alone = AtomicBool::new(false);
        verify_chunk(&checked, &alone);
        assert_eq!(alone.load(Ordering::Relaxed), broken < ticks.len());
        for cut in 0..checked.len() {
            for left_first in [true, false] {
                let shared = AtomicBool::new(false);
                if left_first {
                    verify_chunk(&checked[..=cut], &shared);
                    verify_chunk(&checked[cut..], &shared);
                } else {
                    verify_chunk(&checked[cut..], &shared);
                    verify_chunk(&checked[..=cut], &shared);
                }
                assert_eq!(
                    shared.load(Ordering::Relaxed),
                    alone.load(Ordering::Relaxed)
                );
            }
        }
    }
}
