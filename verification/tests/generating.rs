use std::sync::atomic::{AtomicBool, Ordering};
use std::time::Duration;

use crossbeam_channel::{bounded, Receiver, Sender};
use hashclock::generator::{TickBuffer, TICK_BUFFER_CAPACITY, TICK_CHANNEL_CAPACITY};
use hashclock::port::{Offer, SendPort};
use hashclock::run::{PollAction, RunPhase, SendAction};
use hashclock::send::{
    GiveUpCause, SendAttempts, SendOutcome, SendVerdict, MAX_STALLS, SEND_POLL_INTERVAL_MS,
};
use hashclock::{Tick, TickBatch, TickGenerator, TickRun, TickVerifier};

fn tick(digest: blake3::Hash) -> Tick {
    Tick::from_bytes(*digest.as_bytes())
}

fn channel(generator: &TickGenerator) -> (Sender<TickBatch>, Receiver<TickBatch>) {
    bounded(generator.channel_capacity())
}

/// Polls a run until a batch is due, and takes the batch.
fn next_batch(run: &mut TickRun) -> TickBatch {
    while run.poll(false) == PollAction::Poll {}
    run.flush(Duration::from_millis(1))
}

fn collect_from(generator: TickGenerator, batches: usize) -> Vec<TickBatch> {
    let (sender, receiver) = channel(&generator);
    let stop = AtomicBool::new(false);
    let mut run = TickRun::new(&generator);
    (0..batches)
        .map(|_| {
            let batch = next_batch(&mut run);
            assert_eq!(run.send(&mut SendPort::new(&sender, &stop), batch), SendAction::Resume);
            run.resume();
            receiver.recv().unwrap()
        })
        .collect()
}

fn collect(seed: &[u8], batches: usize) -> Vec<TickBatch> {
    collect_from(TickGenerator::new(seed), batches)
}

#[test]
fn links_are_continuous_within_a_batch() {
    for batch in collect(b"seed", 3) {
        assert!(TickVerifier::verify_ticks(&batch.ticks));
        assert_eq!(batch.ticks.len(), TICK_BUFFER_CAPACITY);
    }
}

#[test]
fn batches_overlap_by_one_tick() {
    let batches = collect(b"seed", 3);
    for pair in batches.windows(2) {
        assert_eq!(pair[0].ticks.last(), pair[1].ticks.first());
    }
}

#[test]
fn first_tick_is_the_hashed_seed() {
    let batches = collect(b"seed", 1);
    assert_eq!(batches[0].ticks[0], tick(blake3::hash(b"seed")));
}

#[test]
fn genesis_matches_first_tick() {
    let seed = String::from("owned seed");
    let generator = TickGenerator::new(seed.as_bytes());
    let genesis = generator.genesis();
    let batches = collect_from(generator, 1);
    assert_eq!(batches[0].first_tick(), Some(&genesis));
}

#[test]
fn custom_capacity_is_honoured() {
    let generator = TickGenerator::with_capacity(b"seed", 16, 4);
    assert_eq!(generator.channel_capacity(), 4);
    let batches = collect_from(generator, 1);
    let batch = &batches[0];
    assert_eq!(batch.ticks.len(), 16);
    assert_eq!(batch.ticks.len() - 1, 15);
}

#[test]
fn stops_even_when_nobody_is_reading() {
    let generator = TickGenerator::new(b"seed");
    let (sender, receiver) = channel(&generator);
    let stop = AtomicBool::new(true);
    let mut run = TickRun::new(&generator);
    // The receiver is there but idle: the channel fills, and the stop signal must end the run.
    let mut shipped: usize = 0;
    loop {
        let batch = next_batch(&mut run);
        match run.send(&mut SendPort::new(&sender, &stop), batch) {
            SendAction::Resume => {
                run.resume();
                shipped += 1;
            }
            action => {
                assert_eq!(
                    action,
                    SendAction::GiveUp {
                        cause: GiveUpCause::StopRequested
                    }
                );
                break;
            }
        }
    }
    assert_eq!(run.phase(), RunPhase::Finished);
    assert_eq!(shipped, TICK_CHANNEL_CAPACITY);
    drop(sender);
    let batches: Vec<TickBatch> = receiver.iter().collect();
    assert_eq!(batches.len(), TICK_CHANNEL_CAPACITY);
    assert!(TickVerifier::verify_ticks_batch(&batches));
}

#[test]
fn stops_when_receiver_is_dropped() {
    let generator = TickGenerator::new(b"seed");
    let (sender, receiver) = channel(&generator);
    let stop = AtomicBool::new(false);
    let mut run = TickRun::new(&generator);
    drop(receiver);
    // Stop signal never raised: disconnection alone must end the run.
    let batch = next_batch(&mut run);
    assert_eq!(
        run.send(&mut SendPort::new(&sender, &stop), batch),
        SendAction::GiveUp {
            cause: GiveUpCause::Disconnected
        }
    );
    assert_eq!(run.phase(), RunPhase::Finished);
}

#[test]
fn default_capacities() {
    let generator = TickGenerator::new(b"seed");
    assert_eq!(generator.buffer_capacity(), 1024);
    assert_eq!(generator.channel_capacity(), 64);
    assert_eq!(generator.genesis(), tick(blake3::hash(b"seed")));
}

#[test]
fn generator_starts_from_a_given_tick() {
    let genesis = Tick::from_bytes([9; 32]);
    let generator = TickGenerator::from_genesis(genesis, 2, 1);
    assert_eq!(generator.genesis(), genesis);
    let batches = collect_from(generator, 2);
    let second = tick(blake3::hash(&[9; 32]));
    let third = tick(blake3::hash(second.as_bytes()));
    assert_eq!(batches[0].ticks, vec![genesis, second]);
    assert_eq!(batches[1].ticks, vec![second, third]);
}

#[test]
fn collected_batches_are_accepted() {
    for capacity in [2, 3, 16] {
        let batches = collect_from(TickGenerator::with_capacity(b"seed", capacity, 1), 5);
        assert!(TickVerifier::verify_ticks_batch(&batches));
        let ticks = TickVerifier::join_batches(&batches).unwrap();
        assert_eq!(ticks.len(), 5 * (capacity - 1) + 1);
    }
}

#[test]
fn batch_size_leaves_no_trace_in_the_chain() {
    let small = collect_from(TickGenerator::with_capacity(b"seed", 4, 1), 5);
    let large = collect_from(TickGenerator::with_capacity(b"seed", 16, 1), 1);
    assert_eq!(
        TickVerifier::join_batches(&small),
        TickVerifier::join_batches(&large)
    );
}

#[test]
fn elapsed_time_travels_with_the_batch() {
    let mut run = TickRun::new(&TickGenerator::with_capacity(b"seed", 2, 1));
    assert_eq!(run.poll(false), PollAction::Poll);
    assert_eq!(run.poll(false), PollAction::Flush);
    let batch = run.flush(Duration::from_millis(42));
    assert_eq!(batch.wall_clock_elapsed, Duration::from_millis(42));
}

#[test]
fn last_batch_is_flushed_if_it_has_a_link() {
    let mut run = TickRun::new(&TickGenerator::with_capacity(b"seed", 8, 1));
    assert_eq!(run.poll(false), PollAction::Poll);
    assert_eq!(run.poll(false), PollAction::Poll);
    assert_eq!(run.poll(true), PollAction::Flush);
    assert_eq!(run.phase(), RunPhase::Flushing { closing: true });
    let batch = run.flush(Duration::ZERO);
    assert_eq!(batch.len(), 3);
    assert!(TickVerifier::verify_ticks(&batch.ticks));
    assert_eq!(run.phase(), RunPhase::Sending { closing: true });
    assert_eq!(
        run.on_send(SendOutcome::Delivered),
        SendAction::Close
    );
    assert_eq!(run.phase(), RunPhase::Finished);
}

#[test]
fn a_lone_tick_is_not_flushed() {
    let mut run = TickRun::new(&TickGenerator::new(b"seed"));
    assert_eq!(run.phase(), RunPhase::Filling);
    assert_eq!(run.poll(true), PollAction::Finish);
    assert_eq!(run.phase(), RunPhase::Finished);
}

#[test]
fn a_stalled_receiver_raises_the_stop_signal() {
    let mut run = TickRun::new(&TickGenerator::with_capacity(b"seed", 2, 1));
    let _batch = next_batch(&mut run);
    let stall = SendOutcome::TimedOut {
        stop_requested: false,
    };
    for _ in 0..MAX_STALLS {
        assert_eq!(run.on_send(stall), SendAction::Retry);
    }
    assert_eq!(
        run.on_send(stall),
        SendAction::GiveUp {
            cause: GiveUpCause::Stalled
        }
    );
    assert_eq!(run.phase(), RunPhase::Finished);
}

#[test]
fn stalls_are_counted_for_each_batch() {
    let mut run = TickRun::new(&TickGenerator::with_capacity(b"seed", 2, 1));
    let stall = SendOutcome::TimedOut {
        stop_requested: false,
    };
    for _ in 0..3 {
        let _batch = next_batch(&mut run);
        for _ in 0..MAX_STALLS {
            assert_eq!(run.on_send(stall), SendAction::Retry);
        }
        assert_eq!(run.on_send(SendOutcome::Delivered), SendAction::Resume);
        run.resume();
    }
}

#[test]
fn tolerated_stalls_last_about_a_second() {
    assert_eq!(MAX_STALLS as u64 * SEND_POLL_INTERVAL_MS, 1000);
}

#[test]
fn verdicts_on_attempts() {
    let mut attempts = SendAttempts::new();
    assert_eq!(
        attempts.record(SendOutcome::TimedOut {
            stop_requested: false
        }),
        SendVerdict::Retry
    );
    assert_eq!(
        attempts.record(SendOutcome::TimedOut {
            stop_requested: true
        }),
        SendVerdict::GiveUp {
            cause: GiveUpCause::StopRequested
        }
    );
    assert_eq!(
        SendAttempts::new().record(SendOutcome::Disconnected),
        SendVerdict::GiveUp {
            cause: GiveUpCause::Disconnected
        }
    );
    assert_eq!(
        SendAttempts::new().record(SendOutcome::Delivered),
        SendVerdict::Sent
    );
}

#[test]
fn buffer_keeps_the_overlap_tick() {
    let a = Tick::from_bytes([1; 32]);
    let b = Tick::from_bytes([2; 32]);
    let mut buffer = TickBuffer::new(2);
    assert!(buffer.flush(Duration::ZERO).is_none());
    assert_eq!(buffer.last(), None);
    buffer.push(a);
    assert!(!buffer.is_full());
    buffer.push(b);
    assert!(buffer.is_full());
    let batch = buffer.flush(Duration::from_secs(3)).unwrap();
    assert_eq!(batch.ticks, vec![a, b]);
    assert_eq!(batch.wall_clock_elapsed, Duration::from_secs(3));
    assert_eq!(buffer.len(), 1);
    assert_eq!(buffer.last(), Some(&b));
}

#[test]
fn a_full_buffer_grows() {
    let a = Tick::from_bytes([1; 32]);
    let mut buffer = TickBuffer::new(1);
    buffer.push(a);
    buffer.push(a);
    assert_eq!(buffer.len(), 2);
    assert!(buffer.is_full());
}

#[test]
fn a_stopped_run_offers_nothing_twice() {
    for closing in [false, true] {
        let mut run = TickRun::new(&TickGenerator::with_capacity(b"seed", 4, 1));
        assert_eq!(run.poll(false), PollAction::Poll);
        if closing {
            assert_eq!(run.poll(true), PollAction::Flush);
        } else {
            while run.poll(false) == PollAction::Poll {}
        }
        let _batch = run.flush(Duration::ZERO);
        assert_eq!(
            run.on_send(SendOutcome::TimedOut {
                stop_requested: true
            }),
            SendAction::GiveUp {
                cause: GiveUpCause::StopRequested
            }
        );
        assert_eq!(run.phase(), RunPhase::Finished);
    }
}

#[test]
fn nothing_is_lost_between_batches() {
    let generator = TickGenerator::with_capacity(b"seed", 3, 1);
    let mut run = TickRun::new(&generator);
    let mut batches: Vec<TickBatch> = Vec::new();
    for _ in 0..4 {
        batches.push(next_batch(&mut run));
        assert_eq!(run.on_send(SendOutcome::Delivered), SendAction::Resume);
        run.resume();
    }
    // The tick that was added after the last delivery is all that the closing batch adds.
    assert_eq!(run.poll(true), PollAction::Flush);
    batches.push(run.flush(Duration::ZERO));
    assert_eq!(batches[4].len(), 2);
    assert!(TickVerifier::verify_ticks_batch(&batches));
    assert_eq!(TickVerifier::join_batches(&batches).unwrap().len(), 10);
}

#[test]
fn a_full_channel_ends_the_run_and_raises_the_stop_signal() {
    let generator = TickGenerator::with_capacity(b"seed", 2, 1);
    let (sender, receiver) = channel(&generator);
    let stop = AtomicBool::new(false);
    let mut run = TickRun::new(&generator);
    let first = next_batch(&mut run);
    assert_eq!(run.send(&mut SendPort::new(&sender, &stop), first.clone()), SendAction::Resume);
    assert_eq!(run.phase(), RunPhase::Resuming);
    run.resume();
    assert_eq!(run.phase(), RunPhase::Filling);
    let second = next_batch(&mut run);
    assert_eq!(
        run.send(&mut SendPort::new(&sender, &stop), second),
        SendAction::GiveUp {
            cause: GiveUpCause::Stalled
        }
    );
    assert!(stop.load(Ordering::Relaxed));
    assert_eq!(run.stall_count(), MAX_STALLS + 1);
    assert_eq!(run.phase(), RunPhase::Finished);
    drop(sender);
    let batches: Vec<TickBatch> = receiver.iter().collect();
    assert_eq!(batches.len(), 1);
    assert_eq!(batches[0].ticks, first.ticks);
}

#[test]
fn closing_batch_is_sent_and_ends_the_run() {
    let generator = TickGenerator::with_capacity(b"seed", 8, 1);
    let (sender, receiver) = channel(&generator);
    let stop = AtomicBool::new(true);
    let mut run = TickRun::new(&generator);
    assert_eq!(run.poll(false), PollAction::Poll);
    assert_eq!(run.poll(true), PollAction::Flush);
    let batch = run.flush(Duration::from_millis(7));
    assert_eq!(
        run.send(&mut SendPort::new(&sender, &stop), batch),
        SendAction::Close
    );
    let received = receiver.recv().unwrap();
    assert_eq!(received.len(), 2);
    assert_eq!(received.wall_clock_elapsed, Duration::from_millis(7));
    assert!(TickVerifier::verify_ticks(&received.ticks));
}

#[test]
fn an_offer_is_taken_handed_back_or_refused() {
    let generator = TickGenerator::with_capacity(b"seed", 2, 1);
    let (sender, receiver) = channel(&generator);
    let batch = next_batch(&mut TickRun::new(&generator));
    let stop = AtomicBool::new(false);
    let mut port = SendPort::new(&sender, &stop);
    assert!(matches!(port.offer(batch.clone(), 1), Offer::Taken));
    match port.offer(batch.clone(), 1) {
        Offer::Full(unsent) => {
            assert_eq!(unsent.ticks, batch.ticks);
            assert_eq!(unsent.wall_clock_elapsed, batch.wall_clock_elapsed);
        }
        other => panic!("the channel has room for one batch only: {other:?}"),
    }
    assert_eq!(receiver.recv().unwrap().ticks, batch.ticks);
    drop(receiver);
    assert!(matches!(port.offer(batch, 1), Offer::Disconnected));
}

#[test]
fn a_port_reads_and_raises_the_stop_signal() {
    let generator = TickGenerator::new(b"seed");
    let (sender, _receiver) = channel(&generator);
    let stop = AtomicBool::new(false);
    let mut port = SendPort::new(&sender, &stop);
    assert!(!port.stop_requested());
    port.raise();
    assert!(port.stop_requested());
    assert!(stop.load(Ordering::Relaxed));
}

#[test]
fn a_lost_receiver_leaves_the_stop_signal_alone() {
    let generator = TickGenerator::with_capacity(b"seed", 2, 1);
    let (sender, receiver) = channel(&generator);
    let stop = AtomicBool::new(false);
    let mut run = TickRun::new(&generator);
    assert_eq!(run.stall_count(), 0);
    let batch = next_batch(&mut run);
    drop(receiver);
    assert_eq!(
        run.send(&mut SendPort::new(&sender, &stop), batch),
        SendAction::GiveUp {
            cause: GiveUpCause::Disconnected
        }
    );
    assert!(!stop.load(Ordering::Relaxed));
}

#[test]
fn a_sent_batch_leaves_the_stop_signal_alone() {
    let generator = TickGenerator::with_capacity(b"seed", 2, 1);
    let (sender, _receiver) = channel(&generator);
    let stop = AtomicBool::new(false);
    let mut run = TickRun::new(&generator);
    let batch = next_batch(&mut run);
    assert_eq!(run.send(&mut SendPort::new(&sender, &stop), batch), SendAction::Resume);
    assert_eq!(run.stall_count(), 0);
    assert!(!stop.load(Ordering::Relaxed));
}
