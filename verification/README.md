# hashclock

A verifiable clock built from a BLAKE3 hash chain, with its logic proved in
[Verus](https://github.com/verus-lang/verus).

A generator repeatedly hashes its own output, starting from a hashed seed. Each hash is a **tick**.
Because every tick depends on the one before it, producing `n` ticks takes `n` hash operations one
after another. A verifier can check the whole chain in parallel, so proving that time passed is
cheap even though spending it was not.

- `tick 0 = blake3(seed)` is the genesis tick, and `tick n+1 = blake3(tick n)`.
- Ticks are collected into batches. Consecutive batches overlap by one tick, so that the link
  across every batch boundary can be checked.
- Each batch records how much wall-clock time elapsed while it was being filled.

## Layout

| Path | Purpose |
| --- | --- |
| `src/tick.rs` | The digest that serves as a tick, and the two calls into `blake3`. |
| `src/call.rs` | Calls of functions that are passed as values. |
| `src/chain.rs` | What a hash chain is, and the laws of chains. |
| `src/batch.rs` | Batches, their sequence, and what they join to. |
| `src/generator.rs` | The tick buffer and the settings of a generator. |
| `src/port.rs` | The channel and the stop signal, with a log of their use, and the call into `crossbeam-channel`. |
| `src/send.rs` | When to retry sending a batch, and when to give up. |
| `src/run.rs` | One run of the generator as a state machine. |
| `src/stream.rs` | Why the verifier accepts whatever a run ships. |
| `src/plan.rs` | How a long chain is divided among threads. |
| `src/flag.rs` | The flag that checks on several threads share, with a log of its use. |
| `src/verify.rs` | The verifier. |
| `app/` | Threads, channel, clock and log around the library. |

## What is proved

- `TickVerifier::verify_ticks` returns `true` exactly for chains, and
  `TickVerifier::verify_ticks_batch` exactly for batches in sequence that join to a chain.
- A chain is determined by its first tick, and any other tick that is changed breaks it.
- Every link is in exactly one of the chunks that are handed to threads. What the threads accept is
  a chain, whatever the flag does that they share to stop early. A chain is accepted, and the flag is
  up in the end exactly if some link is broken, for every history of the flag in which what is read
  was stored before.
- In every state of a run, the batches delivered so far are accepted by the verifier and start with
  the genesis tick; no tick is lost between them.
- Sending a batch takes at most eleven attempts. Each offers the same batch for the same time, and is
  followed by a fresh look at the stop signal if it timed out. The channel takes the batch once or
  not at all, and the stop signal is raised exactly if all eleven attempts time out.

The last point, and what is said of the shared flag, speak of the log that `SendPort` and
`SharedFlag` keep of their use: the channel, the stop signal and the flag are private to them, and
each of their methods makes one call and one entry. That a batch which `Sender::send_timeout` of
`crossbeam-channel` answered with `Ok` reaches the receiver, and one answered with an error does not,
is the channel's promise.

Trusted without proof: that `blake3::hash` is a function of its input, that `==` on `blake3::Hash`
compares bytes, and that `Sender::send_timeout` hands back the message that it did not get rid of in
time.
