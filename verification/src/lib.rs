//! BLAKE3 hash chain as a verifiable clock: a [`TickRun`] of a [`TickGenerator`] produces ticks in
//! [`TickBatch`]es, a [`TickVerifier`] checks them.
//!
//! - [`tick`]: the BLAKE3 digest that serves as a tick.
//! - [`chain`]: what a hash chain is.
//! - [`batch`]: batches of ticks that overlap by one.
//! - [`generator`]: the buffer that ticks are collected in, and the settings of a generator.
//! - [`send`]: when to retry sending a batch, and when to give up.
//! - [`channel`]: the sending end of the channel, with the calls made on it.
//! - [`port`]: the channel and the stop signal, with a log of their use.
//! - [`run`]: one run of the generator, from the first tick to the last batch.
//! - [`stream`]: why what a run ships is accepted by the verifier.
//! - [`plan`]: how a long chain is divided among threads.
//! - [`flag`]: the flag that checks on several threads share, with a log of its use.
//! - [`verify`]: the verifier.

pub mod batch;
mod call;
pub mod chain;
pub mod channel;
pub mod flag;
pub mod generator;
pub mod plan;
pub mod port;
pub mod run;
pub mod send;
pub mod stream;
pub mod tick;
pub mod verify;

pub use batch::TickBatch;
pub use generator::TickGenerator;
pub use run::TickRun;
pub use tick::{hash, Tick};
pub use verify::TickVerifier;
