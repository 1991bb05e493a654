//! Decoding of proof-carrying inscriptions and the pipeline that verifies them.
//!
//! An inscription carries a reference to the inscription before it, the
//! public inputs of a proof, and the proof. `sov_coin` decodes and encodes
//! that format. `pipeline` is the state machine that takes block digests one
//! by one and, for each, asks for the inscription identifier, the inscription
//! payload and the verdict on the proof, and reports one outcome; `runs`
//! states what holds of it over whole sequences of events. `digest`,
//! `watcher`, `sequencer_utils` and `client` hold what the programs around
//! the pipeline share with it: digests, the answers of the watcher, the
//! public keys of the committee, and the framing of benchmark transactions.

pub mod client;
pub mod digest;
pub mod error;
pub mod pipeline;
pub mod runs;
pub mod sequencer_utils;
pub mod sov_coin;
pub mod watcher;
