//! Execution core of a multi-party secure-computation pipeline:
//! additive secret sharing, ElGamal-style threshold decryption over a
//! prime-order group, matchkey reports, a rendezvous store for
//! correlated cross-party messages, message framing, and a typed
//! step/pipeline engine.

pub mod channel;
pub mod codec;
pub mod error;
pub mod events;
pub mod pipeline;
pub mod group;
pub mod report;
pub mod rng;
pub mod share;
pub mod store;
pub mod verbosity;
