//! Verification of rollup batches.
//!
//! A batch is a committed, ordered group of consecutive blocks. This library
//! decodes a committed batch, builds the same batch again from the blocks
//! that are to be replayed, checks what replaying each block gave against the
//! roots claimed for it, and binds the batch's hash to the resulting state
//! transition in one proof of execution.
//!
//! * [`layout`] states the committed form of a batch and the rules a batch
//!   keeps, as functions on sequences; [`parse`], [`rules`], [`encode`],
//!   [`assemble`] and [`batch`] implement them, and [`batch::BatchTask`] is
//!   the batch itself.
//! * [`commit`] holds what comes from outside: the Keccak-256 digest, the
//!   Zstandard compressor and the KZG commitment. Their results are named,
//!   not computed, in contracts. [`compat`] checks a compressed stream.
//! * [`hardfork`] tells the batch version in force at a block.
//! * [`parallel`] coordinates a bounded number of operations over an ordered
//!   list of items and keeps their results in the order of the items.
//! * [`context`] and [`batch_verifier`] hold the inputs and outputs of a
//!   replay and the verifier's decisions.
//! * [`error`] holds the errors, [`laws`] what holds of every batch and run.
//!
//! The library performs no input or output and starts no thread. Fetching
//! traces and replaying blocks is done by its caller, which reports to the
//! library what came back.

pub mod assemble;
pub mod batch;
pub mod batch_verifier;
pub mod commit;
pub mod compat;
pub mod context;
pub mod encode;
pub mod error;
pub mod hardfork;
pub mod laws;
pub mod layout;
pub mod parallel;
pub mod parse;
pub mod primitives;
pub mod rules;
