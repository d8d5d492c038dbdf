//! Protocol of a stress exerciser for an ordered key-value store.
//!
//! The store holds a dense range of integer keys, each written as eight
//! big-endian bytes, with values cut from one fixed byte pattern. A run
//! verifies what the store holds, deletes every key from the largest down,
//! and then puts keys from 1 up again, a few per write transaction.
//!
//! This crate decides what is written, what is deleted and whether what was
//! read back is sound; talking to the store itself is left to the caller,
//! who hands over the records that a cursor gave and carries out the
//! transactions that the executor hands out.
//!
//! - [`pattern`]: the value pattern.
//! - [`key`]: the key encoding.
//! - [`store`]: a model of the store, its key order and its transactions.
//! - [`verify`]: the verifier and the tail-key locator.
//! - [`executor`]: the batch executor.
//! - [`cycle`]: what the two phases do to the store, taken as a whole.
//! - [`mode`]: the modes of a run.

pub mod cycle;
pub mod executor;
pub mod key;
pub mod mode;
pub mod pattern;
pub mod store;
pub mod verify;
