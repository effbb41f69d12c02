//! A bounded worker-thread pool, verified as an explicit protocol.
//!
//! The pool owns a fixed set of workers that claim one-shot jobs from a
//! multi-producer FIFO channel and run each job exactly once.  This crate
//! states and proves the pool's coordination protocol: the channel's
//! delivery contract, each worker's lifecycle, the submission gate, and the
//! shutdown drain.  Jobs are identified by their submission index; the
//! payloads themselves (arbitrary one-shot callables) are carried by the
//! unverified runtime layer that spawns the OS threads and hands every
//! decision to the functions in this crate.
//!
//! The crate also carries a handful of small verified utility functions on
//! strings and vectors.

pub mod borrowing;
pub mod channel;
pub mod errors;
pub mod ownership;
pub mod pool;
pub mod worker;
