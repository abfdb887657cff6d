//! Order-preserving concurrent file search, and two smaller libraries that
//! are built beside it.
//!
//! The search: files are discovered by a walker ([`walker`]), searched by
//! independent workers ([`worker`], with the pattern in [`pattern`]) and put
//! in order by a single reassembler ([`reassembler`]). Workers finish in any
//! order; every result draws a sequence id from the sequencer
//! ([`sequencer`]) at the moment it is completed, and the reassembler
//! releases results strictly in id order. [`stream`] and [`pipeline`] say
//! what a whole run emits and prove that it does not depend on the order in
//! which the workers finish. Threads, channels and the file system are the
//! caller's business: everything here works on plain values.
//!
//! Beside it: the row partitioning of a threaded image generator
//! ([`generator`]), and a pixel game for a small board, with its firmware
//! logic in [`embedded`] and the command reader of its host in [`runner`].

pub mod embedded;
pub mod generator;
pub mod grep_result;
pub mod pattern;
pub mod pipeline;
pub mod reassembler;
pub mod runner;
pub mod sequencer;
pub mod stream;
pub mod walker;
pub mod worker;
