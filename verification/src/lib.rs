//! A bounded, lock-free, multi-producer / multi-consumer FIFO queue over a
//! fixed ring of atomic cells.
//!
//! Every cell holds a lap counter and an item word that change together in
//! one compare-and-swap. The counter tells the laps of the ring apart, so a
//! producer or consumer that starts from a stale index still finds the one
//! cell that is the head or the tail.
//!
//! - `utils`: index and counter arithmetic, and the two encodings of a cell.
//! - `components`: the cells, over atomics, and the buffers that hold them.
//! - `probe`: what a call does after one look at two neighbouring cells
//!   and after the answer of a swap, stated exactly.
//! - `arrayqueue`: the ring and the two queues built on it.
//! - `model`: a model of the ring at rest, built from the spec functions of
//!   `probe`, and the proof that in it undisturbed calls keep the order
//!   first in, first out, from any hints.
//! - `swaps`: a model of the cells under any interleaving of the swaps that
//!   `probe` hands out, and the proof that in it no item comes twice or out
//!   of nothing.
//!
//! The calls of the queue read and swap atomics that other threads write,
//! so their own contracts state what holds of every outcome. The two
//! models say what the decisions of `probe` amount to; their lemmas are
//! about the models, not about the atomics.

pub mod arrayqueue;
pub mod components;
pub mod model;
pub mod probe;
pub mod swaps;
pub mod utils;
