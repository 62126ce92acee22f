//! A deterministic battle simulator for Redcode warriors.
//!
//! Warriors are small assembly-like programs that run side by side in one
//! circular memory array and try to make each other execute a `DAT`.
//! The crate holds the instruction codec, the circular core memory, the
//! per-warrior process queues, the execution engine, the battle controller
//! and an assembler for warrior source text. Each function states what it
//! does in a contract that is proved with Verus.

pub mod assembler;
pub mod engine;
pub mod error;
pub mod invariants;
pub mod listing;
pub mod mars;
pub mod memory;
pub mod modular;
pub mod redcode;
pub mod scheduler;
