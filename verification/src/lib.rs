//! Emulation core for the CHIP-8 family of virtual machines (CHIP-8,
//! SuperChip in its modern and legacy variants, and XO-CHIP).
//!
//! The core owns the machine state (registers, memory, stack, timers,
//! keyboard latch, sound buffer) and a two-plane display buffer, and executes
//! one fetch-decode-execute transition per call to `step`. Divergent
//! historical behaviours are reconciled through a table of compatibility
//! quirks selected per mode.

pub mod decode;
pub mod display;
pub mod error;
pub mod laws;
pub mod machine;
pub mod model;
pub mod quirks;
mod rng;
pub mod text;
pub mod transition;
pub mod types;
