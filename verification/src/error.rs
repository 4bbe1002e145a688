//! Fault taxonomy of the execution core. Every fault carries the program
//! counter at the point of detection (already advanced past the faulting
//! opcode) plus fault-specific context.

use vstd::prelude::*;

verus! {

/// The closed set of fault conditions the executor can raise.
#[derive(Debug, PartialEq, Eq)]
pub enum CoreErrorType {
    /// Unrecognized or mode-disallowed instruction: `(pc, opcode)`.
    InvalidOpcode(u16, u16),
    /// Call stack exhausted, or return from an empty stack: `(pc, sp)`.
    StackOverflow(u16, u16),
    /// Index-register arithmetic would move outside the memory bound:
    /// `(pc, ptr)`.
    InvalidMemoryPtr(u16, usize),
    /// A bulk transfer or sprite access would touch memory outside the
    /// bound: `(pc, addr)`.
    InvalidMemoryAccess(u16, usize),
    /// A ROM does not fit at the requested load offset.
    InvalidRom(String),
}

/// A fault surfaced by a core call, fatal to that call only.
#[derive(Debug)]
pub struct CoreError {
    /// Which fault occurred, with its context.
    pub error_type: CoreErrorType,
    /// Free-form diagnostic text for the driver.
    pub info: String,
}

impl CoreError {
    /// Wraps a fault condition together with diagnostic text.
    pub fn new(info: String, error_type: CoreErrorType) -> (r: CoreError)
        ensures
            r.error_type == error_type,
            r.info == info,
    {
        CoreError { info, error_type }
    }
}

} // verus!
