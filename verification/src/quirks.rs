//! Compatibility-quirk table: maps a named interpreter mode to the six
//! behavioural toggles that reconcile divergent historical implementations.

use vstd::prelude::*;

verus! {

/// The four supported compatibility modes.
#[derive(Clone, Copy, Debug, PartialEq, Eq, Structural)]
pub enum Mode {
    Chip8Modern,
    SuperChipModern,
    SuperChipLegacy,
    XoChip,
}

/// One immutable record of behavioural toggles. Selecting a mode replaces
/// the whole record; no partial overrides exist.
#[derive(Clone, Copy, Debug, PartialEq, Eq, Structural)]
pub struct Quirks {
    /// Bitwise `OR`/`AND`/`XOR` clear `v[0xF]` as a side effect.
    pub vf_reset: bool,
    /// Bulk register load/store advances the index register by `x + 1`.
    pub load_store_index_increase: bool,
    /// A draw suspends execution until the next rendered frame.
    pub display_wait: bool,
    /// Sprites clip at the display edge instead of wrapping per pixel.
    pub clipping: bool,
    /// Shift opcodes operate on `v[x]` in place instead of reading `v[y]`.
    pub shifting_vx: bool,
    /// `JP V0,addr` reads `v[x]` instead of `v[0]`.
    pub jump_plus_vx: bool,
}

/// The fixed quirk record belonging to each mode.
pub open spec fn spec_quirks(mode: Mode) -> Quirks {
    match mode {
        Mode::Chip8Modern => Quirks {
            vf_reset: true,
            load_store_index_increase: true,
            display_wait: true,
            clipping: true,
            shifting_vx: false,
            jump_plus_vx: false,
        },
        Mode::SuperChipModern => Quirks {
            vf_reset: false,
            load_store_index_increase: false,
            display_wait: false,
            clipping: true,
            shifting_vx: true,
            jump_plus_vx: true,
        },
        Mode::SuperChipLegacy => Quirks {
            vf_reset: false,
            load_store_index_increase: false,
            display_wait: true,
            clipping: true,
            shifting_vx: true,
            jump_plus_vx: true,
        },
        Mode::XoChip => Quirks {
            vf_reset: false,
            load_store_index_increase: true,
            display_wait: false,
            clipping: false,
            shifting_vx: false,
            jump_plus_vx: false,
        },
    }
}

impl Quirks {
    /// Returns the quirk record for one compatibility mode.
    pub fn new(mode: Mode) -> (r: Quirks)
        ensures
            r == spec_quirks(mode),
    {
        match mode {
            Mode::Chip8Modern => Quirks {
                vf_reset: true,
                load_store_index_increase: true,
                display_wait: true,
                clipping: true,
                shifting_vx: false,
                jump_plus_vx: false,
            },
            Mode::SuperChipModern => Quirks {
                vf_reset: false,
                load_store_index_increase: false,
                display_wait: false,
                clipping: true,
                shifting_vx: true,
                jump_plus_vx: true,
            },
            Mode::SuperChipLegacy => Quirks {
                vf_reset: false,
                load_store_index_increase: false,
                display_wait: true,
                clipping: true,
                shifting_vx: true,
                jump_plus_vx: true,
            },
            Mode::XoChip => Quirks {
                vf_reset: false,
                load_store_index_increase: true,
                display_wait: false,
                clipping: false,
                shifting_vx: false,
                jump_plus_vx: false,
            },
        }
    }
}

} // verus!
