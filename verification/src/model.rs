//! Mathematical model of the machine state: the ghost view that every
//! contract of the execution core speaks about, plus the small arithmetic
//! helpers shared by the transition specifications.

use crate::quirks::Quirks;
use vstd::prelude::*;

verus! {

/// The model of the whole machine state. `Chip8::view` projects the
/// executable state onto this.
#[verifier::ext_equal]
pub ghost struct CoreView {
    /// The 65,536-byte addressable memory.
    pub memory: Seq<u8>,
    /// The sixteen 8-bit general registers; `v[0xF]` doubles as the flag
    /// register.
    pub v: Seq<u8>,
    /// The SuperChip persistent flag registers.
    pub rpl: Seq<u8>,
    /// The sixteen call-return slots.
    pub stack: Seq<u16>,
    /// Stack depth: 0 is empty, 16 is full.
    pub sp: u16,
    /// Program counter.
    pub pc: u16,
    /// Index register.
    pub i: u16,
    /// Delay timer.
    pub dt: u8,
    /// Sound timer.
    pub st: u8,
    /// One latch per key of the 16-key pad.
    pub keyboard: Seq<bool>,
    /// Execution is suspended until a latched key is released.
    pub halted_for_input: bool,
    /// Register that receives the key code resolving a halt-for-input.
    pub halt_input_register: u8,
    /// Execution is suspended until the next rendered frame.
    pub waiting_for_vblank: bool,
    /// SuperChip opcodes are legal.
    pub super_chip_enabled: bool,
    /// High-resolution display mode.
    pub hires_mode: bool,
    /// Two-bit mask of the planes affected by draw, scroll and clear.
    pub bit_plane_selector: u8,
    /// The active compatibility-quirk record.
    pub quirks: Quirks,
    /// Sound pattern playback rate byte.
    pub sound_pitch: u8,
    /// The 16-byte sound waveform pattern.
    pub sound_pattern: Seq<u8>,
    /// The sound buffer has changed since it was last consumed.
    pub sound_dirty: bool,
    /// The display planes, each a flat 64x128 grid of cells.
    pub screen: Seq<Seq<bool>>,
}

impl CoreView {
    /// Structural validity: every aggregate has its fixed size and the
    /// stack depth is in range.
    pub open spec fn wf(self) -> bool {
        &&& self.memory.len() == 65536
        &&& self.v.len() == 16
        &&& self.rpl.len() == 16
        &&& self.stack.len() == 16
        &&& self.keyboard.len() == 16
        &&& self.sp <= 16
        &&& self.sound_pattern.len() == 16
        &&& self.screen.len() == 2
        &&& forall|l: int| 0 <= l < 2 ==> (#[trigger] self.screen[l]).len() == 8192
    }

    /// A step call performs a transition (rather than returning at once).
    pub open spec fn ready(self) -> bool {
        !self.halted_for_input && !self.waiting_for_vblank
    }
}

/// 16-bit wrap-around of address arithmetic.
pub open spec fn wrap16(x: int) -> u16 {
    (x % 0x10000) as u16
}

/// The big-endian 16-bit word at `pc` (the second byte read at the
/// wrapped successor address).
pub open spec fn word_at(mem: Seq<u8>, pc: u16) -> u16 {
    ((mem[pc as int] as int) * 256 + (mem[wrap16(pc as int + 1) as int] as int)) as u16
}

/// Whether draw, scroll and clear affect plane `l` under selector `sel`.
pub open spec fn plane_selected(sel: u8, l: int) -> bool {
    if l == 0 {
        sel % 2 == 1
    } else {
        (sel / 2) % 2 == 1
    }
}

/// 8-bit wrapping sum.
pub open spec fn add8(a: u8, b: u8) -> u8 {
    ((a + b) % 256) as u8
}

/// Carry flag of an 8-bit add: 1 on overflow.
pub open spec fn carry8(a: u8, b: u8) -> u8 {
    if a + b > 255 {
        1
    } else {
        0
    }
}

/// 8-bit wrapping difference `a - b`.
pub open spec fn sub8(a: u8, b: u8) -> u8 {
    if a >= b {
        (a - b) as u8
    } else {
        (a - b + 256) as u8
    }
}

/// Borrow flag of an 8-bit subtract, inverted: 1 when no borrow occurred.
pub open spec fn noborrow8(a: u8, b: u8) -> u8 {
    if a >= b {
        1
    } else {
        0
    }
}

/// 8-bit wrapping doubling (left shift by one).
pub open spec fn shl8(a: u8) -> u8 {
    ((a * 2) % 256) as u8
}

/// Bit `k` of a byte counted from the most significant bit.
pub open spec fn msb_bit8(b: u8, k: int) -> bool {
    if k == 0 {
        (b / 128) % 2 == 1
    } else if k == 1 {
        (b / 64) % 2 == 1
    } else if k == 2 {
        (b / 32) % 2 == 1
    } else if k == 3 {
        (b / 16) % 2 == 1
    } else if k == 4 {
        (b / 8) % 2 == 1
    } else if k == 5 {
        (b / 4) % 2 == 1
    } else if k == 6 {
        (b / 2) % 2 == 1
    } else {
        b % 2 == 1
    }
}

/// Bit `k` of a 16-bit word counted from the most significant bit:
/// bits 0..8 come from the high byte, bits 8..16 from the low byte.
pub open spec fn msb_bit16(hi: u8, lo: u8, k: int) -> bool {
    if k < 8 {
        msb_bit8(hi, k)
    } else {
        msb_bit8(lo, k - 8)
    }
}

} // verus!
