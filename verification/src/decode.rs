//! Instruction decoding: bit-field extraction from a 16-bit opcode and the
//! structured instruction value the executor dispatches on.

use vstd::prelude::*;

verus! {

/// The `x` register-index field: bits 8..12 of the opcode.
pub open spec fn op_x(op: u16) -> u8 {
    ((op / 0x100) % 0x10) as u8
}

/// The `y` register-index field: bits 4..8 of the opcode.
pub open spec fn op_y(op: u16) -> u8 {
    ((op / 0x10) % 0x10) as u8
}

/// The `n` nibble field: bits 0..4 of the opcode.
pub open spec fn op_n(op: u16) -> u8 {
    (op % 0x10) as u8
}

/// The `kk` byte field: bits 0..8 of the opcode.
pub open spec fn op_kk(op: u16) -> u8 {
    (op % 0x100) as u8
}

/// The `nnn` address field: bits 0..12 of the opcode.
pub open spec fn op_nnn(op: u16) -> u16 {
    op % 0x1000
}

/// The high dispatch nibble: bits 12..16 of the opcode.
pub open spec fn op_hi(op: u16) -> u16 {
    op / 0x1000
}

/// One decoded instruction. Register-index payloads are the `x`/`y`
/// nibbles (always below 16); address payloads are the 12-bit `nnn` field.
#[derive(Clone, Copy, Debug, PartialEq, Eq, Structural)]
pub enum Instr {
    /// `00Cn`: scroll the selected planes down `n` rows (doubled in
    /// low-res mode). SuperChip only.
    ScrollDown(u8),
    /// `00Dn`: scroll the selected planes up `n` rows (doubled in low-res
    /// mode). XO-CHIP.
    ScrollUp(u8),
    /// `00E0`: clear the selected planes.
    Cls,
    /// `00EE`: return from a call.
    Ret,
    /// `00FB`: scroll the selected planes right 4 columns (8 in low-res
    /// mode). SuperChip only.
    ScrollRight,
    /// `00FC`: scroll the selected planes left 4 columns (8 in low-res
    /// mode). SuperChip only.
    ScrollLeft,
    /// `00FE`: leave high-resolution mode and clear both planes.
    /// SuperChip only.
    LoresMode,
    /// `00FF`: enter high-resolution mode and clear both planes.
    /// SuperChip only.
    HiresMode,
    /// `1nnn`: jump.
    Jump(u16),
    /// `2nnn`: call a subroutine.
    Call(u16),
    /// `3xkk`: skip the next instruction if `v[x] == kk`.
    SkipEqImm(u8, u8),
    /// `4xkk`: skip the next instruction if `v[x] != kk`.
    SkipNeImm(u8, u8),
    /// `5xy0`: skip the next instruction if `v[x] == v[y]`.
    SkipEqReg(u8, u8),
    /// `5xy2`: store the inclusive register range `x..y` to memory at `i`.
    /// XO-CHIP.
    StoreRange(u8, u8),
    /// `5xy3`: load the inclusive register range `x..y` from memory at
    /// `i`. XO-CHIP.
    LoadRange(u8, u8),
    /// `6xkk`: load `kk` into `v[x]`.
    LoadImm(u8, u8),
    /// `7xkk`: add `kk` to `v[x]`, wrapping, flag untouched.
    AddImm(u8, u8),
    /// `8xy0`: move `v[y]` into `v[x]`.
    Move(u8, u8),
    /// `8xy1`: bitwise or.
    Or(u8, u8),
    /// `8xy2`: bitwise and.
    And(u8, u8),
    /// `8xy3`: bitwise xor.
    Xor(u8, u8),
    /// `8xy4`: wrapping add with carry flag.
    Add(u8, u8),
    /// `8xy5`: wrapping subtract with no-borrow flag.
    Sub(u8, u8),
    /// `8xy6`: shift right by one, shifted-out bit to the flag.
    Shr(u8, u8),
    /// `8xy7`: reversed wrapping subtract with no-borrow flag.
    Subn(u8, u8),
    /// `8xyE`: shift left by one, shifted-out bit to the flag.
    Shl(u8, u8),
    /// `9xy0`: skip the next instruction if `v[x] != v[y]`.
    SkipNeReg(u8, u8),
    /// `Annn`: load `nnn` into the index register.
    LoadI(u16),
    /// `Bnnn`: jump to `v[0] + nnn` (`v[x] + nnn` under the jump quirk).
    JumpV0(u8, u16),
    /// `Cxkk`: random byte masked with `kk` into `v[x]`.
    Rand(u8, u8),
    /// `Dxyn`: draw a sprite of `n` rows (a 16x16 sprite when `n == 0` in
    /// high-res mode).
    Draw(u8, u8, u8),
    /// `Ex9E`: skip the next instruction if key `v[x]` is pressed.
    SkipKey(u8),
    /// `ExA1`: skip the next instruction if key `v[x]` is not pressed.
    SkipNoKey(u8),
    /// `F000 nnnn`: load the following memory word into the index
    /// register. XO-CHIP.
    WideLoadI,
    /// `F002`: load the 16-byte pattern at `i` into the sound buffer.
    /// XO-CHIP.
    LoadAudio,
    /// `Fx01`: select the bit planes affected by draw/scroll/clear.
    /// XO-CHIP.
    SelectPlanes(u8),
    /// `Fx07`: read the delay timer into `v[x]`.
    ReadDelay(u8),
    /// `Fx0A`: halt until a key is released, storing it into `v[x]`.
    WaitKey(u8),
    /// `Fx15`: load `v[x]` into the delay timer.
    SetDelay(u8),
    /// `Fx18`: load `v[x]` into the sound timer.
    SetSound(u8),
    /// `Fx1E`: add `v[x]` to the index register, faulting past the memory
    /// bound.
    AddI(u8),
    /// `Fx29`: point the index register at the 5-byte glyph of digit
    /// `v[x]`.
    Font(u8),
    /// `Fx30`: point the index register at the 10-byte glyph of digit
    /// `v[x]`. SuperChip only.
    BigFont(u8),
    /// `Fx33`: store the three decimal digits of `v[x]` at `i`.
    Bcd(u8),
    /// `Fx3A`: load `v[x]` into the sound pitch. XO-CHIP.
    SetPitch(u8),
    /// `Fx55`: store `v[0]..=v[x]` to memory at `i`.
    StoreRegs(u8),
    /// `Fx65`: load `v[0]..=v[x]` from memory at `i`.
    LoadRegs(u8),
    /// `Fx75`: store `v[x]` into the RPL flag bank. SuperChip only.
    StoreRpl(u8),
    /// `Fx85`: load `v[x]` from the RPL flag bank. SuperChip only.
    LoadRpl(u8),
    /// No known form.
    Invalid,
}

/// The instruction encoded by an opcode. Mode legality (SuperChip gating,
/// the RPL index bound) is the executor's business, not the decoder's.
pub open spec fn spec_decode(op: u16) -> Instr {
    let hi = op_hi(op);
    let x = op_x(op);
    let y = op_y(op);
    let n = op_n(op);
    let kk = op_kk(op);
    let nnn = op_nnn(op);
    if hi == 0x0 {
        if 0xC0 <= nnn <= 0xCF {
            Instr::ScrollDown(n)
        } else if 0xD0 <= nnn <= 0xDF {
            Instr::ScrollUp(n)
        } else if nnn == 0xE0 {
            Instr::Cls
        } else if nnn == 0xEE {
            Instr::Ret
        } else if nnn == 0xFB {
            Instr::ScrollRight
        } else if nnn == 0xFC {
            Instr::ScrollLeft
        } else if nnn == 0xFE {
            Instr::LoresMode
        } else if nnn == 0xFF {
            Instr::HiresMode
        } else {
            Instr::Invalid
        }
    } else if hi == 0x1 {
        Instr::Jump(nnn)
    } else if hi == 0x2 {
        Instr::Call(nnn)
    } else if hi == 0x3 {
        Instr::SkipEqImm(x, kk)
    } else if hi == 0x4 {
        Instr::SkipNeImm(x, kk)
    } else if hi == 0x5 {
        if n == 0x0 {
            Instr::SkipEqReg(x, y)
        } else if n == 0x2 {
            Instr::StoreRange(x, y)
        } else if n == 0x3 {
            Instr::LoadRange(x, y)
        } else {
            Instr::Invalid
        }
    } else if hi == 0x6 {
        Instr::LoadImm(x, kk)
    } else if hi == 0x7 {
        Instr::AddImm(x, kk)
    } else if hi == 0x8 {
        if n == 0x0 {
            Instr::Move(x, y)
        } else if n == 0x1 {
            Instr::Or(x, y)
        } else if n == 0x2 {
            Instr::And(x, y)
        } else if n == 0x3 {
            Instr::Xor(x, y)
        } else if n == 0x4 {
            Instr::Add(x, y)
        } else if n == 0x5 {
            Instr::Sub(x, y)
        } else if n == 0x6 {
            Instr::Shr(x, y)
        } else if n == 0x7 {
            Instr::Subn(x, y)
        } else if n == 0xE {
            Instr::Shl(x, y)
        } else {
            Instr::Invalid
        }
    } else if hi == 0x9 {
        if n == 0x0 {
            Instr::SkipNeReg(x, y)
        } else {
            Instr::Invalid
        }
    } else if hi == 0xA {
        Instr::LoadI(nnn)
    } else if hi == 0xB {
        Instr::JumpV0(x, nnn)
    } else if hi == 0xC {
        Instr::Rand(x, kk)
    } else if hi == 0xD {
        Instr::Draw(x, y, n)
    } else if hi == 0xE {
        if kk == 0x9E {
            Instr::SkipKey(x)
        } else if kk == 0xA1 {
            Instr::SkipNoKey(x)
        } else {
            Instr::Invalid
        }
    } else {
        if nnn == 0x000 {
            Instr::WideLoadI
        } else if nnn == 0x002 {
            Instr::LoadAudio
        } else if kk == 0x01 {
            Instr::SelectPlanes(x)
        } else if kk == 0x07 {
            Instr::ReadDelay(x)
        } else if kk == 0x0A {
            Instr::WaitKey(x)
        } else if kk == 0x15 {
            Instr::SetDelay(x)
        } else if kk == 0x18 {
            Instr::SetSound(x)
        } else if kk == 0x1E {
            Instr::AddI(x)
        } else if kk == 0x29 {
            Instr::Font(x)
        } else if kk == 0x30 {
            Instr::BigFont(x)
        } else if kk == 0x33 {
            Instr::Bcd(x)
        } else if kk == 0x3A {
            Instr::SetPitch(x)
        } else if kk == 0x55 {
            Instr::StoreRegs(x)
        } else if kk == 0x65 {
            Instr::LoadRegs(x)
        } else if kk == 0x75 {
            Instr::StoreRpl(x)
        } else if kk == 0x85 {
            Instr::LoadRpl(x)
        } else {
            Instr::Invalid
        }
    }
}

/// Decodes one opcode into its structured instruction.
pub fn decode(op: u16) -> (r: Instr)
    ensures
        r == spec_decode(op),
{
    let hi: u16 = op / 0x1000;
    let x: u8 = ((op / 0x100) % 0x10) as u8;
    let y: u8 = ((op / 0x10) % 0x10) as u8;
    let n: u8 = (op % 0x10) as u8;
    let kk: u8 = (op % 0x100) as u8;
    let nnn: u16 = op % 0x1000;
    if hi == 0x0 {
        if 0xC0 <= nnn && nnn <= 0xCF {
            Instr::ScrollDown(n)
        } else if 0xD0 <= nnn && nnn <= 0xDF {
            Instr::ScrollUp(n)
        } else if nnn == 0xE0 {
            Instr::Cls
        } else if nnn == 0xEE {
            Instr::Ret
        } else if nnn == 0xFB {
            Instr::ScrollRight
        } else if nnn == 0xFC {
            Instr::ScrollLeft
        } else if nnn == 0xFE {
            Instr::LoresMode
        } else if nnn == 0xFF {
            Instr::HiresMode
        } else {
            Instr::Invalid
        }
    } else if hi == 0x1 {
        Instr::Jump(nnn)
    } else if hi == 0x2 {
        Instr::Call(nnn)
    } else if hi == 0x3 {
        Instr::SkipEqImm(x, kk)
    } else if hi == 0x4 {
        Instr::SkipNeImm(x, kk)
    } else if hi == 0x5 {
        if n == 0x0 {
            Instr::SkipEqReg(x, y)
        } else if n == 0x2 {
            Instr::StoreRange(x, y)
        } else if n == 0x3 {
            Instr::LoadRange(x, y)
        } else {
            Instr::Invalid
        }
    } else if hi == 0x6 {
        Instr::LoadImm(x, kk)
    } else if hi == 0x7 {
        Instr::AddImm(x, kk)
    } else if hi == 0x8 {
        if n == 0x0 {
            Instr::Move(x, y)
        } else if n == 0x1 {
            Instr::Or(x, y)
        } else if n == 0x2 {
            Instr::And(x, y)
        } else if n == 0x3 {
            Instr::Xor(x, y)
        } else if n == 0x4 {
            Instr::Add(x, y)
        } else if n == 0x5 {
            Instr::Sub(x, y)
        } else if n == 0x6 {
            Instr::Shr(x, y)
        } else if n == 0x7 {
            Instr::Subn(x, y)
        } else if n == 0xE {
            Instr::Shl(x, y)
        } else {
            Instr::Invalid
        }
    } else if hi == 0x9 {
        if n == 0x0 {
            Instr::SkipNeReg(x, y)
        } else {
            Instr::Invalid
        }
    } else if hi == 0xA {
        Instr::LoadI(nnn)
    } else if hi == 0xB {
        Instr::JumpV0(x, nnn)
    } else if hi == 0xC {
        Instr::Rand(x, kk)
    } else if hi == 0xD {
        Instr::Draw(x, y, n)
    } else if hi == 0xE {
        if kk == 0x9E {
            Instr::SkipKey(x)
        } else if kk == 0xA1 {
            Instr::SkipNoKey(x)
        } else {
            Instr::Invalid
        }
    } else {
        if nnn == 0x000 {
            Instr::WideLoadI
        } else if nnn == 0x002 {
            Instr::LoadAudio
        } else if kk == 0x01 {
            Instr::SelectPlanes(x)
        } else if kk == 0x07 {
            Instr::ReadDelay(x)
        } else if kk == 0x0A {
            Instr::WaitKey(x)
        } else if kk == 0x15 {
            Instr::SetDelay(x)
        } else if kk == 0x18 {
            Instr::SetSound(x)
        } else if kk == 0x1E {
            Instr::AddI(x)
        } else if kk == 0x29 {
            Instr::Font(x)
        } else if kk == 0x30 {
            Instr::BigFont(x)
        } else if kk == 0x33 {
            Instr::Bcd(x)
        } else if kk == 0x3A {
            Instr::SetPitch(x)
        } else if kk == 0x55 {
            Instr::StoreRegs(x)
        } else if kk == 0x65 {
            Instr::LoadRegs(x)
        } else if kk == 0x75 {
            Instr::StoreRpl(x)
        } else if kk == 0x85 {
            Instr::LoadRpl(x)
        } else {
            Instr::Invalid
        }
    }
}

} // verus!
