//! The transition specification of the execution core: what one
//! fetch-decode-execute step does to the machine state, instruction by
//! instruction. `Chip8::step` is proved to implement `spec_step` exactly.

use crate::decode::{spec_decode, Instr};
use crate::display::{
    cell_index, plane_off, plane_scrolled_down, plane_scrolled_left, plane_scrolled_right,
    plane_scrolled_up,
};
use crate::error::CoreErrorType;
use crate::model::{
    add8, carry8, msb_bit16, msb_bit8, noborrow8, plane_selected, shl8, sub8, word_at, wrap16,
    CoreView,
};
use vstd::prelude::*;

verus! {

/// The outcome of one step: the machine state after the call, and the
/// fault it surfaced, if any.
pub ghost struct StepOut {
    /// State after the step.
    pub s: CoreView,
    /// The fault raised by the step, if any.
    pub fault: Option<CoreErrorType>,
}

/// A successful outcome.
pub open spec fn step_ok(s: CoreView) -> StepOut {
    StepOut { s, fault: None }
}

/// A faulting outcome: the state is kept as it stood at detection.
pub open spec fn step_fault(s: CoreView, f: CoreErrorType) -> StepOut {
    StepOut { s, fault: Some(f) }
}

/// Where a satisfied skip lands: past the next opcode, which is 4 bytes
/// wide when it is the XO-CHIP wide-load marker, else 2.
pub open spec fn skip_target(s: CoreView) -> u16 {
    if word_at(s.memory, s.pc) == 0xF000 {
        wrap16(s.pc + 4)
    } else {
        wrap16(s.pc + 2)
    }
}

/// A conditional skip: `pc` moves past the next opcode iff `cond`.
pub open spec fn exec_skip_if(s: CoreView, cond: bool) -> StepOut {
    if cond {
        step_ok(CoreView { pc: skip_target(s), ..s })
    } else {
        step_ok(s)
    }
}

/// The screen with every selected plane cleared.
pub open spec fn screen_cleared(screen: Seq<Seq<bool>>, sel: u8) -> Seq<Seq<bool>> {
    Seq::new(screen.len(), |l: int| if plane_selected(sel, l) {
        plane_off()
    } else {
        screen[l]
    })
}

/// The screen with both planes cleared (mode switches clear everything).
pub open spec fn screen_all_cleared(screen: Seq<Seq<bool>>) -> Seq<Seq<bool>> {
    Seq::new(screen.len(), |l: int| plane_off())
}

/// The screen with every selected plane scrolled up `d` rows.
pub open spec fn screen_scrolled_up(screen: Seq<Seq<bool>>, sel: u8, d: int) -> Seq<Seq<bool>> {
    Seq::new(screen.len(), |l: int| if plane_selected(sel, l) {
        plane_scrolled_up(screen[l], d)
    } else {
        screen[l]
    })
}

/// The screen with every selected plane scrolled down `d` rows.
pub open spec fn screen_scrolled_down(screen: Seq<Seq<bool>>, sel: u8, d: int) -> Seq<Seq<bool>> {
    Seq::new(screen.len(), |l: int| if plane_selected(sel, l) {
        plane_scrolled_down(screen[l], d)
    } else {
        screen[l]
    })
}

/// The screen with every selected plane scrolled left `d` columns.
pub open spec fn screen_scrolled_left(screen: Seq<Seq<bool>>, sel: u8, d: int) -> Seq<Seq<bool>> {
    Seq::new(screen.len(), |l: int| if plane_selected(sel, l) {
        plane_scrolled_left(screen[l], d)
    } else {
        screen[l]
    })
}

/// The screen with every selected plane scrolled right `d` columns.
pub open spec fn screen_scrolled_right(screen: Seq<Seq<bool>>, sel: u8, d: int) -> Seq<Seq<bool>> {
    Seq::new(screen.len(), |l: int| if plane_selected(sel, l) {
        plane_scrolled_right(screen[l], d)
    } else {
        screen[l]
    })
}

/// Scroll distance for row scrolls: doubled outside high-resolution mode
/// (a deliberate legacy-compatibility behaviour).
pub open spec fn row_scroll_distance(s: CoreView, n: u8) -> int {
    if s.hires_mode {
        n as int
    } else {
        2 * (n as int)
    }
}

/// Scroll distance for the fixed 4-column scrolls, likewise doubled
/// outside high-resolution mode.
pub open spec fn col_scroll_distance(s: CoreView) -> int {
    if s.hires_mode {
        4
    } else {
        8
    }
}

/// A SuperChip-only opcode outside SuperChip mode faults with
/// `InvalidOpcode`; otherwise the given outcome stands.
pub open spec fn super_chip_gated(s: CoreView, op: u16, out: StepOut) -> StepOut {
    if s.super_chip_enabled {
        out
    } else {
        step_fault(s, CoreErrorType::InvalidOpcode(s.pc, op))
    }
}

/// XORs `bit` into one cell of one plane, accumulating a collision into
/// the flag register.
pub open spec fn xor_cell_v(s: CoreView, layer: int, row: int, col: int, bit: bool) -> CoreView {
    let idx = cell_index(row, col);
    let hit = bit && s.screen[layer][idx];
    let s1 = CoreView {
        screen: s.screen.update(layer, s.screen[layer].update(idx, s.screen[layer][idx] != bit)),
        ..s
    };
    if hit {
        CoreView { v: s1.v.update(15, 1), ..s1 }
    } else {
        s1
    }
}

/// Draws one sprite pixel: offset `(k, rr)` from the sprite anchor
/// `(col, row)`. In high-resolution mode one cell is touched; in low-res
/// mode the pixel is scaled to a 2x2 block. The pixel clips at the display
/// edge under the clipping quirk and wraps otherwise.
#[verifier::opaque]
pub open spec fn put_pixel(
    s: CoreView,
    layer: int,
    col: u8,
    row: u8,
    rr: int,
    k: int,
    bit: bool,
) -> CoreView {
    if s.hires_mode {
        let px = (col as int) % 128 + k;
        let py = (row as int) % 64 + rr;
        if s.quirks.clipping && (px >= 128 || py >= 64) {
            s
        } else {
            xor_cell_v(s, layer, py % 64, px % 128, bit)
        }
    } else {
        let px = (col as int) % 64 + k;
        let py = (row as int) % 32 + rr;
        if s.quirks.clipping && (px >= 64 || py >= 32) {
            s
        } else {
            let s1 = xor_cell_v(s, layer, (2 * py) % 64, (2 * px) % 128, bit);
            let s2 = xor_cell_v(s1, layer, (2 * py) % 64, (2 * px + 1) % 128, bit);
            let s3 = xor_cell_v(s2, layer, (2 * py + 1) % 64, (2 * px) % 128, bit);
            xor_cell_v(s3, layer, (2 * py + 1) % 64, (2 * px + 1) % 128, bit)
        }
    }
}

/// Draws the pixels `k..8` of one 8-wide sprite row byte.
#[verifier::opaque]
pub open spec fn draw_row8(
    s: CoreView,
    layer: int,
    col: u8,
    row: u8,
    rr: int,
    b: u8,
    k: int,
) -> CoreView
    decreases 8 - k,
{
    if k < 0 || k >= 8 {
        s
    } else {
        draw_row8(put_pixel(s, layer, col, row, rr, k, msb_bit8(b, k)), layer, col, row, rr, b, k + 1)
    }
}

/// Draws the rows `r..n` of an 8-wide sprite whose row `j` is the byte at
/// `base + j`, faulting if a row byte lies outside memory.
#[verifier::opaque]
pub open spec fn draw8(
    s: CoreView,
    layer: int,
    base: int,
    col: u8,
    row: u8,
    n: int,
    r: int,
) -> StepOut
    decreases n - r,
{
    if r >= n {
        step_ok(s)
    } else {
        let addr = base + r;
        if addr > 0xFFFF {
            step_fault(s, CoreErrorType::InvalidMemoryAccess(s.pc, addr as usize))
        } else {
            draw8(draw_row8(s, layer, col, row, r, s.memory[addr], 0), layer, base, col, row, n, r + 1)
        }
    }
}

/// Draws the pixels `k..16` of one 16-wide sprite row word.
#[verifier::opaque]
pub open spec fn draw_row16(
    s: CoreView,
    layer: int,
    col: u8,
    row: u8,
    rr: int,
    hi: u8,
    lo: u8,
    k: int,
) -> CoreView
    decreases 16 - k,
{
    if k < 0 || k >= 16 {
        s
    } else {
        draw_row16(
            put_pixel(s, layer, col, row, rr, k, msb_bit16(hi, lo, k)),
            layer,
            col,
            row,
            rr,
            hi,
            lo,
            k + 1,
        )
    }
}

/// Draws the rows `r..16` of a 16x16 sprite whose row `j` is the
/// big-endian word at `base + 2 * j`, faulting if a row word is not
/// entirely inside memory.
#[verifier::opaque]
pub open spec fn draw16(s: CoreView, layer: int, base: int, col: u8, row: u8, r: int) -> StepOut
    decreases 16 - r,
{
    if r >= 16 {
        step_ok(s)
    } else {
        let addr = base + 2 * r;
        if addr + 1 > 0xFFFF {
            step_fault(s, CoreErrorType::InvalidMemoryAccess(s.pc, addr as usize))
        } else {
            draw16(
                draw_row16(s, layer, col, row, r, s.memory[addr], s.memory[addr + 1], 0),
                layer,
                base,
                col,
                row,
                r + 1,
            )
        }
    }
}

/// Draws one plane's page of the sprite: a 16x16 sprite when `n == 0` in
/// high-resolution mode, else an 8-wide sprite of `n` rows (so `n == 0`
/// outside high-resolution mode draws nothing).
#[verifier::opaque]
pub open spec fn draw_layer(
    s: CoreView,
    layer: int,
    page: int,
    col: u8,
    row: u8,
    n: u8,
) -> StepOut {
    if n == 0 && s.hires_mode {
        draw16(s, layer, s.i as int + page * 32, col, row, 0)
    } else {
        draw8(s, layer, s.i as int + page * (n as int), col, row, n as int, 0)
    }
}

/// The whole draw instruction: the flag register is cleared, each selected
/// plane is drawn from its own page of sprite data (faults keep the partial
/// drawing), and under the display-wait quirk the machine then waits for
/// the next frame.
#[verifier::opaque]
pub open spec fn exec_draw(s: CoreView, x: u8, y: u8, n: u8) -> StepOut {
    let s0 = CoreView { v: s.v.update(15, 0), ..s };
    let dp = draw_planes_spec(s0, s.bit_plane_selector, s.v[x as int], s.v[y as int], n);
    if dp.fault is Some {
        dp
    } else if s.quirks.display_wait {
        step_ok(CoreView { waiting_for_vblank: true, ..dp.s })
    } else {
        dp
    }
}

/// Memory after the inclusive, direction-aware register range `x..y` is
/// stored at `i`.
pub open spec fn store_range_mem(mem: Seq<u8>, v: Seq<u8>, i: int, x: int, y: int) -> Seq<u8> {
    let dist = if x >= y { x - y } else { y - x };
    Seq::new(65536, |a: int| if i <= a <= i + dist {
        if x <= y {
            v[x + (a - i)]
        } else {
            v[x - (a - i)]
        }
    } else {
        mem[a]
    })
}

/// Registers after the inclusive, direction-aware range `x..y` is loaded
/// from memory at `i`.
pub open spec fn load_range_regs(v: Seq<u8>, mem: Seq<u8>, i: int, x: int, y: int) -> Seq<u8> {
    Seq::new(16, |j: int| if x <= y {
        if x <= j <= y {
            mem[i + (j - x)]
        } else {
            v[j]
        }
    } else {
        if y <= j <= x {
            mem[i + (x - j)]
        } else {
            v[j]
        }
    })
}

/// Memory after `v[0]..=v[x]` is stored at `i`.
pub open spec fn store_regs_mem(mem: Seq<u8>, v: Seq<u8>, i: int, x: int) -> Seq<u8> {
    Seq::new(65536, |a: int| if i <= a <= i + x {
        v[a - i]
    } else {
        mem[a]
    })
}

/// Registers after `v[0]..=v[x]` is loaded from memory at `i`.
pub open spec fn load_regs_v(v: Seq<u8>, mem: Seq<u8>, i: int, x: int) -> Seq<u8> {
    Seq::new(16, |j: int| if j <= x {
        mem[i + j]
    } else {
        v[j]
    })
}

/// The index register after a bulk register load/store: advanced by
/// `x + 1` (wrapping) under the quirk, untouched otherwise.
pub open spec fn bulk_index_after(s: CoreView, x: u8) -> u16 {
    if s.quirks.load_store_index_increase {
        wrap16(s.i as int + x as int + 1)
    } else {
        s.i
    }
}

/// Executes one decoded instruction on a state whose `pc` has already
/// advanced past the opcode. `rnd` feeds the `RND` instruction alone.
pub open spec fn spec_exec(s: CoreView, op: u16, rnd: u8) -> StepOut {
    match spec_decode(op) {
        Instr::ScrollDown(n) => super_chip_gated(
            s,
            op,
            step_ok(CoreView {
                screen: screen_scrolled_down(
                    s.screen,
                    s.bit_plane_selector,
                    row_scroll_distance(s, n),
                ),
                ..s
            }),
        ),
        Instr::ScrollUp(n) => step_ok(CoreView {
            screen: screen_scrolled_up(s.screen, s.bit_plane_selector, row_scroll_distance(s, n)),
            ..s
        }),
        Instr::Cls => step_ok(CoreView {
            screen: screen_cleared(s.screen, s.bit_plane_selector),
            ..s
        }),
        Instr::Ret => {
            if s.sp == 0 {
                step_fault(s, CoreErrorType::StackOverflow(s.pc, s.sp))
            } else {
                step_ok(CoreView { sp: (s.sp - 1) as u16, pc: s.stack[s.sp - 1], ..s })
            }
        },
        Instr::ScrollRight => super_chip_gated(
            s,
            op,
            step_ok(CoreView {
                screen: screen_scrolled_right(
                    s.screen,
                    s.bit_plane_selector,
                    col_scroll_distance(s),
                ),
                ..s
            }),
        ),
        Instr::ScrollLeft => super_chip_gated(
            s,
            op,
            step_ok(CoreView {
                screen: screen_scrolled_left(
                    s.screen,
                    s.bit_plane_selector,
                    col_scroll_distance(s),
                ),
                ..s
            }),
        ),
        Instr::LoresMode => super_chip_gated(
            s,
            op,
            step_ok(CoreView {
                hires_mode: false,
                screen: screen_all_cleared(s.screen),
                ..s
            }),
        ),
        Instr::HiresMode => super_chip_gated(
            s,
            op,
            step_ok(CoreView {
                hires_mode: true,
                screen: screen_all_cleared(s.screen),
                ..s
            }),
        ),
        Instr::Jump(nnn) => step_ok(CoreView { pc: nnn, ..s }),
        Instr::Call(nnn) => {
            if s.sp > 15 {
                step_fault(s, CoreErrorType::StackOverflow(s.pc, s.sp))
            } else {
                step_ok(CoreView {
                    stack: s.stack.update(s.sp as int, s.pc),
                    sp: (s.sp + 1) as u16,
                    pc: nnn,
                    ..s
                })
            }
        },
        Instr::SkipEqImm(x, kk) => exec_skip_if(s, s.v[x as int] == kk),
        Instr::SkipNeImm(x, kk) => exec_skip_if(s, s.v[x as int] != kk),
        Instr::SkipEqReg(x, y) => exec_skip_if(s, s.v[x as int] == s.v[y as int]),
        Instr::StoreRange(x, y) => {
            let dist: int = if x >= y { x as int - y } else { y as int - x };
            if s.i as int + dist > 0xFFFF {
                step_fault(
                    s,
                    CoreErrorType::InvalidMemoryAccess(s.pc, (s.i as int + dist) as usize),
                )
            } else {
                step_ok(CoreView {
                    memory: store_range_mem(s.memory, s.v, s.i as int, x as int, y as int),
                    ..s
                })
            }
        },
        Instr::LoadRange(x, y) => {
            let dist: int = if x >= y { x as int - y } else { y as int - x };
            if s.i as int + dist > 0xFFFF {
                step_fault(
                    s,
                    CoreErrorType::InvalidMemoryAccess(s.pc, (s.i as int + dist) as usize),
                )
            } else {
                step_ok(CoreView {
                    v: load_range_regs(s.v, s.memory, s.i as int, x as int, y as int),
                    ..s
                })
            }
        },
        Instr::LoadImm(x, kk) => step_ok(CoreView { v: s.v.update(x as int, kk), ..s }),
        Instr::AddImm(x, kk) => step_ok(CoreView {
            v: s.v.update(x as int, add8(s.v[x as int], kk)),
            ..s
        }),
        Instr::Move(x, y) => step_ok(CoreView { v: s.v.update(x as int, s.v[y as int]), ..s }),
        Instr::Or(x, y) => step_ok(CoreView {
            v: vf_reset_after(s, s.v.update(x as int, s.v[x as int] | s.v[y as int])),
            ..s
        }),
        Instr::And(x, y) => step_ok(CoreView {
            v: vf_reset_after(s, s.v.update(x as int, s.v[x as int] & s.v[y as int])),
            ..s
        }),
        Instr::Xor(x, y) => step_ok(CoreView {
            v: vf_reset_after(s, s.v.update(x as int, s.v[x as int] ^ s.v[y as int])),
            ..s
        }),
        Instr::Add(x, y) => step_ok(CoreView {
            v: s.v.update(x as int, add8(s.v[x as int], s.v[y as int])).update(
                15,
                carry8(s.v[x as int], s.v[y as int]),
            ),
            ..s
        }),
        Instr::Sub(x, y) => step_ok(CoreView {
            v: s.v.update(x as int, sub8(s.v[x as int], s.v[y as int])).update(
                15,
                noborrow8(s.v[x as int], s.v[y as int]),
            ),
            ..s
        }),
        Instr::Shr(x, y) => {
            let src = if s.quirks.shifting_vx {
                s.v[x as int]
            } else {
                s.v[y as int]
            };
            step_ok(CoreView {
                v: s.v.update(x as int, src / 2).update(15, src % 2),
                ..s
            })
        },
        Instr::Subn(x, y) => step_ok(CoreView {
            v: s.v.update(x as int, sub8(s.v[y as int], s.v[x as int])).update(
                15,
                noborrow8(s.v[y as int], s.v[x as int]),
            ),
            ..s
        }),
        Instr::Shl(x, y) => {
            let src = if s.quirks.shifting_vx {
                s.v[x as int]
            } else {
                s.v[y as int]
            };
            step_ok(CoreView {
                v: s.v.update(x as int, shl8(src)).update(15, src / 128),
                ..s
            })
        },
        Instr::SkipNeReg(x, y) => exec_skip_if(s, s.v[x as int] != s.v[y as int]),
        Instr::LoadI(nnn) => step_ok(CoreView { i: nnn, ..s }),
        Instr::JumpV0(x, nnn) => {
            let base = if s.quirks.jump_plus_vx {
                s.v[x as int]
            } else {
                s.v[0]
            };
            step_ok(CoreView { pc: (base as int + nnn as int) as u16, ..s })
        },
        Instr::Rand(x, kk) => step_ok(CoreView { v: s.v.update(x as int, rnd & kk), ..s }),
        Instr::Draw(x, y, n) => exec_draw(s, x, y, n),
        Instr::SkipKey(x) => exec_skip_if(s, s.keyboard[(s.v[x as int] % 16) as int]),
        Instr::SkipNoKey(x) => exec_skip_if(s, !s.keyboard[(s.v[x as int] % 16) as int]),
        Instr::WideLoadI => step_ok(CoreView {
            i: word_at(s.memory, s.pc),
            pc: wrap16(s.pc + 2),
            ..s
        }),
        Instr::LoadAudio => {
            if s.i as int + 15 > 0xFFFF {
                step_fault(
                    s,
                    CoreErrorType::InvalidMemoryAccess(s.pc, (s.i as int + 15) as usize),
                )
            } else {
                step_ok(CoreView {
                    sound_pattern: Seq::new(16, |k: int| s.memory[s.i as int + k]),
                    sound_dirty: true,
                    ..s
                })
            }
        },
        Instr::SelectPlanes(x) => step_ok(CoreView { bit_plane_selector: x, ..s }),
        Instr::ReadDelay(x) => step_ok(CoreView { v: s.v.update(x as int, s.dt), ..s }),
        Instr::WaitKey(x) => step_ok(CoreView {
            halt_input_register: x,
            halted_for_input: true,
            ..s
        }),
        Instr::SetDelay(x) => step_ok(CoreView { dt: s.v[x as int], ..s }),
        Instr::SetSound(x) => step_ok(CoreView { st: s.v[x as int], ..s }),
        Instr::AddI(x) => {
            if s.i as int + s.v[x as int] as int > 0xFFFF {
                step_fault(
                    s,
                    CoreErrorType::InvalidMemoryPtr(s.pc, (s.i as int + s.v[x as int]) as usize),
                )
            } else {
                step_ok(CoreView { i: (s.i as int + s.v[x as int]) as u16, ..s })
            }
        },
        Instr::Font(x) => step_ok(CoreView {
            i: ((s.v[x as int] as int % 16) * 5 + 0x50) as u16,
            ..s
        }),
        Instr::BigFont(x) => super_chip_gated(
            s,
            op,
            step_ok(CoreView {
                i: ((s.v[x as int] as int % 16) * 10 + 0xA0) as u16,
                ..s
            }),
        ),
        Instr::Bcd(x) => {
            if s.i as int + 2 > 0xFFFF {
                step_fault(
                    s,
                    CoreErrorType::InvalidMemoryAccess(s.pc, (s.i as int + 2) as usize),
                )
            } else {
                let vx = s.v[x as int];
                step_ok(CoreView {
                    memory: s.memory.update(s.i as int, vx / 100).update(
                        s.i as int + 1,
                        (vx % 100) / 10,
                    ).update(s.i as int + 2, vx % 10),
                    ..s
                })
            }
        },
        Instr::SetPitch(x) => step_ok(CoreView { sound_pitch: s.v[x as int], ..s }),
        Instr::StoreRegs(x) => {
            if s.i as int + x as int > 0xFFFF {
                step_fault(s, CoreErrorType::InvalidMemoryPtr(s.pc, s.i as usize))
            } else {
                step_ok(CoreView {
                    memory: store_regs_mem(s.memory, s.v, s.i as int, x as int),
                    i: bulk_index_after(s, x),
                    ..s
                })
            }
        },
        Instr::LoadRegs(x) => {
            if s.i as int + x as int > 0xFFFF {
                step_fault(s, CoreErrorType::InvalidMemoryPtr(s.pc, s.i as usize))
            } else {
                step_ok(CoreView {
                    v: load_regs_v(s.v, s.memory, s.i as int, x as int),
                    i: bulk_index_after(s, x),
                    ..s
                })
            }
        },
        Instr::StoreRpl(x) => super_chip_gated(s, op, if x > 8 {
            step_fault(s, CoreErrorType::InvalidOpcode(s.pc, op))
        } else {
            step_ok(CoreView { rpl: s.rpl.update(x as int, s.v[x as int]), ..s })
        }),
        Instr::LoadRpl(x) => super_chip_gated(s, op, if x > 8 {
            step_fault(s, CoreErrorType::InvalidOpcode(s.pc, op))
        } else {
            step_ok(CoreView { v: s.v.update(x as int, s.rpl[x as int]), ..s })
        }),
        Instr::Invalid => step_fault(s, CoreErrorType::InvalidOpcode(s.pc, op)),
    }
}

/// The registers after a bitwise opcode: under the flag-reset quirk the
/// flag register is cleared as a side effect.
pub open spec fn vf_reset_after(s: CoreView, v: Seq<u8>) -> Seq<u8> {
    if s.quirks.vf_reset {
        v.update(15, 0)
    } else {
        v
    }
}

/// What sprite drawing may touch: only the screen (cell lengths kept) and
/// the flag register, which can only be set to 1.
pub open spec fn draw_frame(s: CoreView, s2: CoreView) -> bool {
    &&& s2 == (CoreView { screen: s2.screen, v: s2.v, ..s })
    &&& s2.v.len() == s.v.len()
    &&& forall|j: int| 0 <= j < s.v.len() && j != 15 ==> s2.v[j] == s.v[j]
    &&& (s2.v[15] == s.v[15] || s2.v[15] == 1)
    &&& s2.screen.len() == s.screen.len()
    &&& forall|l: int| 0 <= l < s.screen.len() ==> (#[trigger] s2.screen[l]).len()
        == s.screen[l].len()
}

/// The draw frame relation is reflexive and transitive.
pub proof fn lemma_draw_frame_trans(s: CoreView, s2: CoreView, s3: CoreView)
    requires
        draw_frame(s, s2),
        draw_frame(s2, s3),
    ensures
        draw_frame(s, s3),
{
}

/// XOR-ing one cell stays within the draw frame.
pub proof fn lemma_xor_cell_frame(s: CoreView, layer: int, row: int, col: int, bit: bool)
    requires
        0 <= layer < s.screen.len(),
        s.screen[layer].len() == 8192,
        s.v.len() == 16,
        0 <= row < 64,
        0 <= col < 128,
    ensures
        draw_frame(s, xor_cell_v(s, layer, row, col, bit)),
{
    let s2 = xor_cell_v(s, layer, row, col, bit);
    assert(s2 == (CoreView { screen: s2.screen, v: s2.v, ..s }));
    assert(s2.v.len() == s.v.len());
    assert(forall|j: int| 0 <= j < s.v.len() && j != 15 ==> s2.v[j] == s.v[j]);
    assert(s2.v[15] == s.v[15] || s2.v[15] == 1);
    assert(s2.screen.len() == s.screen.len());
    let idx = cell_index(row, col);
    let np = s.screen[layer].update(idx, s.screen[layer][idx] != bit);
    assert(s2.screen == s.screen.update(layer, np));
    assert(np.len() == s.screen[layer].len());
    assert forall|l: int| 0 <= l < s.screen.len() implies (#[trigger] s2.screen[l]).len()
        == s.screen[l].len() by {
        if l == layer {
            assert(s2.screen[l] == np);
        } else {
            assert(s2.screen[l] == s.screen[l]);
        }
    }
}

/// Drawing one pixel stays within the draw frame.
pub proof fn lemma_put_pixel_frame(
    s: CoreView,
    layer: int,
    col: u8,
    row: u8,
    rr: int,
    k: int,
    bit: bool,
)
    requires
        s.wf(),
        0 <= layer < 2,
    ensures
        draw_frame(s, put_pixel(s, layer, col, row, rr, k, bit)),
{
    reveal(put_pixel);
    if s.hires_mode {
        let px = (col as int) % 128 + k;
        let py = (row as int) % 64 + rr;
        if s.quirks.clipping && (px >= 128 || py >= 64) {
        } else {
            lemma_xor_cell_frame(s, layer, py % 64, px % 128, bit);
        }
    } else {
        let px = (col as int) % 64 + k;
        let py = (row as int) % 32 + rr;
        if s.quirks.clipping && (px >= 64 || py >= 32) {
        } else {
            let s1 = xor_cell_v(s, layer, (2 * py) % 64, (2 * px) % 128, bit);
            let s2 = xor_cell_v(s1, layer, (2 * py) % 64, (2 * px + 1) % 128, bit);
            let s3 = xor_cell_v(s2, layer, (2 * py + 1) % 64, (2 * px) % 128, bit);
            lemma_xor_cell_frame(s, layer, (2 * py) % 64, (2 * px) % 128, bit);
            assert(s1.screen[layer].len() == 8192 && s1.v.len() == 16);
            lemma_xor_cell_frame(s1, layer, (2 * py) % 64, (2 * px + 1) % 128, bit);
            assert(s2.screen[layer].len() == 8192 && s2.v.len() == 16);
            lemma_xor_cell_frame(s2, layer, (2 * py + 1) % 64, (2 * px) % 128, bit);
            assert(s3.screen[layer].len() == 8192 && s3.v.len() == 16);
            lemma_xor_cell_frame(s3, layer, (2 * py + 1) % 64, (2 * px + 1) % 128, bit);
            lemma_draw_frame_trans(s, s1, s2);
            lemma_draw_frame_trans(s, s2, s3);
            lemma_draw_frame_trans(s, s3, put_pixel(s, layer, col, row, rr, k, bit));
        }
    }
}

/// Drawing one sprite row stays within the draw frame.
pub proof fn lemma_draw_row8_frame(
    s: CoreView,
    layer: int,
    col: u8,
    row: u8,
    rr: int,
    b: u8,
    k: int,
)
    requires
        s.wf(),
        0 <= layer < 2,
    ensures
        draw_frame(s, draw_row8(s, layer, col, row, rr, b, k)),
    decreases 8 - k,
{
    reveal(draw_row8);
    if k < 0 || k >= 8 {
    } else {
        let s2 = put_pixel(s, layer, col, row, rr, k, msb_bit8(b, k));
        lemma_put_pixel_frame(s, layer, col, row, rr, k, msb_bit8(b, k));
        assert(s2.wf());
        lemma_draw_row8_frame(s2, layer, col, row, rr, b, k + 1);
        lemma_draw_frame_trans(s, s2, draw_row8(s2, layer, col, row, rr, b, k + 1));
    }
}

/// Drawing one 16-wide sprite row stays within the draw frame.
pub proof fn lemma_draw_row16_frame(
    s: CoreView,
    layer: int,
    col: u8,
    row: u8,
    rr: int,
    hi: u8,
    lo: u8,
    k: int,
)
    requires
        s.wf(),
        0 <= layer < 2,
    ensures
        draw_frame(s, draw_row16(s, layer, col, row, rr, hi, lo, k)),
    decreases 16 - k,
{
    reveal(draw_row16);
    if k < 0 || k >= 16 {
    } else {
        let s2 = put_pixel(s, layer, col, row, rr, k, msb_bit16(hi, lo, k));
        lemma_put_pixel_frame(s, layer, col, row, rr, k, msb_bit16(hi, lo, k));
        assert(s2.wf());
        lemma_draw_row16_frame(s2, layer, col, row, rr, hi, lo, k + 1);
        lemma_draw_frame_trans(s, s2, draw_row16(s2, layer, col, row, rr, hi, lo, k + 1));
    }
}

/// Drawing an 8-wide sprite stays within the draw frame, whether or not
/// it faults.
pub proof fn lemma_draw8_frame(
    s: CoreView,
    layer: int,
    base: int,
    col: u8,
    row: u8,
    n: int,
    r: int,
)
    requires
        s.wf(),
        0 <= layer < 2,
    ensures
        draw_frame(s, draw8(s, layer, base, col, row, n, r).s),
        draw8(s, layer, base, col, row, n, r).s.wf(),
    decreases n - r,
{
    reveal(draw8);
    if r >= n {
    } else {
        let addr = base + r;
        if addr > 0xFFFF {
        } else {
            let s2 = draw_row8(s, layer, col, row, r, s.memory[addr], 0);
            lemma_draw_row8_frame(s, layer, col, row, r, s.memory[addr], 0);
            assert(s2.wf());
            lemma_draw8_frame(s2, layer, base, col, row, n, r + 1);
            lemma_draw_frame_trans(s, s2, draw8(s2, layer, base, col, row, n, r + 1).s);
        }
    }
}

/// Drawing a 16x16 sprite stays within the draw frame, whether or not it
/// faults.
pub proof fn lemma_draw16_frame(s: CoreView, layer: int, base: int, col: u8, row: u8, r: int)
    requires
        s.wf(),
        0 <= layer < 2,
    ensures
        draw_frame(s, draw16(s, layer, base, col, row, r).s),
        draw16(s, layer, base, col, row, r).s.wf(),
    decreases 16 - r,
{
    reveal(draw16);
    if r >= 16 {
    } else {
        let addr = base + 2 * r;
        if addr + 1 > 0xFFFF {
        } else {
            let s2 = draw_row16(s, layer, col, row, r, s.memory[addr], s.memory[addr + 1], 0);
            lemma_draw_row16_frame(s, layer, col, row, r, s.memory[addr], s.memory[addr + 1], 0);
            assert(s2.wf());
            lemma_draw16_frame(s2, layer, base, col, row, r + 1);
            lemma_draw_frame_trans(s, s2, draw16(s2, layer, base, col, row, r + 1).s);
        }
    }
}

/// Draws the two planes' pages in order, plane 0 first, stopping at the
/// first fault. `s` already has the flag register cleared.
#[verifier::opaque]
pub open spec fn draw_planes_spec(s: CoreView, sel: u8, col: u8, row: u8, n: u8) -> StepOut {
    let out0 = if plane_selected(sel, 0) {
        draw_layer(s, 0, 0, col, row, n)
    } else {
        step_ok(s)
    };
    if out0.fault is Some {
        out0
    } else {
        let page1: int = if plane_selected(sel, 0) {
            1
        } else {
            0
        };
        if plane_selected(sel, 1) {
            draw_layer(out0.s, 1, page1, col, row, n)
        } else {
            out0
        }
    }
}

/// Drawing both planes stays within the draw frame.
pub proof fn lemma_draw_planes_frame(s: CoreView, sel: u8, col: u8, row: u8, n: u8)
    requires
        s.wf(),
    ensures
        draw_frame(s, draw_planes_spec(s, sel, col, row, n).s),
        draw_planes_spec(s, sel, col, row, n).s.wf(),
{
    reveal(draw_planes_spec);
    let out0 = if plane_selected(sel, 0) {
        draw_layer(s, 0, 0, col, row, n)
    } else {
        step_ok(s)
    };
    if plane_selected(sel, 0) {
        lemma_draw_layer_frame(s, 0, 0, col, row, n);
    }
    if out0.fault is None {
        let page1: int = if plane_selected(sel, 0) {
            1
        } else {
            0
        };
        if plane_selected(sel, 1) {
            lemma_draw_layer_frame(out0.s, 1, page1, col, row, n);
            lemma_draw_frame_trans(s, out0.s, draw_layer(out0.s, 1, page1, col, row, n).s);
        }
    }
}

/// The draw instruction, unfolded: clear the flag, draw the planes, then
/// apply the display-wait quirk.
pub proof fn lemma_exec_draw_parts(s: CoreView, x: u8, y: u8, n: u8)
    ensures
        ({
            let s0 = CoreView { v: s.v.update(15, 0), ..s };
            let dp = draw_planes_spec(s0, s.bit_plane_selector, s.v[x as int], s.v[y as int], n);
            exec_draw(s, x, y, n) == (if dp.fault is Some {
                dp
            } else if s.quirks.display_wait {
                step_ok(CoreView { waiting_for_vblank: true, ..dp.s })
            } else {
                dp
            })
        }),
{
    reveal(exec_draw);
}

/// Drawing one plane's page stays within the draw frame.
pub proof fn lemma_draw_layer_frame(s: CoreView, layer: int, page: int, col: u8, row: u8, n: u8)
    requires
        s.wf(),
        0 <= layer < 2,
    ensures
        draw_frame(s, draw_layer(s, layer, page, col, row, n).s),
        draw_layer(s, layer, page, col, row, n).s.wf(),
{
    reveal(draw_layer);
    if n == 0 && s.hires_mode {
        lemma_draw16_frame(s, layer, s.i as int + page * 32, col, row, 0);
    } else {
        lemma_draw8_frame(s, layer, s.i as int + page * (n as int), col, row, n as int, 0);
    }
}

/// One whole `step` call: a no-op while halted for input or waiting for
/// the frame, else fetch at `pc`, advance `pc` past the opcode, and
/// execute. Faults leave `pc` already past the faulting opcode.
pub open spec fn spec_step(s: CoreView, rnd: u8) -> StepOut {
    if !s.ready() {
        step_ok(s)
    } else {
        let op = word_at(s.memory, s.pc);
        spec_exec(CoreView { pc: wrap16(s.pc + 2), ..s }, op, rnd)
    }
}

} // verus!
