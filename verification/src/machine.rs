//! The machine state and the driver-facing operations of the execution
//! core: construction, ROM loading, timers, keyboard, sound, mode
//! selection, and the `step` state machine.

use crate::decode::{decode, spec_decode, Instr};
use crate::display::{cell_index, plane_off, Display};
use crate::error::{CoreError, CoreErrorType};
use crate::model::{msb_bit16, msb_bit8, plane_selected, word_at, wrap16, CoreView};
use crate::quirks::{spec_quirks, Mode, Quirks};
use crate::transition::{
    bulk_index_after, draw16, draw8, draw_layer, draw_planes_spec, draw_row16, draw_row8,
    exec_draw, lemma_draw_layer_frame, lemma_draw_planes_frame, lemma_draw_row16_frame,
    lemma_draw_row8_frame, lemma_exec_draw_parts, load_range_regs, load_regs_v, put_pixel,
    screen_all_cleared, screen_cleared, screen_scrolled_down, screen_scrolled_left,
    screen_scrolled_right, screen_scrolled_up, skip_target, spec_exec, spec_step, step_fault,
    step_ok, store_range_mem, store_regs_mem, xor_cell_v,
};
use crate::types::{
    spec_key_index, Key, Screen, DISPLAY_COLS, DISPLAY_ROWS, FONT_OFFSET, FONT_SET, MEMORY_SIZE,
};
use vstd::string::StringExecFns;
use vstd::prelude::*;

verus! {

/// The sound state the core exposes for synthesis: a pitch byte and a
/// 16-byte waveform pattern.
pub struct Sound {
    /// Playback-rate byte, set by the pitch opcode.
    pub pitch: u8,
    /// The 16-byte waveform pattern.
    pub pattern: Vec<u8>,
    /// The buffer has changed since it was last consumed.
    pub dirty: bool,
}

/// The waveform pattern a machine starts with.
pub open spec fn initial_sound_pattern() -> Seq<u8> {
    Seq::new(16, |k: int| if k < 8 { 0u8 } else { 0xFFu8 })
}

impl Sound {
    /// The sound state a machine starts with: a square-ish default
    /// pattern, marked dirty so the first consumer sees it.
    pub fn new() -> (r: Sound)
        ensures
            r.pitch == 247,
            r.pattern@ =~= initial_sound_pattern(),
            r.dirty,
    {
        let mut pattern: Vec<u8> = Vec::new();
        let mut k: usize = 0;
        while k < 16
            invariant
                k <= 16,
                pattern@.len() == k,
                forall|j: int| 0 <= j < k ==> pattern@[j] == initial_sound_pattern()[j],
            decreases 16 - k,
        {
            if k < 8 {
                pattern.push(0x00);
            } else {
                pattern.push(0xFF);
            }
            k += 1;
        }
        Sound { pitch: 247, pattern, dirty: true }
    }
}

/// The CHIP-8 family execution core.
pub struct Chip8 {
    display: Display,
    memory: Vec<u8>,
    stack: Vec<u16>,
    keyboard: Vec<bool>,
    v: Vec<u8>,
    rpl: Vec<u8>,
    pc: u16,
    i: u16,
    sp: u16,
    dt: u8,
    st: u8,
    super_chip_enabled: bool,
    hires_mode: bool,
    halt_input_register: u8,
    halted_for_input: bool,
    waiting_for_vblank: bool,
    quirks: Quirks,
    sound: Sound,
    bit_plane_selector: u8,
}

impl View for Chip8 {
    type V = CoreView;

    closed spec fn view(&self) -> CoreView {
        CoreView {
            memory: self.memory@,
            v: self.v@,
            rpl: self.rpl@,
            stack: self.stack@,
            sp: self.sp,
            pc: self.pc,
            i: self.i,
            dt: self.dt,
            st: self.st,
            keyboard: self.keyboard@,
            halted_for_input: self.halted_for_input,
            halt_input_register: self.halt_input_register,
            waiting_for_vblank: self.waiting_for_vblank,
            super_chip_enabled: self.super_chip_enabled,
            hires_mode: self.hires_mode,
            bit_plane_selector: self.bit_plane_selector,
            quirks: self.quirks,
            sound_pitch: self.sound.pitch,
            sound_pattern: self.sound.pattern@,
            sound_dirty: self.sound.dirty,
            screen: self.display@,
        }
    }
}

/// The memory a machine starts with: all zero except the preloaded font.
pub open spec fn initial_memory() -> Seq<u8> {
    Seq::new(65536, |a: int| if 0x50 <= a < 0x50 + 240 {
        FONT_SET[a - 0x50]
    } else {
        0u8
    })
}

/// The machine state right after construction: registers zeroed, `pc` at
/// the program entry point, XO-CHIP quirks active, plane 0 selected, the
/// font preloaded.
pub open spec fn initial_core() -> CoreView {
    CoreView {
        memory: initial_memory(),
        v: Seq::new(16, |j: int| 0u8),
        rpl: Seq::new(16, |j: int| 0u8),
        stack: Seq::new(16, |j: int| 0u16),
        sp: 0,
        pc: 0x200,
        i: 0,
        dt: 0,
        st: 0,
        keyboard: Seq::new(16, |j: int| false),
        halted_for_input: false,
        halt_input_register: 0,
        waiting_for_vblank: false,
        super_chip_enabled: true,
        hires_mode: false,
        bit_plane_selector: 1,
        quirks: spec_quirks(Mode::XoChip),
        sound_pitch: 247,
        sound_pattern: initial_sound_pattern(),
        sound_dirty: true,
        screen: Seq::new(2, |l: int| plane_off()),
    }
}

/// A vector of `n` copies of `val`.
fn filled_bytes(n: usize, val: u8) -> (r: Vec<u8>)
    ensures
        r@ =~= Seq::new(n as nat, |j: int| val),
{
    let mut out: Vec<u8> = Vec::new();
    let mut k: usize = 0;
    while k < n
        invariant
            k <= n,
            out@.len() == k,
            forall|j: int| 0 <= j < k ==> out@[j] == val,
        decreases n - k,
    {
        out.push(val);
        k += 1;
    }
    out
}

impl Chip8 {
    /// Invariant tying the executable state to a well-formed model.
    pub open spec fn wf(&self) -> bool {
        &&& self@.wf()
        &&& self@.halt_input_register < 16
    }

    /// Creates a machine in its initial state: font preloaded, registers
    /// zeroed, `pc` at 0x200.
    pub fn new() -> (r: Chip8)
        ensures
            r.wf(),
            r@ =~~= initial_core(),
    {
        let mut stack: Vec<u16> = Vec::new();
        let mut k: usize = 0;
        while k < 16
            invariant
                k <= 16,
                stack@.len() == k,
                forall|j: int| 0 <= j < k ==> stack@[j] == 0u16,
            decreases 16 - k,
        {
            stack.push(0);
            k += 1;
        }
        let mut keyboard: Vec<bool> = Vec::new();
        let mut k2: usize = 0;
        while k2 < 16
            invariant
                k2 <= 16,
                keyboard@.len() == k2,
                forall|j: int| 0 <= j < k2 ==> !keyboard@[j],
            decreases 16 - k2,
        {
            keyboard.push(false);
            k2 += 1;
        }
        let mut c = Chip8 {
            display: Display::new(),
            memory: filled_bytes(MEMORY_SIZE, 0),
            stack,
            keyboard,
            v: filled_bytes(16, 0),
            rpl: filled_bytes(16, 0),
            pc: 0x200,
            i: 0,
            sp: 0,
            dt: 0,
            st: 0,
            super_chip_enabled: true,
            hires_mode: false,
            halt_input_register: 0,
            halted_for_input: false,
            waiting_for_vblank: false,
            quirks: Quirks::new(Mode::XoChip),
            sound: Sound::new(),
            bit_plane_selector: 1,
        };
        c.load_font();
        proof {
            assert(c@.memory =~= initial_memory());
            assert(c@.screen == c.display@);
            assert(c@ =~~= initial_core());
        }
        c
    }

    /// Copies the font glyphs to their fixed offset.
    fn load_font(&mut self)
        requires
            old(self)@.memory.len() == 65536,
        ensures
            final(self)@.memory =~= Seq::new(65536, |a: int| if 0x50 <= a < 0x50 + 240 {
                FONT_SET[a - 0x50]
            } else {
                old(self)@.memory[a]
            }),
            final(self)@ == (CoreView { memory: final(self)@.memory, ..old(self)@ }),
    {
        let mut k: usize = 0;
        while k < 240
            invariant
                k <= 240,
                self@.memory.len() == 65536,
                forall|a: int| 0x50 <= a < 0x50 + k ==> self@.memory[a] == FONT_SET[a - 0x50],
                forall|a: int| 0 <= a < 65536 && !(0x50 <= a < 0x50 + k) ==> self@.memory[a]
                    == old(self)@.memory[a],
                self@ == (CoreView { memory: self@.memory, ..old(self)@ }),
            decreases 240 - k,
        {
            let b: u8 = FONT_SET[k];
            self.memory.set(FONT_OFFSET + k, b);
            proof {
                assert(b == FONT_SET[k as int]);
            }
            k += 1;
        }
    }

    /// The active quirk record.
    pub fn quirks_mode(&self) -> (r: &Quirks)
        ensures
            r == self@.quirks,
    {
        &self.quirks
    }

    /// Replaces the whole quirk record, effective on the next instruction;
    /// nothing else changes.
    pub fn set_quirks_mode(&mut self, quirks: Quirks)
        requires
            old(self).wf(),
        ensures
            final(self).wf(),
            final(self)@ == (CoreView { quirks: quirks, ..old(self)@ }),
    {
        self.quirks = quirks;
    }

    /// Selects the quirk record by its case-insensitive mode name; the
    /// name must be one the core knows (see `mode_for_name`).
    pub fn set_core_mode(&mut self, mode: &String)
        requires
            old(self).wf(),
            mode_for_name(lower_of(mode@)) is Some,
        ensures
            final(self).wf(),
            final(self)@ == (CoreView {
                quirks: spec_quirks(mode_for_name(lower_of(mode@)).unwrap()),
                ..old(self)@
            }),
    {
        let low: String = lowercase(mode.as_str());
        proof {
            reveal_strlit("chip8modern");
            reveal_strlit("chip8");
            reveal_strlit("superchipmodern");
            reveal_strlit("superchip");
            reveal_strlit("superchiplegacy");
            reveal_strlit("xochip");
        }
        if str_eq(low.as_str(), "chip8modern") || str_eq(low.as_str(), "chip8") {
            self.quirks = Quirks::new(Mode::Chip8Modern);
        } else if str_eq(low.as_str(), "superchipmodern") || str_eq(low.as_str(), "superchip") {
            self.quirks = Quirks::new(Mode::SuperChipModern);
        } else if str_eq(low.as_str(), "superchiplegacy") {
            self.quirks = Quirks::new(Mode::SuperChipLegacy);
        } else if str_eq(low.as_str(), "xochip") {
            self.quirks = Quirks::new(Mode::XoChip);
        } else {
            proof {
                assert(false);
            }
        }
    }

    /// Selects the quirk record by name if the name is known, reporting
    /// whether it was; an unknown name leaves the machine untouched.
    pub fn try_set_core_mode(&mut self, mode: &String) -> (r: bool)
        requires
            old(self).wf(),
        ensures
            final(self).wf(),
            r == (mode_for_name(lower_of(mode@)) is Some),
            final(self)@ == if r {
                CoreView {
                    quirks: spec_quirks(mode_for_name(lower_of(mode@)).unwrap()),
                    ..old(self)@
                }
            } else {
                old(self)@
            },
    {
        let low: String = lowercase(mode.as_str());
        proof {
            reveal_strlit("chip8modern");
            reveal_strlit("chip8");
            reveal_strlit("superchipmodern");
            reveal_strlit("superchip");
            reveal_strlit("superchiplegacy");
            reveal_strlit("xochip");
        }
        let known: bool = str_eq(low.as_str(), "chip8modern") || str_eq(low.as_str(), "chip8")
            || str_eq(low.as_str(), "superchipmodern") || str_eq(low.as_str(), "superchip")
            || str_eq(low.as_str(), "superchiplegacy") || str_eq(low.as_str(), "xochip");
        if known {
            self.set_core_mode(mode);
        }
        known
    }

    /// Copies a ROM verbatim into memory at `start_offset`, returning how
    /// many bytes were loaded; fails with `InvalidRom` exactly when the
    /// ROM would not fit inside the memory.
    pub fn load_rom(&mut self, bytes: Vec<u8>, start_offset: u16) -> (r: Result<usize, CoreError>)
        requires
            old(self).wf(),
        ensures
            final(self).wf(),
            bytes@.len() + start_offset <= 65536 ==> {
                &&& r is Ok
                &&& r.unwrap() == bytes@.len()
                &&& final(self)@ == (CoreView {
                    memory: Seq::new(65536, |a: int| if start_offset <= a < start_offset + bytes@.len() {
                        bytes@[a - start_offset]
                    } else {
                        old(self)@.memory[a]
                    }),
                    ..old(self)@
                })
            },
            bytes@.len() + start_offset > 65536 ==> {
                &&& r matches Err(e) &&& e.error_type matches CoreErrorType::InvalidRom(_)
                &&& final(self)@ == old(self)@
            },
    {
        let off: usize = start_offset as usize;
        if bytes.len() > MEMORY_SIZE - off {
            return Err(CoreError::new(
                String::from_str("rom does not fit at the requested load offset"),
                CoreErrorType::InvalidRom(String::from_str("rom byte size plus start offset exceeds the memory size")),
            ));
        }
        let ghost target: Seq<u8> = Seq::new(65536, |a: int| if start_offset <= a < start_offset + bytes@.len() {
            bytes@[a - start_offset]
        } else {
            old(self)@.memory[a]
        });
        let mut k: usize = 0;
        while k < bytes.len()
            invariant
                old(self).wf(),
                self@.memory.len() == 65536,
                k <= bytes@.len(),
                bytes@.len() + off <= 65536,
                off == start_offset,
                target == Seq::new(65536, |a: int| if start_offset <= a < start_offset + bytes@.len() {
                    bytes@[a - start_offset]
                } else {
                    old(self)@.memory[a]
                }),
                forall|a: int| off <= a < off + k ==> self@.memory[a] == target[a],
                forall|a: int| 0 <= a < 65536 && !(off <= a < off + k) ==> self@.memory[a]
                    == old(self)@.memory[a],
                self@ == (CoreView { memory: self@.memory, ..old(self)@ }),
            decreases bytes@.len() - k,
        {
            let b: u8 = bytes[k];
            self.memory.set(off + k, b);
            k += 1;
        }
        proof {
            assert(self@.memory =~= target);
        }
        Ok(bytes.len())
    }

    /// Decrements each timer toward zero and returns the pre-decrement
    /// `(sound_timer, delay_timer)` pair; called at 60 Hz by the driver.
    pub fn tick_timers(&mut self) -> (r: (u8, u8))
        requires
            old(self).wf(),
        ensures
            final(self).wf(),
            r.0 == old(self)@.st,
            r.1 == old(self)@.dt,
            final(self)@ == (CoreView {
                st: if old(self)@.st > 0 { (old(self)@.st - 1) as u8 } else { 0 },
                dt: if old(self)@.dt > 0 { (old(self)@.dt - 1) as u8 } else { 0 },
                ..old(self)@
            }),
    {
        let st = self.st;
        let dt = self.dt;
        if self.st > 0 {
            self.st = self.st - 1;
        }
        if self.dt > 0 {
            self.dt = self.dt - 1;
        }
        (st, dt)
    }

    /// Hands out the sound state once per change: the pair is returned
    /// only while the buffer is dirty, and taking it clears the dirty
    /// mark.
    pub fn get_sound(&mut self) -> (r: Option<Sound>)
        requires
            old(self).wf(),
        ensures
            final(self).wf(),
            old(self)@.sound_dirty ==> {
                &&& r is Some
                &&& r.unwrap().pitch == old(self)@.sound_pitch
                &&& r.unwrap().pattern@ == old(self)@.sound_pattern
                &&& final(self)@ == (CoreView { sound_dirty: false, ..old(self)@ })
            },
            !old(self)@.sound_dirty ==> r is None && final(self)@ == old(self)@,
    {
        if self.sound.dirty {
            self.sound.dirty = false;
            let mut pattern: Vec<u8> = Vec::new();
            let mut k: usize = 0;
            while k < 16
                invariant
                    old(self).wf(),
                    self@.sound_pattern.len() == 16,
                    k <= 16,
                    pattern@.len() == k,
                    forall|j: int| 0 <= j < k ==> pattern@[j] == self@.sound_pattern[j],
                    self@ == (CoreView { sound_dirty: false, ..old(self)@ }),
                decreases 16 - k,
            {
                let b: u8 = self.sound.pattern[k];
                pattern.push(b);
                k += 1;
            }
            proof {
                assert(pattern@ =~= old(self)@.sound_pattern);
            }
            Some(Sound { pitch: self.sound.pitch, pattern, dirty: false })
        } else {
            None
        }
    }

    /// Clears the vblank-wait flag; called once per rendered frame.
    pub fn v_blank(&mut self)
        requires
            old(self).wf(),
        ensures
            final(self).wf(),
            final(self)@ == (CoreView { waiting_for_vblank: false, ..old(self)@ }),
    {
        self.waiting_for_vblank = false;
    }

    /// Latches one key's state. Releasing a key that was latched while the
    /// machine was halted for input resolves the halt, storing the key
    /// code into the target register.
    pub fn set_key_state(&mut self, key: Key, is_pressed: bool)
        requires
            old(self).wf(),
        ensures
            final(self).wf(),
            final(self)@ == spec_key_event(old(self)@, spec_key_index(key), is_pressed),
    {
        let k: u8 = key.index();
        let cur: bool = self.keyboard[k as usize];
        if self.halted_for_input && cur && !is_pressed {
            let reg: usize = self.halt_input_register as usize;
            self.v.set(reg, k);
            self.halted_for_input = false;
        }
        self.keyboard.set(k as usize, is_pressed);
        proof {
            assert(self@ =~~= spec_key_event(old(self)@, spec_key_index(key), is_pressed));
        }
    }

    /// Moves `pc` to a random even address in the 256 bytes from the
    /// program entry point, for stress play.
    pub fn chaos(&mut self)
        requires
            old(self).wf(),
        ensures
            final(self).wf(),
            final(self)@ == (CoreView { pc: final(self)@.pc, ..old(self)@ }),
            0x200 <= final(self)@.pc <= 0x2FE,
            final(self)@.pc % 2 == 0,
    {
        let r: u32 = crate::rng::random_u32();
        let pc: u16 = ((r % 128) * 2 + 0x200) as u16;
        self.pc = pc;
    }

    /// The big-endian opcode word at `pc`.
    fn fetch_opcode(&self) -> (r: u16)
        requires
            self.wf(),
        ensures
            r == word_at(self@.memory, self@.pc),
    {
        let b1: u8 = self.memory[self.pc as usize];
        let idx2: usize = if self.pc == 0xFFFF {
            0
        } else {
            self.pc as usize + 1
        };
        let b2: u8 = self.memory[idx2];
        proof {
            assert(wrap16(self@.pc as int + 1) == idx2);
        }
        (b1 as u16) * 256 + (b2 as u16)
    }

    /// Takes a snapshot of the display buffer, indexed
    /// `[row][column][plane]`, for a renderer to read.
    pub fn get_screen(&self) -> (r: Screen)
        requires
            self.wf(),
        ensures
            r@.len() == 64,
            forall|rr: int| 0 <= rr < 64 ==> (#[trigger] r@[rr])@.len() == 128,
            forall|rr: int, c: int| 0 <= rr < 64 && 0 <= c < 128 ==> (#[trigger] r@[rr]@[c])@.len()
                == 2,
            forall|rr: int, c: int, l: int|
                0 <= rr < 64 && 0 <= c < 128 && 0 <= l < 2 ==> #[trigger] r@[rr]@[c]@[l]
                    == self@.screen[l][cell_index(rr, c)],
    {
        let mut rows: Screen = Vec::new();
        let mut rr: usize = 0;
        while rr < DISPLAY_ROWS
            invariant
                self.wf(),
                rr <= 64,
                rows@.len() == rr,
                forall|r2: int| 0 <= r2 < rr ==> (#[trigger] rows@[r2])@.len() == 128,
                forall|r2: int, c: int| 0 <= r2 < rr && 0 <= c < 128 ==> (#[trigger] rows@[r2]@[c])@.len() == 2,
                forall|r2: int, c: int, l: int|
                    0 <= r2 < rr && 0 <= c < 128 && 0 <= l < 2 ==> #[trigger] rows@[r2]@[c]@[l]
                        == self@.screen[l][cell_index(r2, c)],
            decreases 64 - rr,
        {
            let mut row: Vec<Vec<bool>> = Vec::new();
            let mut c: usize = 0;
            while c < DISPLAY_COLS
                invariant
                    self.wf(),
                    rr < 64,
                    c <= 128,
                    row@.len() == c,
                    forall|c2: int| 0 <= c2 < c ==> (#[trigger] row@[c2])@.len() == 2,
                    forall|c2: int, l: int| 0 <= c2 < c && 0 <= l < 2 ==> #[trigger] row@[c2]@[l]
                        == self@.screen[l][cell_index(rr as int, c2)],
                decreases 128 - c,
            {
                let mut cell: Vec<bool> = Vec::new();
                cell.push(self.display.cell(0, rr, c));
                cell.push(self.display.cell(1, rr, c));
                row.push(cell);
                c += 1;
            }
            rows.push(row);
            rr += 1;
        }
        rows
    }

    /// Renders the debug dump described by `state_text`.
    pub fn get_state(&self) -> (r: String)
        requires
            self.wf(),
        ensures
            r@ == state_text(self@),
    {
        proof {
            reveal_strlit("PC 0x");
            reveal_strlit(" I 0x");
            reveal_strlit(" SP 0x");
            reveal_strlit(" DT 0x");
            reveal_strlit(" ST 0x");
            reveal_strlit(" OP 0x");
            reveal_strlit("\nV ");
            reveal_strlit("\nSTACK ");
            reveal_strlit("\nKEYS ");
            reveal_strlit("\nHALT ");
            reveal_strlit(" WAIT ");
            reveal_strlit(" HIRES ");
            reveal_strlit(" PLANES 0x");
        }
        let mut out: String = String::new();
        out.append("PC 0x");
        crate::text::append_hex4(&mut out, self.pc);
        out.append(" I 0x");
        crate::text::append_hex4(&mut out, self.i);
        out.append(" SP 0x");
        crate::text::append_hex2(&mut out, self.sp as u8);
        out.append(" DT 0x");
        crate::text::append_hex2(&mut out, self.dt);
        out.append(" ST 0x");
        crate::text::append_hex2(&mut out, self.st);
        out.append(" OP 0x");
        let op: u16 = self.fetch_opcode();
        crate::text::append_hex4(&mut out, op);
        out.append("\nV ");
        crate::text::append_regs(&mut out, &self.v);
        out.append("\nSTACK ");
        crate::text::append_stack(&mut out, &self.stack);
        out.append("\nKEYS ");
        crate::text::append_keys(&mut out, &self.keyboard);
        out.append("\nHALT ");
        crate::text::append_flag(&mut out, self.halted_for_input);
        out.append(" WAIT ");
        crate::text::append_flag(&mut out, self.waiting_for_vblank);
        out.append(" HIRES ");
        crate::text::append_flag(&mut out, self.hires_mode);
        out.append(" PLANES 0x");
        out.append(crate::text::hex_digit_str(self.bit_plane_selector % 16));
        proof {
            assert(out@ =~= state_text(self@));
        }
        out
    }

    /// Program counter.
    pub fn pc(&self) -> (r: u16)
        ensures
            r == self@.pc,
    {
        self.pc
    }

    /// Index register.
    pub fn index_register(&self) -> (r: u16)
        ensures
            r == self@.i,
    {
        self.i
    }

    /// Stack depth: 0 is empty, 16 is full.
    pub fn stack_pointer(&self) -> (r: u16)
        ensures
            r == self@.sp,
    {
        self.sp
    }

    /// One general register.
    pub fn register(&self, idx: u8) -> (r: u8)
        requires
            self.wf(),
            idx < 16,
        ensures
            r == self@.v[idx as int],
    {
        self.v[idx as usize]
    }

    /// One RPL flag register.
    pub fn rpl_flag(&self, idx: u8) -> (r: u8)
        requires
            self.wf(),
            idx < 16,
        ensures
            r == self@.rpl[idx as int],
    {
        self.rpl[idx as usize]
    }

    /// Delay timer.
    pub fn delay_timer(&self) -> (r: u8)
        ensures
            r == self@.dt,
    {
        self.dt
    }

    /// Sound timer; a positive value signals that sound should play.
    pub fn sound_timer(&self) -> (r: u8)
        ensures
            r == self@.st,
    {
        self.st
    }

    /// Execution is suspended until a latched key is released.
    pub fn halted_for_input(&self) -> (r: bool)
        ensures
            r == self@.halted_for_input,
    {
        self.halted_for_input
    }

    /// Execution is suspended until the next rendered frame.
    pub fn waiting_for_vblank(&self) -> (r: bool)
        ensures
            r == self@.waiting_for_vblank,
    {
        self.waiting_for_vblank
    }
}

/// Wrap-around 16-bit addition.
fn wrap_add16(a: u16, b: u16) -> (r: u16)
    ensures
        r == wrap16(a as int + b as int),
{
    if a <= 0xFFFF - b {
        a + b
    } else {
        a - (0xFFFF - b) - 1
    }
}

/// Bit `k` of a byte counted from the most significant bit.
fn sprite_bit8(b: u8, k: usize) -> (r: bool)
    requires
        k < 8,
    ensures
        r == msb_bit8(b, k as int),
{
    match k {
        0 => (b / 128) % 2 == 1,
        1 => (b / 64) % 2 == 1,
        2 => (b / 32) % 2 == 1,
        3 => (b / 16) % 2 == 1,
        4 => (b / 8) % 2 == 1,
        5 => (b / 4) % 2 == 1,
        6 => (b / 2) % 2 == 1,
        _ => b % 2 == 1,
    }
}

impl Chip8 {
    /// XORs one pixel into one plane, folding a collision into the flag
    /// register.
    fn xor_px(&mut self, layer: usize, row: usize, col: usize, bit: bool)
        requires
            old(self).wf(),
            layer < 2,
            row < 64,
            col < 128,
        ensures
            final(self).wf(),
            final(self)@ == xor_cell_v(old(self)@, layer as int, row as int, col as int, bit),
    {
        let collision: bool = self.display.xor_cell(layer, row, col, bit);
        if collision {
            self.v.set(15, 1);
        }
        proof {
            assert(self@ =~~= xor_cell_v(old(self)@, layer as int, row as int, col as int, bit));
        }
    }

    /// Draws one sprite pixel at offset `(k, rr)` from the anchor
    /// `(col, row)`, honouring resolution scaling, clipping and wrapping.
    fn put_px(&mut self, layer: usize, col: u8, row: u8, rr: usize, k: usize, bit: bool)
        requires
            old(self).wf(),
            layer < 2,
            rr <= 15,
            k <= 15,
        ensures
            final(self).wf(),
            final(self)@ == put_pixel(old(self)@, layer as int, col, row, rr as int, k as int, bit),
    {
        proof {
            reveal(put_pixel);
        }
        if self.hires_mode {
            let px: usize = (col as usize) % 128 + k;
            let py: usize = (row as usize) % 64 + rr;
            if self.quirks.clipping && (px >= 128 || py >= 64) {
            } else {
                self.xor_px(layer, py % 64, px % 128, bit);
            }
        } else {
            let px: usize = (col as usize) % 64 + k;
            let py: usize = (row as usize) % 32 + rr;
            if self.quirks.clipping && (px >= 64 || py >= 32) {
            } else {
                self.xor_px(layer, (2 * py) % 64, (2 * px) % 128, bit);
                self.xor_px(layer, (2 * py) % 64, (2 * px + 1) % 128, bit);
                self.xor_px(layer, (2 * py + 1) % 64, (2 * px) % 128, bit);
                self.xor_px(layer, (2 * py + 1) % 64, (2 * px + 1) % 128, bit);
            }
        }
    }

    /// Draws one 8-wide sprite row byte.
    fn blit_row8(&mut self, layer: usize, col: u8, row: u8, rr: usize, b: u8)
        requires
            old(self).wf(),
            layer < 2,
            rr <= 15,
        ensures
            final(self).wf(),
            final(self)@ == draw_row8(old(self)@, layer as int, col, row, rr as int, b, 0),
    {
        let ghost entry = old(self)@;
        let mut k: usize = 0;
        while k < 8
            invariant
                self.wf(),
                layer < 2,
                rr <= 15,
                k <= 8,
                draw_row8(self@, layer as int, col, row, rr as int, b, k as int) == draw_row8(
                    entry,
                    layer as int,
                    col,
                    row,
                    rr as int,
                    b,
                    0,
                ),
            decreases 8 - k,
        {
            let bit: bool = sprite_bit8(b, k);
            let ghost before = self@;
            self.put_px(layer, col, row, rr, k, bit);
            proof {
                reveal(draw_row8);
                assert(draw_row8(before, layer as int, col, row, rr as int, b, k as int)
                    == draw_row8(self@, layer as int, col, row, rr as int, b, k as int + 1));
            }
            k += 1;
        }
        proof {
            reveal(draw_row8);
            assert(draw_row8(self@, layer as int, col, row, rr as int, b, 8) == step_ok(self@).s);
        }
    }

    /// Draws one 16-wide sprite row word given as two bytes.
    fn blit_row16(&mut self, layer: usize, col: u8, row: u8, rr: usize, hi: u8, lo: u8)
        requires
            old(self).wf(),
            layer < 2,
            rr <= 15,
        ensures
            final(self).wf(),
            final(self)@ == draw_row16(old(self)@, layer as int, col, row, rr as int, hi, lo, 0),
    {
        let ghost entry = old(self)@;
        let mut k: usize = 0;
        while k < 16
            invariant
                self.wf(),
                layer < 2,
                rr <= 15,
                k <= 16,
                draw_row16(self@, layer as int, col, row, rr as int, hi, lo, k as int)
                    == draw_row16(entry, layer as int, col, row, rr as int, hi, lo, 0),
            decreases 16 - k,
        {
            let bit: bool = if k < 8 {
                sprite_bit8(hi, k)
            } else {
                sprite_bit8(lo, k - 8)
            };
            let ghost before = self@;
            self.put_px(layer, col, row, rr, k, bit);
            proof {
                reveal(draw_row16);
                assert(bit == msb_bit16(hi, lo, k as int));
                assert(draw_row16(before, layer as int, col, row, rr as int, hi, lo, k as int)
                    == draw_row16(self@, layer as int, col, row, rr as int, hi, lo, k as int + 1));
            }
            k += 1;
        }
        proof {
            reveal(draw_row16);
            assert(draw_row16(self@, layer as int, col, row, rr as int, hi, lo, 16) == self@);
        }
    }

    /// Draws one plane's page of a sprite: rows of bytes for the 8-wide
    /// form, rows of words for the 16x16 form.
    #[verifier::rlimit(80)]
    fn draw_sprite(&mut self, col: u8, row: u8, sprite_rows: u8, page: usize, layer: usize) -> (r:
        Result<(), CoreError>)
        requires
            old(self).wf(),
            layer < 2,
            page <= 1,
            sprite_rows < 16,
        ensures
            final(self).wf(),
            ({
                let out = draw_layer(
                    old(self)@,
                    layer as int,
                    page as int,
                    col,
                    row,
                    sprite_rows,
                );
                &&& final(self)@ == out.s
                &&& match r {
                    Ok(_) => out.fault is None,
                    Err(e) => out.fault == Some(e.error_type),
                }
            }),
    {
        proof {
            reveal(draw_layer);
            reveal(draw8);
            reveal(draw16);
        }
        let ghost entry = old(self)@;
        if sprite_rows == 0 && self.hires_mode {
            let base: usize = self.i as usize + page * 32;
            let mut rr: usize = 0;
            while rr < 16
                invariant
                    self.wf(),
                    entry == old(self)@,
                    sprite_rows == 0,
                    entry.hires_mode,
                    layer < 2,
                    page <= 1,
                    rr <= 16,
                    base == entry.i + page * 32,
                    base <= 0xFFFF + 32,
                    self@.memory == entry.memory,
                    self@.pc == entry.pc,
                    self@.hires_mode == entry.hires_mode,
                    draw16(self@, layer as int, base as int, col, row, rr as int) == draw16(
                        entry,
                        layer as int,
                        base as int,
                        col,
                        row,
                        0,
                    ),
                decreases 16 - rr,
            {
                let addr: usize = base + 2 * rr;
                if addr + 1 > 0xFFFF {
                    proof {
                        reveal(draw_layer);
                        reveal(draw16);
                        assert(draw16(self@, layer as int, base as int, col, row, rr as int)
                            == step_fault(
                            self@,
                            CoreErrorType::InvalidMemoryAccess(self@.pc, addr as usize),
                        ));
                    }
                    return Err(CoreError::new(
                        String::from_str("sprite row outside the memory bound"),
                        CoreErrorType::InvalidMemoryAccess(self.pc, addr),
                    ));
                }
                let hi: u8 = self.memory[addr];
                let lo: u8 = self.memory[addr + 1];
                let ghost before = self@;
                self.blit_row16(layer, col, row, rr, hi, lo);
                proof {
                    reveal(draw16);
                    lemma_draw_row16_frame(before, layer as int, col, row, rr as int, hi, lo, 0);
                    assert(draw16(before, layer as int, base as int, col, row, rr as int)
                        == draw16(self@, layer as int, base as int, col, row, rr as int + 1));
                }
                rr += 1;
            }
            proof {
                reveal(draw16);
                assert(draw16(self@, layer as int, base as int, col, row, 16) == step_ok(self@));
            }
            Ok(())
        } else {
            let n: usize = sprite_rows as usize;
            proof {
                assert(page * n <= 15) by (nonlinear_arith)
                    requires
                        page <= 1,
                        n < 16,
                ;
            }
            let base: usize = self.i as usize + page * n;
            let mut rr: usize = 0;
            while rr < n
                invariant
                    self.wf(),
                    entry == old(self)@,
                    !(sprite_rows == 0 && entry.hires_mode),
                    n == sprite_rows,
                    layer < 2,
                    page <= 1,
                    n < 16,
                    rr <= n,
                    base == entry.i + page * n,
                    base <= 0xFFFF + 16,
                    self@.memory == entry.memory,
                    self@.pc == entry.pc,
                    self@.hires_mode == entry.hires_mode,
                    draw8(self@, layer as int, base as int, col, row, n as int, rr as int)
                        == draw8(entry, layer as int, base as int, col, row, n as int, 0),
                decreases n - rr,
            {
                let addr: usize = base + rr;
                if addr > 0xFFFF {
                    proof {
                        reveal(draw_layer);
                        reveal(draw8);
                        assert(draw8(self@, layer as int, base as int, col, row, n as int, rr as int)
                            == step_fault(
                            self@,
                            CoreErrorType::InvalidMemoryAccess(self@.pc, addr as usize),
                        ));
                    }
                    return Err(CoreError::new(
                        String::from_str("sprite row outside the memory bound"),
                        CoreErrorType::InvalidMemoryAccess(self.pc, addr),
                    ));
                }
                let b: u8 = self.memory[addr];
                let ghost before = self@;
                self.blit_row8(layer, col, row, rr, b);
                proof {
                    reveal(draw8);
                    lemma_draw_row8_frame(before, layer as int, col, row, rr as int, b, 0);
                    assert(draw8(before, layer as int, base as int, col, row, n as int, rr as int)
                        == draw8(self@, layer as int, base as int, col, row, n as int, rr as int + 1));
                }
                rr += 1;
            }
            proof {
                reveal(draw8);
                assert(draw8(self@, layer as int, base as int, col, row, n as int, n as int)
                    == step_ok(self@));
            }
            Ok(())
        }
    }

    /// Stores the inclusive register range `x..y` to memory at `i`,
    /// faulting if the transfer would leave the memory bound.
    fn op_store_range(&mut self, x: u8, y: u8) -> (r: Result<(), CoreError>)
        requires
            old(self).wf(),
            x < 16,
            y < 16,
        ensures
            final(self).wf(),
            ({
                let s = old(self)@;
                let dist: int = if x >= y { x as int - y } else { y as int - x };
                if s.i as int + dist > 0xFFFF {
                    &&& r matches Err(e) &&& e.error_type == CoreErrorType::InvalidMemoryAccess(
                        s.pc,
                        (s.i as int + dist) as usize,
                    )
                    &&& final(self)@ == s
                } else {
                    &&& r is Ok
                    &&& final(self)@ == (CoreView {
                        memory: store_range_mem(s.memory, s.v, s.i as int, x as int, y as int),
                        ..s
                    })
                }
            }),
    {
        let dist: usize = if x >= y {
            (x - y) as usize
        } else {
            (y - x) as usize
        };
        let i0: usize = self.i as usize;
        if dist > 0xFFFF - i0 {
            return Err(CoreError::new(
                String::from_str("register range transfer outside the memory bound"),
                CoreErrorType::InvalidMemoryAccess(self.pc, i0 + dist),
            ));
        }
        let ghost target = store_range_mem(
            old(self)@.memory,
            old(self)@.v,
            i0 as int,
            x as int,
            y as int,
        );
        let mut z: usize = 0;
        while z <= dist
            invariant
                old(self).wf(),
                x < 16,
                y < 16,
                i0 == old(self)@.i,
                dist == if x >= y { x - y } else { y - x },
                i0 + dist <= 0xFFFF,
                z <= dist + 1,
                target == store_range_mem(
                    old(self)@.memory,
                    old(self)@.v,
                    i0 as int,
                    x as int,
                    y as int,
                ),
                self@.memory.len() == 65536,
                forall|a: int| i0 <= a < i0 + z ==> self@.memory[a] == target[a],
                forall|a: int| 0 <= a < 65536 && !(i0 <= a < i0 + z) ==> self@.memory[a]
                    == old(self)@.memory[a],
                self@ == (CoreView { memory: self@.memory, ..old(self)@ }),
            decreases dist + 1 - z,
        {
            let src: usize = if x <= y {
                x as usize + z
            } else {
                x as usize - z
            };
            let b: u8 = self.v[src];
            self.memory.set(i0 + z, b);
            z += 1;
        }
        proof {
            assert(self@.memory =~= target);
        }
        Ok(())
    }

    /// Loads the inclusive register range `x..y` from memory at `i`,
    /// faulting if the transfer would leave the memory bound.
    fn op_load_range(&mut self, x: u8, y: u8) -> (r: Result<(), CoreError>)
        requires
            old(self).wf(),
            x < 16,
            y < 16,
        ensures
            final(self).wf(),
            ({
                let s = old(self)@;
                let dist: int = if x >= y { x as int - y } else { y as int - x };
                if s.i as int + dist > 0xFFFF {
                    &&& r matches Err(e) &&& e.error_type == CoreErrorType::InvalidMemoryAccess(
                        s.pc,
                        (s.i as int + dist) as usize,
                    )
                    &&& final(self)@ == s
                } else {
                    &&& r is Ok
                    &&& final(self)@ == (CoreView {
                        v: load_range_regs(s.v, s.memory, s.i as int, x as int, y as int),
                        ..s
                    })
                }
            }),
    {
        let dist: usize = if x >= y {
            (x - y) as usize
        } else {
            (y - x) as usize
        };
        let i0: usize = self.i as usize;
        if dist > 0xFFFF - i0 {
            return Err(CoreError::new(
                String::from_str("register range transfer outside the memory bound"),
                CoreErrorType::InvalidMemoryAccess(self.pc, i0 + dist),
            ));
        }
        let ghost target = load_range_regs(
            old(self)@.v,
            old(self)@.memory,
            i0 as int,
            x as int,
            y as int,
        );
        let mut z: usize = 0;
        while z <= dist
            invariant
                old(self).wf(),
                x < 16,
                y < 16,
                i0 == old(self)@.i,
                dist == if x >= y { x - y } else { y - x },
                i0 + dist <= 0xFFFF,
                z <= dist + 1,
                target == load_range_regs(
                    old(self)@.v,
                    old(self)@.memory,
                    i0 as int,
                    x as int,
                    y as int,
                ),
                self@.v.len() == 16,
                forall|j: int| 0 <= j < 16 ==> #[trigger] self@.v[j] == (if (if x <= y {
                    x <= j < x + z
                } else {
                    x - z < j <= x
                }) {
                    target[j]
                } else {
                    old(self)@.v[j]
                }),
                self@ == (CoreView { v: self@.v, ..old(self)@ }),
            decreases dist + 1 - z,
        {
            let dst: usize = if x <= y {
                x as usize + z
            } else {
                x as usize - z
            };
            let b: u8 = self.memory[i0 + z];
            self.v.set(dst, b);
            proof {
                assert(self@.v[dst as int] == target[dst as int]);
            }
            z += 1;
        }
        proof {
            assert(self@.v =~= target);
        }
        Ok(())
    }

    /// Stores `v[0]..=v[x]` to memory at `i`, faulting past the memory
    /// bound, and advances `i` under the index quirk.
    fn op_store_regs(&mut self, x: u8) -> (r: Result<(), CoreError>)
        requires
            old(self).wf(),
            x < 16,
        ensures
            final(self).wf(),
            ({
                let s = old(self)@;
                if s.i as int + x as int > 0xFFFF {
                    &&& r matches Err(e) &&& e.error_type == CoreErrorType::InvalidMemoryPtr(
                        s.pc,
                        s.i as usize,
                    )
                    &&& final(self)@ == s
                } else {
                    &&& r is Ok
                    &&& final(self)@ == (CoreView {
                        memory: store_regs_mem(s.memory, s.v, s.i as int, x as int),
                        i: bulk_index_after(s, x),
                        ..s
                    })
                }
            }),
    {
        let i0: usize = self.i as usize;
        if x as usize > 0xFFFF - i0 {
            return Err(CoreError::new(
                String::from_str("register store outside the memory bound"),
                CoreErrorType::InvalidMemoryPtr(self.pc, i0),
            ));
        }
        let ghost target = store_regs_mem(old(self)@.memory, old(self)@.v, i0 as int, x as int);
        let mut z: usize = 0;
        while z <= x as usize
            invariant
                old(self).wf(),
                x < 16,
                i0 == old(self)@.i,
                i0 + x <= 0xFFFF,
                z <= x + 1,
                target == store_regs_mem(old(self)@.memory, old(self)@.v, i0 as int, x as int),
                self@.memory.len() == 65536,
                forall|a: int| i0 <= a < i0 + z ==> self@.memory[a] == target[a],
                forall|a: int| 0 <= a < 65536 && !(i0 <= a < i0 + z) ==> self@.memory[a]
                    == old(self)@.memory[a],
                self@ == (CoreView { memory: self@.memory, ..old(self)@ }),
            decreases x + 1 - z,
        {
            let b: u8 = self.v[z];
            self.memory.set(i0 + z, b);
            z += 1;
        }
        proof {
            assert(self@.memory =~= target);
        }
        if self.quirks.load_store_index_increase {
            self.i = wrap_add16(self.i, x as u16 + 1);
        }
        Ok(())
    }

    /// Loads `v[0]..=v[x]` from memory at `i`, faulting past the memory
    /// bound, and advances `i` under the index quirk.
    fn op_load_regs(&mut self, x: u8) -> (r: Result<(), CoreError>)
        requires
            old(self).wf(),
            x < 16,
        ensures
            final(self).wf(),
            ({
                let s = old(self)@;
                if s.i as int + x as int > 0xFFFF {
                    &&& r matches Err(e) &&& e.error_type == CoreErrorType::InvalidMemoryPtr(
                        s.pc,
                        s.i as usize,
                    )
                    &&& final(self)@ == s
                } else {
                    &&& r is Ok
                    &&& final(self)@ == (CoreView {
                        v: load_regs_v(s.v, s.memory, s.i as int, x as int),
                        i: bulk_index_after(s, x),
                        ..s
                    })
                }
            }),
    {
        let i0: usize = self.i as usize;
        if x as usize > 0xFFFF - i0 {
            return Err(CoreError::new(
                String::from_str("register load outside the memory bound"),
                CoreErrorType::InvalidMemoryPtr(self.pc, i0),
            ));
        }
        let ghost target = load_regs_v(old(self)@.v, old(self)@.memory, i0 as int, x as int);
        let mut z: usize = 0;
        while z <= x as usize
            invariant
                old(self).wf(),
                x < 16,
                i0 == old(self)@.i,
                i0 + x <= 0xFFFF,
                z <= x + 1,
                target == load_regs_v(old(self)@.v, old(self)@.memory, i0 as int, x as int),
                self@.v.len() == 16,
                forall|j: int| 0 <= j < z ==> self@.v[j] == target[j],
                forall|j: int| z <= j < 16 ==> self@.v[j] == old(self)@.v[j],
                self@ == (CoreView { v: self@.v, ..old(self)@ }),
            decreases x + 1 - z,
        {
            let b: u8 = self.memory[i0 + z];
            self.v.set(z, b);
            z += 1;
        }
        proof {
            assert(self@.v =~= target);
        }
        if self.quirks.load_store_index_increase {
            self.i = wrap_add16(self.i, x as u16 + 1);
        }
        Ok(())
    }

    /// Loads the 16-byte waveform at `i` into the sound buffer and marks
    /// it dirty, faulting past the memory bound.
    fn op_load_audio(&mut self) -> (r: Result<(), CoreError>)
        requires
            old(self).wf(),
        ensures
            final(self).wf(),
            ({
                let s = old(self)@;
                if s.i as int + 15 > 0xFFFF {
                    &&& r matches Err(e) &&& e.error_type == CoreErrorType::InvalidMemoryAccess(
                        s.pc,
                        (s.i as int + 15) as usize,
                    )
                    &&& final(self)@ == s
                } else {
                    &&& r is Ok
                    &&& final(self)@ == (CoreView {
                        sound_pattern: Seq::new(16, |k: int| s.memory[s.i as int + k]),
                        sound_dirty: true,
                        ..s
                    })
                }
            }),
    {
        let i0: usize = self.i as usize;
        if 15 > 0xFFFF - i0 {
            return Err(CoreError::new(
                String::from_str("waveform pattern outside the memory bound"),
                CoreErrorType::InvalidMemoryAccess(self.pc, i0 + 15),
            ));
        }
        let mut z: usize = 0;
        while z < 16
            invariant
                old(self).wf(),
                i0 == old(self)@.i,
                i0 + 15 <= 0xFFFF,
                z <= 16,
                self@.sound_pattern.len() == 16,
                forall|k: int| 0 <= k < z ==> self@.sound_pattern[k] == old(self)@.memory[i0 + k],
                forall|k: int| z <= k < 16 ==> self@.sound_pattern[k] == old(self)@.sound_pattern[k],
                self@ == (CoreView {
                    sound_pattern: self@.sound_pattern,
                    sound_dirty: old(self)@.sound_dirty,
                    ..old(self)@
                }),
            decreases 16 - z,
        {
            let b: u8 = self.memory[i0 + z];
            self.sound.pattern.set(z, b);
            z += 1;
        }
        self.sound.dirty = true;
        proof {
            assert(self@.sound_pattern =~= Seq::new(16, |k: int| old(self)@.memory[old(self)@.i as int + k]));
        }
        Ok(())
    }

    /// Stores the three decimal digits of `v[x]` at `i`, faulting past
    /// the memory bound.
    fn op_bcd(&mut self, x: u8) -> (r: Result<(), CoreError>)
        requires
            old(self).wf(),
            x < 16,
        ensures
            final(self).wf(),
            ({
                let s = old(self)@;
                if s.i as int + 2 > 0xFFFF {
                    &&& r matches Err(e) &&& e.error_type == CoreErrorType::InvalidMemoryAccess(
                        s.pc,
                        (s.i as int + 2) as usize,
                    )
                    &&& final(self)@ == s
                } else {
                    &&& r is Ok
                    &&& final(self)@ == (CoreView {
                        memory: s.memory.update(s.i as int, s.v[x as int] / 100).update(
                            s.i as int + 1,
                            (s.v[x as int] % 100) / 10,
                        ).update(s.i as int + 2, s.v[x as int] % 10),
                        ..s
                    })
                }
            }),
    {
        let i0: usize = self.i as usize;
        if 2 > 0xFFFF - i0 {
            return Err(CoreError::new(
                String::from_str("digit store outside the memory bound"),
                CoreErrorType::InvalidMemoryAccess(self.pc, i0 + 2),
            ));
        }
        let vx: u8 = self.v[x as usize];
        self.memory.set(i0, vx / 100);
        self.memory.set(i0 + 1, (vx % 100) / 10);
        self.memory.set(i0 + 2, vx % 10);
        proof {
            assert(self@ =~~= (CoreView {
                memory: old(self)@.memory.update(i0 as int, vx / 100).update(
                    i0 as int + 1,
                    (vx % 100) / 10,
                ).update(i0 as int + 2, vx % 10),
                ..old(self)@
            }));
        }
        Ok(())
    }

    /// Advances `pc` past the next opcode: by 4 when it is the XO-CHIP
    /// wide-load marker, else by 2, so a skip never lands mid-instruction.
    fn skip_opcode(&mut self)
        requires
            old(self).wf(),
        ensures
            final(self).wf(),
            final(self)@ == (CoreView { pc: skip_target(old(self)@), ..old(self)@ }),
    {
        let next: u16 = self.fetch_opcode();
        if next == 0xF000 {
            self.pc = wrap_add16(self.pc, 4);
        } else {
            self.pc = wrap_add16(self.pc, 2);
        }
    }

    /// Clears every selected plane.
    fn do_cls(&mut self)
        requires
            old(self).wf(),
        ensures
            final(self).wf(),
            final(self)@ == (CoreView {
                screen: screen_cleared(old(self)@.screen, old(self)@.bit_plane_selector),
                ..old(self)@
            }),
    {
        let sel0: bool = self.bit_plane_selector % 2 == 1;
        let sel1: bool = (self.bit_plane_selector / 2) % 2 == 1;
        if sel0 {
            self.display.clear_plane(0);
        }
        if sel1 {
            self.display.clear_plane(1);
        }
        proof {
            assert(self@.screen =~~= screen_cleared(old(self)@.screen, old(self)@.bit_plane_selector));
            assert(self@ =~~= (CoreView {
                screen: screen_cleared(old(self)@.screen, old(self)@.bit_plane_selector),
                ..old(self)@
            }));
        }
    }

    /// Clears both planes (mode switches clear everything).
    fn clear_all_planes(&mut self)
        requires
            old(self).wf(),
        ensures
            final(self).wf(),
            final(self)@ == (CoreView {
                screen: screen_all_cleared(old(self)@.screen),
                ..old(self)@
            }),
    {
        self.display.clear_plane(0);
        self.display.clear_plane(1);
        proof {
            assert(self@.screen =~~= screen_all_cleared(old(self)@.screen));
            assert(self@ =~~= (CoreView {
                screen: screen_all_cleared(old(self)@.screen),
                ..old(self)@
            }));
        }
    }

    /// Scrolls every selected plane up by `d` rows.
    fn do_scroll_up(&mut self, d: usize)
        requires
            old(self).wf(),
            d < 64,
        ensures
            final(self).wf(),
            final(self)@ == (CoreView {
                screen: screen_scrolled_up(
                    old(self)@.screen,
                    old(self)@.bit_plane_selector,
                    d as int,
                ),
                ..old(self)@
            }),
    {
        let sel0: bool = self.bit_plane_selector % 2 == 1;
        let sel1: bool = (self.bit_plane_selector / 2) % 2 == 1;
        if sel0 {
            self.display.scroll_plane_up(0, d);
        }
        if sel1 {
            self.display.scroll_plane_up(1, d);
        }
        proof {
            assert(self@.screen =~~= screen_scrolled_up(
                old(self)@.screen,
                old(self)@.bit_plane_selector,
                d as int,
            ));
            assert(self@ =~~= (CoreView {
                screen: screen_scrolled_up(
                    old(self)@.screen,
                    old(self)@.bit_plane_selector,
                    d as int,
                ),
                ..old(self)@
            }));
        }
    }

    /// Scrolls every selected plane down by `d` rows.
    fn do_scroll_down(&mut self, d: usize)
        requires
            old(self).wf(),
            d < 64,
        ensures
            final(self).wf(),
            final(self)@ == (CoreView {
                screen: screen_scrolled_down(
                    old(self)@.screen,
                    old(self)@.bit_plane_selector,
                    d as int,
                ),
                ..old(self)@
            }),
    {
        let sel0: bool = self.bit_plane_selector % 2 == 1;
        let sel1: bool = (self.bit_plane_selector / 2) % 2 == 1;
        if sel0 {
            self.display.scroll_plane_down(0, d);
        }
        if sel1 {
            self.display.scroll_plane_down(1, d);
        }
        proof {
            assert(self@.screen =~~= screen_scrolled_down(
                old(self)@.screen,
                old(self)@.bit_plane_selector,
                d as int,
            ));
            assert(self@ =~~= (CoreView {
                screen: screen_scrolled_down(
                    old(self)@.screen,
                    old(self)@.bit_plane_selector,
                    d as int,
                ),
                ..old(self)@
            }));
        }
    }

    /// Scrolls every selected plane left by `d` columns.
    fn do_scroll_left(&mut self, d: usize)
        requires
            old(self).wf(),
            d < 128,
        ensures
            final(self).wf(),
            final(self)@ == (CoreView {
                screen: screen_scrolled_left(
                    old(self)@.screen,
                    old(self)@.bit_plane_selector,
                    d as int,
                ),
                ..old(self)@
            }),
    {
        let sel0: bool = self.bit_plane_selector % 2 == 1;
        let sel1: bool = (self.bit_plane_selector / 2) % 2 == 1;
        if sel0 {
            self.display.scroll_plane_left(0, d);
        }
        if sel1 {
            self.display.scroll_plane_left(1, d);
        }
        proof {
            assert(self@.screen =~~= screen_scrolled_left(
                old(self)@.screen,
                old(self)@.bit_plane_selector,
                d as int,
            ));
            assert(self@ =~~= (CoreView {
                screen: screen_scrolled_left(
                    old(self)@.screen,
                    old(self)@.bit_plane_selector,
                    d as int,
                ),
                ..old(self)@
            }));
        }
    }

    /// Scrolls every selected plane right by `d` columns.
    fn do_scroll_right(&mut self, d: usize)
        requires
            old(self).wf(),
            d < 128,
        ensures
            final(self).wf(),
            final(self)@ == (CoreView {
                screen: screen_scrolled_right(
                    old(self)@.screen,
                    old(self)@.bit_plane_selector,
                    d as int,
                ),
                ..old(self)@
            }),
    {
        let sel0: bool = self.bit_plane_selector % 2 == 1;
        let sel1: bool = (self.bit_plane_selector / 2) % 2 == 1;
        if sel0 {
            self.display.scroll_plane_right(0, d);
        }
        if sel1 {
            self.display.scroll_plane_right(1, d);
        }
        proof {
            assert(self@.screen =~~= screen_scrolled_right(
                old(self)@.screen,
                old(self)@.bit_plane_selector,
                d as int,
            ));
            assert(self@ =~~= (CoreView {
                screen: screen_scrolled_right(
                    old(self)@.screen,
                    old(self)@.bit_plane_selector,
                    d as int,
                ),
                ..old(self)@
            }));
        }
    }

    /// Draws both planes' pages in order, stopping at the first fault.
    #[verifier::rlimit(100)]
    #[verifier::spinoff_prover]
    fn draw_planes(&mut self, col: u8, row: u8, n: u8) -> (r: Result<(), CoreError>)
        requires
            old(self).wf(),
            n < 16,
        ensures
            final(self).wf(),
            ({
                let dp = draw_planes_spec(
                    old(self)@,
                    old(self)@.bit_plane_selector,
                    col,
                    row,
                    n,
                );
                &&& final(self)@ == dp.s
                &&& match r {
                    Ok(_) => dp.fault is None,
                    Err(e) => dp.fault == Some(e.error_type),
                }
            }),
    {
        proof {
            reveal(draw_planes_spec);
        }
        let ghost s0 = old(self)@;
        let ghost sel = old(self)@.bit_plane_selector;
        let sel0: bool = self.bit_plane_selector % 2 == 1;
        let sel1: bool = (self.bit_plane_selector / 2) % 2 == 1;
        let page1: usize = if sel0 {
            1
        } else {
            0
        };
        proof {
            assert(sel0 == plane_selected(sel, 0));
            assert(sel1 == plane_selected(sel, 1));
            if plane_selected(sel, 0) {
                lemma_draw_layer_frame(s0, 0, 0, col, row, n);
            }
        }
        if sel0 {
            match self.draw_sprite(col, row, n, 0, 0) {
                Ok(_) => {},
                Err(e) => {
                    return Err(e);
                },
            }
        }
        if sel1 {
            proof {
                lemma_draw_layer_frame(self@, 1, page1 as int, col, row, n);
            }
            match self.draw_sprite(col, row, n, page1, 1) {
                Ok(_) => {},
                Err(e) => {
                    return Err(e);
                },
            }
        }
        Ok(())
    }

    /// The whole draw instruction over the selected planes.
    #[verifier::rlimit(100)]
    #[verifier::spinoff_prover]
    fn op_draw(&mut self, x: u8, y: u8, n: u8) -> (r: Result<(), CoreError>)
        requires
            old(self).wf(),
            x < 16,
            y < 16,
            n < 16,
        ensures
            final(self).wf(),
            ({
                let out = exec_draw(old(self)@, x, y, n);
                &&& final(self)@ == out.s
                &&& match r {
                    Ok(_) => out.fault is None,
                    Err(e) => out.fault == Some(e.error_type),
                }
            }),
    {
        let col: u8 = self.v[x as usize];
        let row: u8 = self.v[y as usize];
        self.v.set(15, 0);
        let ghost s0 = self@;
        proof {
            assert(s0 == (CoreView { v: old(self)@.v.update(15, 0), ..old(self)@ }));
            lemma_exec_draw_parts(old(self)@, x, y, n);
            lemma_draw_planes_frame(s0, s0.bit_plane_selector, col, row, n);
        }
        match self.draw_planes(col, row, n) {
            Ok(_) => {},
            Err(e) => {
                return Err(e);
            },
        }
        if self.quirks.display_wait {
            self.waiting_for_vblank = true;
        }
        Ok(())
    }
}

/// Whether executing `op` on `pre` (whose `pc` is already past the
/// opcode) gives the state `post` and the outcome `r`, with `rnd` feeding
/// the random instruction.
pub open spec fn exec_matches(
    pre: CoreView,
    post: CoreView,
    op: u16,
    r: Result<i32, CoreError>,
    rnd: u8,
) -> bool {
    let out = spec_exec(pre, op, rnd);
    &&& post == out.s
    &&& match r {
        Ok(v) => out.fault is None && v == 1,
        Err(e) => out.fault == Some(e.error_type),
    }
}

/// Whether one whole `step` call from `pre` gives the state `post` and
/// the outcome `r`, with `rnd` feeding the random instruction.
pub open spec fn step_matches(
    pre: CoreView,
    post: CoreView,
    r: Result<i32, CoreError>,
    rnd: u8,
) -> bool {
    let out = spec_step(pre, rnd);
    &&& post == out.s
    &&& match r {
        Ok(v) => out.fault is None && v == 1,
        Err(e) => out.fault == Some(e.error_type),
    }
}

impl Chip8 {
    /// Executes the system opcodes: screen clears, scrolls, returns and mode switches.
    #[verifier::rlimit(100)]
    #[verifier::spinoff_prover]
    fn exec_sys(&mut self, op: u16, instr: Instr) -> (r: Result<i32, CoreError>)
        requires
            old(self).wf(),
            instr == spec_decode(op),
            instr matches Instr::ScrollDown(_) || instr matches Instr::ScrollUp(_) || instr matches Instr::Cls || instr matches Instr::Ret || instr matches Instr::ScrollRight || instr matches Instr::ScrollLeft || instr matches Instr::LoresMode || instr matches Instr::HiresMode,
        ensures
            final(self).wf(),
            exists|rnd: u8| #[trigger] exec_matches(old(self)@, final(self)@, op, r, rnd),
    {
        let ghost pre = old(self)@;
        match instr {

            Instr::ScrollDown(n) => {
                if !self.super_chip_enabled {
                    let e = CoreError::new(
                        String::from_str("opcode is SuperChip-only"),
                        CoreErrorType::InvalidOpcode(self.pc, op),
                    );
                    proof {
                        assert(exec_matches(pre, self@, op, Err::<i32, CoreError>(e), 0));
                    }
                    return Err(e);
                }
                let d: usize = if self.hires_mode {
                    n as usize
                } else {
                    2 * n as usize
                };
                self.do_scroll_down(d);
                proof {
                    assert(exec_matches(pre, self@, op, Ok::<i32, CoreError>(1), 0));
                }
                Ok(1)
            },

            Instr::ScrollUp(n) => {
                let d: usize = if self.hires_mode {
                    n as usize
                } else {
                    2 * n as usize
                };
                self.do_scroll_up(d);
                proof {
                    assert(exec_matches(pre, self@, op, Ok::<i32, CoreError>(1), 0));
                }
                Ok(1)
            },

            Instr::Cls => {
                self.do_cls();
                proof {
                    assert(exec_matches(pre, self@, op, Ok::<i32, CoreError>(1), 0));
                }
                Ok(1)
            },

            Instr::Ret => {
                if self.sp == 0 {
                    let e = CoreError::new(
                        String::from_str("return with an empty call stack"),
                        CoreErrorType::StackOverflow(self.pc, self.sp),
                    );
                    proof {
                        assert(exec_matches(pre, self@, op, Err::<i32, CoreError>(e), 0));
                    }
                    return Err(e);
                }
                self.sp = self.sp - 1;
                self.pc = self.stack[self.sp as usize];
                proof {
                    assert(exec_matches(pre, self@, op, Ok::<i32, CoreError>(1), 0));
                }
                Ok(1)
            },

            Instr::ScrollRight => {
                if !self.super_chip_enabled {
                    let e = CoreError::new(
                        String::from_str("opcode is SuperChip-only"),
                        CoreErrorType::InvalidOpcode(self.pc, op),
                    );
                    proof {
                        assert(exec_matches(pre, self@, op, Err::<i32, CoreError>(e), 0));
                    }
                    return Err(e);
                }
                let d: usize = if self.hires_mode {
                    4
                } else {
                    8
                };
                self.do_scroll_right(d);
                proof {
                    assert(exec_matches(pre, self@, op, Ok::<i32, CoreError>(1), 0));
                }
                Ok(1)
            },

            Instr::ScrollLeft => {
                if !self.super_chip_enabled {
                    let e = CoreError::new(
                        String::from_str("opcode is SuperChip-only"),
                        CoreErrorType::InvalidOpcode(self.pc, op),
                    );
                    proof {
                        assert(exec_matches(pre, self@, op, Err::<i32, CoreError>(e), 0));
                    }
                    return Err(e);
                }
                let d: usize = if self.hires_mode {
                    4
                } else {
                    8
                };
                self.do_scroll_left(d);
                proof {
                    assert(exec_matches(pre, self@, op, Ok::<i32, CoreError>(1), 0));
                }
                Ok(1)
            },

            Instr::LoresMode => {
                if !self.super_chip_enabled {
                    let e = CoreError::new(
                        String::from_str("opcode is SuperChip-only"),
                        CoreErrorType::InvalidOpcode(self.pc, op),
                    );
                    proof {
                        assert(exec_matches(pre, self@, op, Err::<i32, CoreError>(e), 0));
                    }
                    return Err(e);
                }
                self.hires_mode = false;
                self.clear_all_planes();
                proof {
                    assert(exec_matches(pre, self@, op, Ok::<i32, CoreError>(1), 0));
                }
                Ok(1)
            },

            Instr::HiresMode => {
                if !self.super_chip_enabled {
                    let e = CoreError::new(
                        String::from_str("opcode is SuperChip-only"),
                        CoreErrorType::InvalidOpcode(self.pc, op),
                    );
                    proof {
                        assert(exec_matches(pre, self@, op, Err::<i32, CoreError>(e), 0));
                    }
                    return Err(e);
                }
                self.hires_mode = true;
                self.clear_all_planes();
                proof {
                    assert(exec_matches(pre, self@, op, Ok::<i32, CoreError>(1), 0));
                }
                Ok(1)
            },
            _ => {
                proof {
                    assert(false);
                }
                Ok(1)
            },
        }
    }

    /// Executes the control-flow opcodes: jumps, calls and conditional skips.
    #[verifier::rlimit(100)]
    #[verifier::spinoff_prover]
    fn exec_flow(&mut self, op: u16, instr: Instr) -> (r: Result<i32, CoreError>)
        requires
            old(self).wf(),
            instr == spec_decode(op),
            instr matches Instr::Jump(_) || instr matches Instr::Call(_) || instr matches Instr::SkipEqImm(_, _) || instr matches Instr::SkipNeImm(_, _) || instr matches Instr::SkipEqReg(_, _) || instr matches Instr::SkipNeReg(_, _) || instr matches Instr::SkipKey(_) || instr matches Instr::SkipNoKey(_) || instr matches Instr::JumpV0(_, _),
        ensures
            final(self).wf(),
            exists|rnd: u8| #[trigger] exec_matches(old(self)@, final(self)@, op, r, rnd),
    {
        let ghost pre = old(self)@;
        match instr {

            Instr::Jump(nnn) => {
                self.pc = nnn;
                proof {
                    assert(exec_matches(pre, self@, op, Ok::<i32, CoreError>(1), 0));
                }
                Ok(1)
            },

            Instr::Call(nnn) => {
                if self.sp > 15 {
                    let e = CoreError::new(
                        String::from_str("call with a full stack"),
                        CoreErrorType::StackOverflow(self.pc, self.sp),
                    );
                    proof {
                        assert(exec_matches(pre, self@, op, Err::<i32, CoreError>(e), 0));
                    }
                    return Err(e);
                }
                let pc0: u16 = self.pc;
                self.stack.set(self.sp as usize, pc0);
                self.sp = self.sp + 1;
                self.pc = nnn;
                proof {
                    assert(exec_matches(pre, self@, op, Ok::<i32, CoreError>(1), 0));
                }
                Ok(1)
            },

            Instr::SkipEqImm(x, kk) => {
                if self.v[x as usize] == kk {
                    self.skip_opcode();
                }
                proof {
                    assert(exec_matches(pre, self@, op, Ok::<i32, CoreError>(1), 0));
                }
                Ok(1)
            },

            Instr::SkipNeImm(x, kk) => {
                if self.v[x as usize] != kk {
                    self.skip_opcode();
                }
                proof {
                    assert(exec_matches(pre, self@, op, Ok::<i32, CoreError>(1), 0));
                }
                Ok(1)
            },

            Instr::SkipEqReg(x, y) => {
                if self.v[x as usize] == self.v[y as usize] {
                    self.skip_opcode();
                }
                proof {
                    assert(exec_matches(pre, self@, op, Ok::<i32, CoreError>(1), 0));
                }
                Ok(1)
            },

            Instr::SkipNeReg(x, y) => {
                if self.v[x as usize] != self.v[y as usize] {
                    self.skip_opcode();
                }
                proof {
                    assert(exec_matches(pre, self@, op, Ok::<i32, CoreError>(1), 0));
                }
                Ok(1)
            },

            Instr::SkipKey(x) => {
                let key: u8 = self.v[x as usize] % 16;
                if self.keyboard[key as usize] {
                    self.skip_opcode();
                }
                proof {
                    assert(exec_matches(pre, self@, op, Ok::<i32, CoreError>(1), 0));
                }
                Ok(1)
            },

            Instr::SkipNoKey(x) => {
                let key: u8 = self.v[x as usize] % 16;
                if !self.keyboard[key as usize] {
                    self.skip_opcode();
                }
                proof {
                    assert(exec_matches(pre, self@, op, Ok::<i32, CoreError>(1), 0));
                }
                Ok(1)
            },

            Instr::JumpV0(x, nnn) => {
                let base: u8 = if self.quirks.jump_plus_vx {
                    self.v[x as usize]
                } else {
                    self.v[0]
                };
                self.pc = base as u16 + nnn;
                proof {
                    assert(exec_matches(pre, self@, op, Ok::<i32, CoreError>(1), 0));
                }
                Ok(1)
            },
            _ => {
                proof {
                    assert(false);
                }
                Ok(1)
            },
        }
    }

    /// Executes the register-arithmetic opcodes.
    #[verifier::rlimit(100)]
    #[verifier::spinoff_prover]
    fn exec_alu(&mut self, op: u16, instr: Instr) -> (r: Result<i32, CoreError>)
        requires
            old(self).wf(),
            instr == spec_decode(op),
            instr matches Instr::LoadImm(_, _) || instr matches Instr::AddImm(_, _) || instr matches Instr::Move(_, _) || instr matches Instr::Or(_, _) || instr matches Instr::And(_, _) || instr matches Instr::Xor(_, _) || instr matches Instr::Add(_, _) || instr matches Instr::Sub(_, _) || instr matches Instr::Shr(_, _) || instr matches Instr::Subn(_, _) || instr matches Instr::Shl(_, _),
        ensures
            final(self).wf(),
            exists|rnd: u8| #[trigger] exec_matches(old(self)@, final(self)@, op, r, rnd),
    {
        let ghost pre = old(self)@;
        match instr {

            Instr::LoadImm(x, kk) => {
                self.v.set(x as usize, kk);
                proof {
                    assert(exec_matches(pre, self@, op, Ok::<i32, CoreError>(1), 0));
                }
                Ok(1)
            },

            Instr::AddImm(x, kk) => {
                let sum: u16 = self.v[x as usize] as u16 + kk as u16;
                self.v.set(x as usize, (sum % 256) as u8);
                proof {
                    assert(exec_matches(pre, self@, op, Ok::<i32, CoreError>(1), 0));
                }
                Ok(1)
            },

            Instr::Move(x, y) => {
                let vy: u8 = self.v[y as usize];
                self.v.set(x as usize, vy);
                proof {
                    assert(exec_matches(pre, self@, op, Ok::<i32, CoreError>(1), 0));
                }
                Ok(1)
            },

            Instr::Or(x, y) => {
                let r8: u8 = self.v[x as usize] | self.v[y as usize];
                self.v.set(x as usize, r8);
                if self.quirks.vf_reset {
                    self.v.set(15, 0);
                }
                proof {
                    assert(exec_matches(pre, self@, op, Ok::<i32, CoreError>(1), 0));
                }
                Ok(1)
            },

            Instr::And(x, y) => {
                let r8: u8 = self.v[x as usize] & self.v[y as usize];
                self.v.set(x as usize, r8);
                if self.quirks.vf_reset {
                    self.v.set(15, 0);
                }
                proof {
                    assert(exec_matches(pre, self@, op, Ok::<i32, CoreError>(1), 0));
                }
                Ok(1)
            },

            Instr::Xor(x, y) => {
                let r8: u8 = self.v[x as usize] ^ self.v[y as usize];
                self.v.set(x as usize, r8);
                if self.quirks.vf_reset {
                    self.v.set(15, 0);
                }
                proof {
                    assert(exec_matches(pre, self@, op, Ok::<i32, CoreError>(1), 0));
                }
                Ok(1)
            },

            Instr::Add(x, y) => {
                let sum: u16 = self.v[x as usize] as u16 + self.v[y as usize] as u16;
                let flag: u8 = if sum > 255 {
                    1
                } else {
                    0
                };
                self.v.set(x as usize, (sum % 256) as u8);
                self.v.set(15, flag);
                proof {
                    assert(exec_matches(pre, self@, op, Ok::<i32, CoreError>(1), 0));
                }
                Ok(1)
            },

            Instr::Sub(x, y) => {
                let vx: u8 = self.v[x as usize];
                let vy: u8 = self.v[y as usize];
                let diff: u8 = if vx >= vy {
                    vx - vy
                } else {
                    ((vx as u16 + 256) - vy as u16) as u8
                };
                let flag: u8 = if vx >= vy {
                    1
                } else {
                    0
                };
                self.v.set(x as usize, diff);
                self.v.set(15, flag);
                proof {
                    assert(exec_matches(pre, self@, op, Ok::<i32, CoreError>(1), 0));
                }
                Ok(1)
            },

            Instr::Shr(x, y) => {
                let src: u8 = if self.quirks.shifting_vx {
                    self.v[x as usize]
                } else {
                    self.v[y as usize]
                };
                self.v.set(x as usize, src / 2);
                self.v.set(15, src % 2);
                proof {
                    assert(exec_matches(pre, self@, op, Ok::<i32, CoreError>(1), 0));
                }
                Ok(1)
            },

            Instr::Subn(x, y) => {
                let vx: u8 = self.v[x as usize];
                let vy: u8 = self.v[y as usize];
                let diff: u8 = if vy >= vx {
                    vy - vx
                } else {
                    ((vy as u16 + 256) - vx as u16) as u8
                };
                let flag: u8 = if vy >= vx {
                    1
                } else {
                    0
                };
                self.v.set(x as usize, diff);
                self.v.set(15, flag);
                proof {
                    assert(exec_matches(pre, self@, op, Ok::<i32, CoreError>(1), 0));
                }
                Ok(1)
            },

            Instr::Shl(x, y) => {
                let src: u8 = if self.quirks.shifting_vx {
                    self.v[x as usize]
                } else {
                    self.v[y as usize]
                };
                let doubled: u16 = src as u16 * 2;
                self.v.set(x as usize, (doubled % 256) as u8);
                self.v.set(15, src / 128);
                proof {
                    assert(exec_matches(pre, self@, op, Ok::<i32, CoreError>(1), 0));
                }
                Ok(1)
            },
            _ => {
                proof {
                    assert(false);
                }
                Ok(1)
            },
        }
    }

    /// Executes the index-register and memory-transfer opcodes.
    #[verifier::rlimit(100)]
    #[verifier::spinoff_prover]
    fn exec_mem(&mut self, op: u16, instr: Instr) -> (r: Result<i32, CoreError>)
        requires
            old(self).wf(),
            instr == spec_decode(op),
            instr matches Instr::StoreRange(_, _) || instr matches Instr::LoadRange(_, _) || instr matches Instr::LoadI(_) || instr matches Instr::WideLoadI || instr matches Instr::AddI(_) || instr matches Instr::Font(_) || instr matches Instr::BigFont(_) || instr matches Instr::Bcd(_) || instr matches Instr::StoreRegs(_) || instr matches Instr::LoadRegs(_) || instr matches Instr::StoreRpl(_) || instr matches Instr::LoadRpl(_),
        ensures
            final(self).wf(),
            exists|rnd: u8| #[trigger] exec_matches(old(self)@, final(self)@, op, r, rnd),
    {
        let ghost pre = old(self)@;
        match instr {

            Instr::StoreRange(x, y) => {
                match self.op_store_range(x, y) {
                    Ok(_) => {
                        proof {
                            assert(exec_matches(pre, self@, op, Ok::<i32, CoreError>(1), 0));
                        }
                        Ok(1)
                    },
                    Err(e) => {
                        proof {
                            assert(exec_matches(pre, self@, op, Err::<i32, CoreError>(e), 0));
                        }
                        Err(e)
                    },
                }
            },

            Instr::LoadRange(x, y) => {
                match self.op_load_range(x, y) {
                    Ok(_) => {
                        proof {
                            assert(exec_matches(pre, self@, op, Ok::<i32, CoreError>(1), 0));
                        }
                        Ok(1)
                    },
                    Err(e) => {
                        proof {
                            assert(exec_matches(pre, self@, op, Err::<i32, CoreError>(e), 0));
                        }
                        Err(e)
                    },
                }
            },

            Instr::LoadI(nnn) => {
                self.i = nnn;
                proof {
                    assert(exec_matches(pre, self@, op, Ok::<i32, CoreError>(1), 0));
                }
                Ok(1)
            },

            Instr::WideLoadI => {
                let w: u16 = self.fetch_opcode();
                self.i = w;
                self.pc = wrap_add16(self.pc, 2);
                proof {
                    assert(exec_matches(pre, self@, op, Ok::<i32, CoreError>(1), 0));
                }
                Ok(1)
            },

            Instr::AddI(x) => {
                let vx16: u16 = self.v[x as usize] as u16;
                if self.i > 0xFFFF - vx16 {
                    let e = CoreError::new(
                        String::from_str("index register would leave the memory bound"),
                        CoreErrorType::InvalidMemoryPtr(self.pc, self.i as usize + vx16 as usize),
                    );
                    proof {
                        assert(exec_matches(pre, self@, op, Err::<i32, CoreError>(e), 0));
                    }
                    return Err(e);
                }
                self.i = self.i + vx16;
                proof {
                    assert(exec_matches(pre, self@, op, Ok::<i32, CoreError>(1), 0));
                }
                Ok(1)
            },

            Instr::Font(x) => {
                let digit: u16 = (self.v[x as usize] % 16) as u16;
                self.i = digit * 5 + 0x50;
                proof {
                    assert(exec_matches(pre, self@, op, Ok::<i32, CoreError>(1), 0));
                }
                Ok(1)
            },

            Instr::BigFont(x) => {
                if !self.super_chip_enabled {
                    let e = CoreError::new(
                        String::from_str("opcode is SuperChip-only"),
                        CoreErrorType::InvalidOpcode(self.pc, op),
                    );
                    proof {
                        assert(exec_matches(pre, self@, op, Err::<i32, CoreError>(e), 0));
                    }
                    return Err(e);
                }
                let digit: u16 = (self.v[x as usize] % 16) as u16;
                self.i = digit * 10 + 0xA0;
                proof {
                    assert(exec_matches(pre, self@, op, Ok::<i32, CoreError>(1), 0));
                }
                Ok(1)
            },

            Instr::Bcd(x) => {
                match self.op_bcd(x) {
                    Ok(_) => {
                        proof {
                            assert(exec_matches(pre, self@, op, Ok::<i32, CoreError>(1), 0));
                        }
                        Ok(1)
                    },
                    Err(e) => {
                        proof {
                            assert(exec_matches(pre, self@, op, Err::<i32, CoreError>(e), 0));
                        }
                        Err(e)
                    },
                }
            },

            Instr::StoreRegs(x) => {
                match self.op_store_regs(x) {
                    Ok(_) => {
                        proof {
                            assert(exec_matches(pre, self@, op, Ok::<i32, CoreError>(1), 0));
                        }
                        Ok(1)
                    },
                    Err(e) => {
                        proof {
                            assert(exec_matches(pre, self@, op, Err::<i32, CoreError>(e), 0));
                        }
                        Err(e)
                    },
                }
            },

            Instr::LoadRegs(x) => {
                match self.op_load_regs(x) {
                    Ok(_) => {
                        proof {
                            assert(exec_matches(pre, self@, op, Ok::<i32, CoreError>(1), 0));
                        }
                        Ok(1)
                    },
                    Err(e) => {
                        proof {
                            assert(exec_matches(pre, self@, op, Err::<i32, CoreError>(e), 0));
                        }
                        Err(e)
                    },
                }
            },

            Instr::StoreRpl(x) => {
                if !self.super_chip_enabled {
                    let e = CoreError::new(
                        String::from_str("opcode is SuperChip-only"),
                        CoreErrorType::InvalidOpcode(self.pc, op),
                    );
                    proof {
                        assert(exec_matches(pre, self@, op, Err::<i32, CoreError>(e), 0));
                    }
                    return Err(e);
                }
                if x > 8 {
                    let e = CoreError::new(
                        String::from_str("flag register index out of range"),
                        CoreErrorType::InvalidOpcode(self.pc, op),
                    );
                    proof {
                        assert(exec_matches(pre, self@, op, Err::<i32, CoreError>(e), 0));
                    }
                    return Err(e);
                }
                let vx: u8 = self.v[x as usize];
                self.rpl.set(x as usize, vx);
                proof {
                    assert(exec_matches(pre, self@, op, Ok::<i32, CoreError>(1), 0));
                }
                Ok(1)
            },

            Instr::LoadRpl(x) => {
                if !self.super_chip_enabled {
                    let e = CoreError::new(
                        String::from_str("opcode is SuperChip-only"),
                        CoreErrorType::InvalidOpcode(self.pc, op),
                    );
                    proof {
                        assert(exec_matches(pre, self@, op, Err::<i32, CoreError>(e), 0));
                    }
                    return Err(e);
                }
                if x > 8 {
                    let e = CoreError::new(
                        String::from_str("flag register index out of range"),
                        CoreErrorType::InvalidOpcode(self.pc, op),
                    );
                    proof {
                        assert(exec_matches(pre, self@, op, Err::<i32, CoreError>(e), 0));
                    }
                    return Err(e);
                }
                let fv: u8 = self.rpl[x as usize];
                self.v.set(x as usize, fv);
                proof {
                    assert(exec_matches(pre, self@, op, Ok::<i32, CoreError>(1), 0));
                }
                Ok(1)
            },
            _ => {
                proof {
                    assert(false);
                }
                Ok(1)
            },
        }
    }

    /// Executes the remaining opcodes: random, draw, sound, timers, input waits.
    #[verifier::rlimit(100)]
    #[verifier::spinoff_prover]
    fn exec_misc(&mut self, op: u16, instr: Instr) -> (r: Result<i32, CoreError>)
        requires
            old(self).wf(),
            instr == spec_decode(op),
            instr matches Instr::Rand(_, _) || instr matches Instr::Draw(_, _, _) || instr matches Instr::LoadAudio || instr matches Instr::SelectPlanes(_) || instr matches Instr::ReadDelay(_) || instr matches Instr::WaitKey(_) || instr matches Instr::SetDelay(_) || instr matches Instr::SetSound(_) || instr matches Instr::SetPitch(_) || instr matches Instr::Invalid,
        ensures
            final(self).wf(),
            exists|rnd: u8| #[trigger] exec_matches(old(self)@, final(self)@, op, r, rnd),
    {
        let ghost pre = old(self)@;
        match instr {

            Instr::Rand(x, kk) => {
                let rv: u32 = crate::rng::random_u32();
                let b: u8 = #[verifier::truncate] (rv as u8);
                self.v.set(x as usize, b & kk);
                proof {
                    assert(exec_matches(pre, self@, op, Ok::<i32, CoreError>(1), b));
                }
                Ok(1)
            },

            Instr::Draw(x, y, n) => {
                match self.op_draw(x, y, n) {
                    Ok(_) => {
                        proof {
                            assert(exec_matches(pre, self@, op, Ok::<i32, CoreError>(1), 0));
                        }
                        Ok(1)
                    },
                    Err(e) => {
                        proof {
                            assert(exec_matches(pre, self@, op, Err::<i32, CoreError>(e), 0));
                        }
                        Err(e)
                    },
                }
            },

            Instr::LoadAudio => {
                match self.op_load_audio() {
                    Ok(_) => {
                        proof {
                            assert(exec_matches(pre, self@, op, Ok::<i32, CoreError>(1), 0));
                        }
                        Ok(1)
                    },
                    Err(e) => {
                        proof {
                            assert(exec_matches(pre, self@, op, Err::<i32, CoreError>(e), 0));
                        }
                        Err(e)
                    },
                }
            },

            Instr::SelectPlanes(x) => {
                self.bit_plane_selector = x;
                proof {
                    assert(exec_matches(pre, self@, op, Ok::<i32, CoreError>(1), 0));
                }
                Ok(1)
            },

            Instr::ReadDelay(x) => {
                let dt: u8 = self.dt;
                self.v.set(x as usize, dt);
                proof {
                    assert(exec_matches(pre, self@, op, Ok::<i32, CoreError>(1), 0));
                }
                Ok(1)
            },

            Instr::WaitKey(x) => {
                self.halt_input_register = x;
                self.halted_for_input = true;
                proof {
                    assert(exec_matches(pre, self@, op, Ok::<i32, CoreError>(1), 0));
                }
                Ok(1)
            },

            Instr::SetDelay(x) => {
                self.dt = self.v[x as usize];
                proof {
                    assert(exec_matches(pre, self@, op, Ok::<i32, CoreError>(1), 0));
                }
                Ok(1)
            },

            Instr::SetSound(x) => {
                self.st = self.v[x as usize];
                proof {
                    assert(exec_matches(pre, self@, op, Ok::<i32, CoreError>(1), 0));
                }
                Ok(1)
            },

            Instr::SetPitch(x) => {
                self.sound.pitch = self.v[x as usize];
                proof {
                    assert(exec_matches(pre, self@, op, Ok::<i32, CoreError>(1), 0));
                }
                Ok(1)
            },

            Instr::Invalid => {
                let e = CoreError::new(
                    String::from_str("opcode matches no known form"),
                    CoreErrorType::InvalidOpcode(self.pc, op),
                );
                proof {
                    assert(exec_matches(pre, self@, op, Err::<i32, CoreError>(e), 0));
                }
                Err(e)
            },
            _ => {
                proof {
                    assert(false);
                }
                Ok(1)
            },
        }
    }

    /// Executes one fetched opcode; `pc` has already advanced past it.
    fn exec_instr(&mut self, op: u16) -> (r: Result<i32, CoreError>)
        requires
            old(self).wf(),
        ensures
            final(self).wf(),
            exists|rnd: u8| #[trigger] exec_matches(old(self)@, final(self)@, op, r, rnd),
    {
        let instr: Instr = decode(op);
        match instr {
            Instr::ScrollDown(_) | Instr::ScrollUp(_) | Instr::Cls | Instr::Ret | Instr::ScrollRight | Instr::ScrollLeft | Instr::LoresMode | Instr::HiresMode => self.exec_sys(op, instr),
            Instr::Jump(_) | Instr::Call(_) | Instr::SkipEqImm(_, _) | Instr::SkipNeImm(_, _) | Instr::SkipEqReg(_, _) | Instr::SkipNeReg(_, _) | Instr::SkipKey(_) | Instr::SkipNoKey(_) | Instr::JumpV0(_, _) => self.exec_flow(op, instr),
            Instr::LoadImm(_, _) | Instr::AddImm(_, _) | Instr::Move(_, _) | Instr::Or(_, _) | Instr::And(_, _) | Instr::Xor(_, _) | Instr::Add(_, _) | Instr::Sub(_, _) | Instr::Shr(_, _) | Instr::Subn(_, _) | Instr::Shl(_, _) => self.exec_alu(op, instr),
            Instr::StoreRange(_, _) | Instr::LoadRange(_, _) | Instr::LoadI(_) | Instr::WideLoadI | Instr::AddI(_) | Instr::Font(_) | Instr::BigFont(_) | Instr::Bcd(_) | Instr::StoreRegs(_) | Instr::LoadRegs(_) | Instr::StoreRpl(_) | Instr::LoadRpl(_) => self.exec_mem(op, instr),
            Instr::Rand(_, _) | Instr::Draw(_, _, _) | Instr::LoadAudio | Instr::SelectPlanes(_) | Instr::ReadDelay(_) | Instr::WaitKey(_) | Instr::SetDelay(_) | Instr::SetSound(_) | Instr::SetPitch(_) | Instr::Invalid => self.exec_misc(op, instr),
        }
    }

    /// Performs one fetch-decode-execute transition, or returns at once
    /// while halted for input or waiting for the frame. A fault is fatal
    /// to this call only and leaves `pc` past the faulting opcode.
    pub fn step(&mut self) -> (r: Result<i32, CoreError>)
        requires
            old(self).wf(),
        ensures
            final(self).wf(),
            exists|rnd: u8| #[trigger] step_matches(old(self)@, final(self)@, r, rnd),
    {
        if self.halted_for_input || self.waiting_for_vblank {
            proof {
                assert(step_matches(old(self)@, self@, Ok::<i32, CoreError>(1), 0));
            }
            return Ok(1);
        }
        let op: u16 = self.fetch_opcode();
        self.pc = wrap_add16(self.pc, 2);
        proof {
            assert(self@ == (CoreView { pc: wrap16(old(self)@.pc + 2), ..old(self)@ }));
        }
        let ghost mid = self@;
        let r = self.exec_instr(op);
        proof {
            let rnd = choose|rnd: u8| exec_matches(mid, self@, op, r, rnd);
            assert(exec_matches(mid, self@, op, r, rnd));
            assert(step_matches(old(self)@, self@, r, rnd));
        }
        r
    }
}

/// The one-string debug dump of a machine state: the scalar registers and
/// the next opcode in hexadecimal, then one line each for the general
/// registers, the stack, the keyboard latch, and the mode flags.
pub open spec fn state_text(s: CoreView) -> Seq<char> {
    "PC 0x"@ + crate::text::spec_hex4(s.pc) + " I 0x"@ + crate::text::spec_hex4(s.i) + " SP 0x"@
        + crate::text::spec_hex2(s.sp as u8) + " DT 0x"@ + crate::text::spec_hex2(s.dt)
        + " ST 0x"@ + crate::text::spec_hex2(s.st) + " OP 0x"@ + crate::text::spec_hex4(
        word_at(s.memory, s.pc),
    ) + "\nV "@ + crate::text::regs_text(s.v, 0) + "\nSTACK "@ + crate::text::stack_text(
        s.stack,
        0,
    ) + "\nKEYS "@ + crate::text::keys_text(s.keyboard, 0) + "\nHALT "@ + crate::text::flag_text(
        s.halted_for_input,
    ) + " WAIT "@ + crate::text::flag_text(s.waiting_for_vblank) + " HIRES "@
        + crate::text::flag_text(s.hires_mode) + " PLANES 0x"@ + seq![
        crate::text::spec_hex_digit(s.bit_plane_selector as int % 16),
    ]
}

/// The machine state after one key event: the latch for the key is
/// overwritten, and a release of a latched key while halted for input
/// resolves the halt into the target register.
pub open spec fn spec_key_event(s: CoreView, k: u8, is_pressed: bool) -> CoreView {
    let resolves = s.halted_for_input && s.keyboard[k as int] && !is_pressed;
    let s1 = if resolves {
        CoreView {
            v: s.v.update(s.halt_input_register as int, k),
            halted_for_input: false,
            ..s
        }
    } else {
        s
    };
    CoreView { keyboard: s1.keyboard.update(k as int, is_pressed), ..s1 }
}

/// The mode a configuration name selects, on the lower-cased name.
pub open spec fn mode_for_name(name: Seq<char>) -> Option<Mode> {
    if name == "chip8modern"@ || name == "chip8"@ {
        Some(Mode::Chip8Modern)
    } else if name == "superchipmodern"@ || name == "superchip"@ {
        Some(Mode::SuperChipModern)
    } else if name == "superchiplegacy"@ {
        Some(Mode::SuperChipLegacy)
    } else if name == "xochip"@ {
        Some(Mode::XoChip)
    } else {
        None
    }
}

/// What `str::to_lowercase` returns: a function of the characters alone.
pub uninterp spec fn lower_of(s: Seq<char>) -> Seq<char>;

/// Relies on str::to_lowercase: the result depends on the characters
/// alone.
#[verifier::external_body]
fn lowercase(s: &str) -> (r: String)
    ensures
        r@ == lower_of(s@),
{
    s.to_lowercase()
}

/// Relies on str's equality: true exactly when the two strings hold the
/// same characters.
#[verifier::external_body]
fn str_eq(a: &str, b: &str) -> (r: bool)
    ensures
        r == (a@ == b@),
{
    a == b
}

} // verus!
