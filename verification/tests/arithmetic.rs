use chip8_core::machine::Chip8;
use chip8_core::quirks::{Mode, Quirks};

/// Loads a tiny program that computes `op(a, b)` into `v0` with operands
/// `a` in `v0` and `b` in `v1`, runs it, and jumps back to the entry
/// point so the machine can be reused.
fn run_binary_op(chip: &mut Chip8, opcode_hi: u8, opcode_lo: u8, a: u8, b: u8) {
    let rom = vec![0x60, a, 0x61, b, opcode_hi, opcode_lo, 0x12, 0x00];
    chip.load_rom(rom, 0x200).unwrap();
    for _ in 0..4 {
        chip.step().unwrap();
    }
    assert_eq!(chip.pc(), 0x200);
}

#[test]
fn add_matches_wrapping_semantics_exhaustively() {
    let mut chip = Chip8::new();
    for a in 0..=255u8 {
        for b in 0..=255u8 {
            run_binary_op(&mut chip, 0x80, 0x14, a, b);
            assert_eq!(chip.register(0), a.wrapping_add(b));
            assert_eq!(chip.register(0xF), if (a as u16) + (b as u16) > 255 { 1 } else { 0 });
        }
    }
}

#[test]
fn sub_matches_wrapping_semantics_exhaustively() {
    let mut chip = Chip8::new();
    for a in 0..=255u8 {
        for b in 0..=255u8 {
            run_binary_op(&mut chip, 0x80, 0x15, a, b);
            assert_eq!(chip.register(0), a.wrapping_sub(b));
            assert_eq!(chip.register(0xF), if a >= b { 1 } else { 0 });
        }
    }
}

#[test]
fn subn_matches_wrapping_semantics_exhaustively() {
    let mut chip = Chip8::new();
    for a in 0..=255u8 {
        for b in 0..=255u8 {
            run_binary_op(&mut chip, 0x80, 0x17, a, b);
            assert_eq!(chip.register(0), b.wrapping_sub(a));
            assert_eq!(chip.register(0xF), if b >= a { 1 } else { 0 });
        }
    }
}

#[test]
fn shr_matches_semantics_exhaustively() {
    // The default mode (XO-CHIP) has shifting_vx = false: the source is v[y].
    let mut chip = Chip8::new();
    for a in 0..=255u8 {
        for b in 0..=255u8 {
            run_binary_op(&mut chip, 0x80, 0x16, a, b);
            assert_eq!(chip.register(0), b >> 1);
            assert_eq!(chip.register(0xF), b & 1);
        }
    }
}

#[test]
fn shl_matches_semantics_exhaustively() {
    let mut chip = Chip8::new();
    for a in 0..=255u8 {
        for b in 0..=255u8 {
            run_binary_op(&mut chip, 0x80, 0x1E, a, b);
            assert_eq!(chip.register(0), b << 1);
            assert_eq!(chip.register(0xF), (b >> 7) & 1);
        }
    }
}

#[test]
fn add_imm_wraps_without_flag() {
    let mut chip = Chip8::new();
    // LD V0,0xFF; ADD V0,0x02 - the flag register is untouched.
    let rom = vec![0x60, 0xFF, 0x70, 0x02];
    chip.load_rom(rom, 0x200).unwrap();
    chip.step().unwrap();
    chip.step().unwrap();
    assert_eq!(chip.register(0), 0x01);
    assert_eq!(chip.register(0xF), 0);
}

#[test]
fn bitwise_ops_reset_flag_only_under_quirk() {
    // XO-CHIP: vf_reset = false.
    let mut chip = Chip8::new();
    let rom = vec![0x60, 0x0F, 0x61, 0xF0, 0x6F, 0x55, 0x80, 0x11];
    chip.load_rom(rom.clone(), 0x200).unwrap();
    for _ in 0..4 {
        chip.step().unwrap();
    }
    assert_eq!(chip.register(0), 0xFF);
    assert_eq!(chip.register(0xF), 0x55);
    // Chip8-Modern: vf_reset = true.
    let mut chip2 = Chip8::new();
    chip2.set_quirks_mode(Quirks::new(Mode::Chip8Modern));
    chip2.load_rom(rom, 0x200).unwrap();
    for _ in 0..4 {
        chip2.step().unwrap();
    }
    assert_eq!(chip2.register(0), 0xFF);
    assert_eq!(chip2.register(0xF), 0);
}

#[test]
fn bcd_splits_decimal_digits() {
    let mut chip = Chip8::new();
    // V0 = 254; I = 0x300; BCD; load V0..V2 back from the stored digits.
    let rom = vec![0x60, 0xFE, 0xA3, 0x00, 0xF0, 0x33, 0xF2, 0x65];
    chip.load_rom(rom, 0x200).unwrap();
    for _ in 0..4 {
        chip.step().unwrap();
    }
    assert_eq!(chip.register(0), 2);
    assert_eq!(chip.register(1), 5);
    assert_eq!(chip.register(2), 4);
}

#[test]
fn rnd_is_masked() {
    let mut chip = Chip8::new();
    let rom = vec![0xC0, 0x00, 0xC1, 0x0F];
    chip.load_rom(rom, 0x200).unwrap();
    chip.step().unwrap();
    chip.step().unwrap();
    assert_eq!(chip.register(0), 0);
    assert!(chip.register(1) <= 0x0F);
}
