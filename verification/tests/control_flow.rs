use chip8_core::error::CoreErrorType;
use chip8_core::machine::Chip8;
use chip8_core::quirks::{Mode, Quirks};

#[test]
fn cls_step_clears_display_and_advances_pc() {
    let mut chip = Chip8::new();
    chip.load_rom(vec![0x00, 0xE0], 0x200).unwrap();
    chip.step().unwrap();
    assert_eq!(chip.pc(), 0x202);
    let screen = chip.get_screen();
    for row in &screen {
        for cell in row {
            assert!(!cell[0] && !cell[1]);
        }
    }
}

#[test]
fn call_then_ret_restores_pc_and_stack_depth() {
    let mut chip = Chip8::new();
    chip.load_rom(vec![0x23, 0x00], 0x200).unwrap();
    chip.load_rom(vec![0x00, 0xEE], 0x300).unwrap();
    chip.step().unwrap();
    assert_eq!(chip.pc(), 0x300);
    assert_eq!(chip.stack_pointer(), 1);
    chip.step().unwrap();
    assert_eq!(chip.pc(), 0x202);
    assert_eq!(chip.stack_pointer(), 0);
}

#[test]
fn seventeenth_nested_call_faults_with_stack_overflow() {
    let mut chip = Chip8::new();
    // Seventeen chained calls, each to the next address.
    let mut rom: Vec<u8> = Vec::new();
    for k in 0..17u16 {
        let target = 0x200 + 2 * (k + 1);
        rom.push(0x20 | (target >> 8) as u8);
        rom.push((target & 0xFF) as u8);
    }
    chip.load_rom(rom, 0x200).unwrap();
    for _ in 0..16 {
        chip.step().unwrap();
    }
    assert_eq!(chip.stack_pointer(), 16);
    let err = chip.step().unwrap_err();
    assert!(matches!(err.error_type, CoreErrorType::StackOverflow(_, 16)));
}

#[test]
fn ret_with_empty_stack_faults_with_stack_overflow() {
    let mut chip = Chip8::new();
    chip.load_rom(vec![0x00, 0xEE], 0x200).unwrap();
    let err = chip.step().unwrap_err();
    assert!(matches!(err.error_type, CoreErrorType::StackOverflow(0x202, 0)));
}

#[test]
fn skip_over_wide_opcode_advances_four_bytes() {
    let mut chip = Chip8::new();
    // LD V0,5; SE V0,5 - the next opcode is the wide-load marker, so the
    // satisfied skip moves four bytes.
    let rom = vec![0x60, 0x05, 0x30, 0x05, 0xF0, 0x00, 0x12, 0x34];
    chip.load_rom(rom, 0x200).unwrap();
    chip.step().unwrap();
    chip.step().unwrap();
    assert_eq!(chip.pc(), 0x208);
}

#[test]
fn skip_not_taken_advances_two_bytes() {
    let mut chip = Chip8::new();
    let rom = vec![0x60, 0x05, 0x30, 0x06];
    chip.load_rom(rom, 0x200).unwrap();
    chip.step().unwrap();
    chip.step().unwrap();
    assert_eq!(chip.pc(), 0x204);
}

#[test]
fn jump_with_offset_register_follows_quirk() {
    // XO-CHIP: Bnnn jumps to v0 + nnn.
    let mut chip = Chip8::new();
    chip.load_rom(vec![0x60, 0x10, 0xB3, 0x00], 0x200).unwrap();
    chip.step().unwrap();
    chip.step().unwrap();
    assert_eq!(chip.pc(), 0x310);
    // SuperChip-Modern: Bnnn jumps to v[x] + nnn with x from the opcode.
    let mut chip2 = Chip8::new();
    chip2.set_quirks_mode(Quirks::new(Mode::SuperChipModern));
    chip2.load_rom(vec![0x63, 0x08, 0xB3, 0x00], 0x200).unwrap();
    chip2.step().unwrap();
    chip2.step().unwrap();
    assert_eq!(chip2.pc(), 0x308);
}

#[test]
fn invalid_opcode_faults() {
    let mut chip = Chip8::new();
    chip.load_rom(vec![0xFF, 0xFF], 0x200).unwrap();
    let err = chip.step().unwrap_err();
    assert!(matches!(err.error_type, CoreErrorType::InvalidOpcode(0x202, 0xFFFF)));
}

#[test]
fn add_index_past_memory_bound_faults() {
    let mut chip = Chip8::new();
    // Wide-load I = 0xFFFF; V0 = 0xFF; ADD I,V0 exceeds the bound.
    let rom = vec![0xF0, 0x00, 0xFF, 0xFF, 0x60, 0xFF, 0xF0, 0x1E];
    chip.load_rom(rom, 0x200).unwrap();
    chip.step().unwrap();
    assert_eq!(chip.index_register(), 0xFFFF);
    chip.step().unwrap();
    let err = chip.step().unwrap_err();
    assert!(matches!(err.error_type, CoreErrorType::InvalidMemoryPtr(_, _)));
}

#[test]
fn audio_pattern_past_memory_bound_faults() {
    let mut chip = Chip8::new();
    let rom = vec![0xF0, 0x00, 0xFF, 0xFF, 0xF0, 0x02];
    chip.load_rom(rom, 0x200).unwrap();
    chip.step().unwrap();
    let err = chip.step().unwrap_err();
    assert!(matches!(err.error_type, CoreErrorType::InvalidMemoryAccess(_, 0x1000E)));
}

#[test]
fn store_range_roundtrip_is_direction_aware() {
    let mut chip = Chip8::new();
    // V0=0x0A V1=0x0B V2=0x0C; I=0x300; store V2..V0 (descending), then
    // load V0..V2 (ascending): the values come back reversed.
    let rom = vec![
        0x60, 0x0A, 0x61, 0x0B, 0x62, 0x0C, 0xA3, 0x00, 0x52, 0x02, 0x50, 0x23,
    ];
    chip.load_rom(rom, 0x200).unwrap();
    for _ in 0..6 {
        chip.step().unwrap();
    }
    assert_eq!(chip.register(0), 0x0C);
    assert_eq!(chip.register(1), 0x0B);
    assert_eq!(chip.register(2), 0x0A);
}

#[test]
fn load_store_index_quirk_controls_index_advance() {
    // XO-CHIP: load_store_index_increase = true, so I advances by x + 1.
    let mut chip = Chip8::new();
    let rom = vec![0xA3, 0x00, 0x60, 0x11, 0x61, 0x22, 0xF1, 0x55];
    chip.load_rom(rom.clone(), 0x200).unwrap();
    for _ in 0..4 {
        chip.step().unwrap();
    }
    assert_eq!(chip.index_register(), 0x302);
    // SuperChip-Modern: the store leaves I unchanged.
    let mut chip2 = Chip8::new();
    chip2.set_quirks_mode(Quirks::new(Mode::SuperChipModern));
    chip2.load_rom(rom, 0x200).unwrap();
    for _ in 0..4 {
        chip2.step().unwrap();
    }
    assert_eq!(chip2.index_register(), 0x300);
}

#[test]
fn rpl_flags_survive_register_overwrites() {
    let mut chip = Chip8::new();
    let rom = vec![0x61, 0x42, 0xF1, 0x75, 0x61, 0x00, 0xF1, 0x85];
    chip.load_rom(rom, 0x200).unwrap();
    for _ in 0..4 {
        chip.step().unwrap();
    }
    assert_eq!(chip.register(1), 0x42);
    assert_eq!(chip.rpl_flag(1), 0x42);
}

#[test]
fn rpl_index_above_eight_faults() {
    let mut chip = Chip8::new();
    chip.load_rom(vec![0xF9, 0x75], 0x200).unwrap();
    let err = chip.step().unwrap_err();
    assert!(matches!(err.error_type, CoreErrorType::InvalidOpcode(0x202, 0xF975)));
}

#[test]
fn shift_source_follows_quirk_switch_immediately() {
    let mut chip = Chip8::new();
    chip.set_quirks_mode(Quirks::new(Mode::SuperChipModern));
    let rom = vec![0x60, 0xAA, 0x61, 0x44, 0x80, 0x16, 0x12, 0x00];
    chip.load_rom(rom, 0x200).unwrap();
    for _ in 0..4 {
        chip.step().unwrap();
    }
    // shifting_vx = true: the source is v0 itself.
    assert_eq!(chip.register(0), 0xAA >> 1);
    chip.set_quirks_mode(Quirks::new(Mode::Chip8Modern));
    for _ in 0..4 {
        chip.step().unwrap();
    }
    // shifting_vx = false on the very next run: the source is v1.
    assert_eq!(chip.register(0), 0x44 >> 1);
}
