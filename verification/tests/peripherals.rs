use chip8_core::error::CoreErrorType;
use chip8_core::machine::Chip8;
use chip8_core::types::Key;
use chip8_core::machine::Sound;
use chip8_core::quirks::{Mode, Quirks};

#[test]
fn initial_state_is_ready_at_entry_point() {
    let chip = Chip8::new();
    assert_eq!(chip.pc(), 0x200);
    assert_eq!(chip.stack_pointer(), 0);
    assert_eq!(chip.index_register(), 0);
    for k in 0..16u8 {
        assert_eq!(chip.register(k), 0);
    }
    assert!(!chip.halted_for_input());
    assert!(!chip.waiting_for_vblank());
    assert!(chip.get_state().starts_with("PC 0x0200 I 0x0000 SP 0x00"));
}

#[test]
fn load_rom_rejects_rom_past_memory_end() {
    let mut chip = Chip8::new();
    let err = chip.load_rom(vec![0x00, 0xE0], 0xFFFF).unwrap_err();
    assert!(matches!(err.error_type, CoreErrorType::InvalidRom(_)));
    // A ROM that ends exactly at the memory end fits.
    assert_eq!(chip.load_rom(vec![0x42], 0xFFFF).unwrap(), 1);
}

#[test]
fn timers_tick_down_to_zero_and_report_previous_values() {
    let mut chip = Chip8::new();
    let rom = vec![0x60, 0x02, 0xF0, 0x15, 0xF0, 0x18];
    chip.load_rom(rom, 0x200).unwrap();
    for _ in 0..3 {
        chip.step().unwrap();
    }
    assert_eq!(chip.delay_timer(), 2);
    assert_eq!(chip.sound_timer(), 2);
    assert_eq!(chip.tick_timers(), (2, 2));
    assert_eq!(chip.tick_timers(), (1, 1));
    assert_eq!(chip.tick_timers(), (0, 0));
    assert_eq!(chip.tick_timers(), (0, 0));
    assert_eq!(chip.delay_timer(), 0);
    assert_eq!(chip.sound_timer(), 0);
}

#[test]
fn halt_for_input_resolves_on_key_release() {
    let mut chip = Chip8::new();
    chip.load_rom(vec![0xF5, 0x0A], 0x200).unwrap();
    chip.step().unwrap();
    assert!(chip.halted_for_input());
    // Halted steps succeed without advancing.
    chip.step().unwrap();
    assert_eq!(chip.pc(), 0x202);
    // Pressing latches the key; only the release resolves the halt.
    chip.set_key_state(Key::A, true);
    assert!(chip.halted_for_input());
    chip.set_key_state(Key::A, false);
    assert!(!chip.halted_for_input());
    assert_eq!(chip.register(5), 10);
}

#[test]
fn skip_if_key_pressed_reads_the_latch() {
    let mut chip = Chip8::new();
    let rom = vec![0x60, 0x07, 0xE0, 0x9E];
    chip.load_rom(rom, 0x200).unwrap();
    chip.set_key_state(Key::Key7, true);
    chip.step().unwrap();
    chip.step().unwrap();
    assert_eq!(chip.pc(), 0x206);
}

#[test]
fn sound_buffer_is_consumed_once() {
    let mut chip = Chip8::new();
    // The initial buffer is dirty so the first consumer sees the default.
    let first = chip.get_sound().unwrap();
    assert_eq!(first.pitch, 247);
    assert_eq!(first.pattern.len(), 16);
    assert_eq!(&first.pattern[..8], &[0u8; 8]);
    assert_eq!(&first.pattern[8..], &[0xFFu8; 8]);
    assert!(chip.get_sound().is_none());
    // F002 reloads the pattern from memory at I and marks it dirty again.
    let rom = vec![0xA0, 0x50, 0xF0, 0x02, 0x60, 0x99, 0xF0, 0x3A];
    chip.load_rom(rom, 0x200).unwrap();
    for _ in 0..4 {
        chip.step().unwrap();
    }
    let reloaded = chip.get_sound().unwrap();
    assert_eq!(reloaded.pitch, 0x99);
    // The first font glyph bytes start the pattern.
    assert_eq!(reloaded.pattern[0], 0xF0);
    assert_eq!(reloaded.pattern[1], 0x90);
    assert!(chip.get_sound().is_none());
}

#[test]
fn vblank_wait_is_cleared_by_the_frame_signal() {
    let mut chip = Chip8::new();
    chip.set_quirks_mode(Quirks::new(Mode::Chip8Modern));
    // Chip8-Modern has display_wait: a draw suspends execution.
    let rom = vec![0xD0, 0x11, 0x60, 0x42];
    chip.load_rom(rom, 0x200).unwrap();
    chip.step().unwrap();
    assert!(chip.waiting_for_vblank());
    chip.step().unwrap();
    assert_eq!(chip.register(0), 0, "no instruction runs while waiting");
    chip.v_blank();
    assert!(!chip.waiting_for_vblank());
    chip.step().unwrap();
    assert_eq!(chip.register(0), 0x42);
}

#[test]
fn mode_names_select_quirks_case_insensitively() {
    let mut chip = Chip8::new();
    assert!(chip.try_set_core_mode(&String::from("SUPERCHIP")));
    assert_eq!(*chip.quirks_mode(), Quirks::new(Mode::SuperChipModern));
    assert!(chip.try_set_core_mode(&String::from("Chip8Modern")));
    assert_eq!(*chip.quirks_mode(), Quirks::new(Mode::Chip8Modern));
    assert!(chip.try_set_core_mode(&String::from("superchiplegacy")));
    assert_eq!(*chip.quirks_mode(), Quirks::new(Mode::SuperChipLegacy));
    assert!(chip.try_set_core_mode(&String::from("xochip")));
    assert_eq!(*chip.quirks_mode(), Quirks::new(Mode::XoChip));
    assert!(!chip.try_set_core_mode(&String::from("chip16")));
    assert_eq!(*chip.quirks_mode(), Quirks::new(Mode::XoChip));
}

#[test]
fn quirk_table_matches_the_documented_modes() {
    let q = Quirks::new(Mode::Chip8Modern);
    assert!(q.vf_reset && q.load_store_index_increase && q.display_wait && q.clipping);
    assert!(!q.shifting_vx && !q.jump_plus_vx);
    let q = Quirks::new(Mode::SuperChipModern);
    assert!(!q.vf_reset && !q.load_store_index_increase && !q.display_wait);
    assert!(q.clipping && q.shifting_vx && q.jump_plus_vx);
    let q = Quirks::new(Mode::SuperChipLegacy);
    assert!(!q.vf_reset && !q.load_store_index_increase && q.display_wait);
    assert!(q.clipping && q.shifting_vx && q.jump_plus_vx);
    let q = Quirks::new(Mode::XoChip);
    assert!(!q.vf_reset && q.load_store_index_increase && !q.display_wait);
    assert!(!q.clipping && !q.shifting_vx && !q.jump_plus_vx);
}

#[test]
fn chaos_moves_pc_to_an_even_entry_page_address() {
    let mut chip = Chip8::new();
    for _ in 0..32 {
        chip.chaos();
        let pc = chip.pc();
        assert!((0x200..=0x2FE).contains(&pc));
        assert_eq!(pc % 2, 0);
    }
}

#[test]
fn sound_struct_reports_its_initial_buffer() {
    let s = Sound::new();
    assert_eq!(s.pitch, 247);
    assert_eq!(s.pattern.len(), 16);
    assert!(s.dirty);
}
