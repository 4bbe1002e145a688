use chip8_core::machine::Chip8;
use chip8_core::quirks::{Mode, Quirks};

fn lit_cells(chip: &Chip8, plane: usize) -> Vec<(usize, usize)> {
    let screen = chip.get_screen();
    let mut out = Vec::new();
    for (r, row) in screen.iter().enumerate() {
        for (c, cell) in row.iter().enumerate() {
            if cell[plane] {
                out.push((r, c));
            }
        }
    }
    out
}

#[test]
fn lores_sprite_draws_doubled_pixels() {
    let mut chip = Chip8::new();
    // I = font glyph "0" (first row 0xF0); draw one row at (0, 0). In
    // low-res mode each logical pixel becomes a 2x2 block.
    let rom = vec![0xA0, 0x50, 0x60, 0x00, 0x61, 0x00, 0xD0, 0x11];
    chip.load_rom(rom, 0x200).unwrap();
    for _ in 0..4 {
        chip.step().unwrap();
    }
    let lit = lit_cells(&chip, 0);
    // 0xF0 has four set bits: logical pixels (0,0)..(0,3) -> 16 cells.
    assert_eq!(lit.len(), 16);
    for r in 0..2 {
        for c in 0..8 {
            assert!(lit.contains(&(r, c)));
        }
    }
    assert_eq!(chip.register(0xF), 0);
}

#[test]
fn drawing_twice_restores_the_buffer_and_reports_collision() {
    let mut chip = Chip8::new();
    let rom = vec![
        0xA0, 0x50, 0x60, 0x04, 0x61, 0x05, 0xD0, 0x11, 0xD0, 0x11,
    ];
    chip.load_rom(rom, 0x200).unwrap();
    for _ in 0..4 {
        chip.step().unwrap();
    }
    assert!(!lit_cells(&chip, 0).is_empty(), "the first draw sets pixels");
    assert_eq!(chip.register(0xF), 0, "no collision on a blank screen");
    chip.step().unwrap();
    assert!(lit_cells(&chip, 0).is_empty(), "the second draw undoes the first");
    assert_eq!(chip.register(0xF), 1, "the second draw collides");
}

#[test]
fn hires_16x16_sprite_uses_word_rows() {
    let mut chip = Chip8::new();
    // Enter high-resolution mode, point I at the font, draw with n = 0.
    let rom = vec![0x00, 0xFF, 0xA0, 0x50, 0x60, 0x00, 0x61, 0x00, 0xD0, 0x10];
    chip.load_rom(rom, 0x200).unwrap();
    for _ in 0..5 {
        chip.step().unwrap();
    }
    let screen = chip.get_screen();
    // Row 0 is the word 0xF090: bits 0-3, 8 and 11 are set.
    for c in 0..4 {
        assert!(screen[0][c][0]);
    }
    assert!(!screen[0][4][0]);
    assert!(screen[0][8][0]);
    assert!(!screen[0][10][0]);
    assert!(screen[0][11][0]);
}

#[test]
fn mode_switch_clears_both_planes() {
    let mut chip = Chip8::new();
    // Draw something, then enter high-resolution mode: the screen clears.
    let rom = vec![0xA0, 0x50, 0xD0, 0x01, 0x00, 0xFF];
    chip.load_rom(rom, 0x200).unwrap();
    for _ in 0..2 {
        chip.step().unwrap();
    }
    assert!(!lit_cells(&chip, 0).is_empty());
    chip.step().unwrap();
    assert!(lit_cells(&chip, 0).is_empty());
    assert!(lit_cells(&chip, 1).is_empty());
}

#[test]
fn cls_clears_selected_plane_only() {
    let mut chip = Chip8::new();
    // Draw on plane 0 (the default selection), then select plane 1 alone
    // and clear: plane 0 keeps its pixels.
    let rom = vec![
        0xA0, 0x50, 0x60, 0x00, 0x61, 0x00, 0xD0, 0x11, 0xF2, 0x01, 0x00, 0xE0,
    ];
    chip.load_rom(rom, 0x200).unwrap();
    for _ in 0..6 {
        chip.step().unwrap();
    }
    assert!(!lit_cells(&chip, 0).is_empty(), "the unselected plane is untouched");
    assert!(lit_cells(&chip, 1).is_empty());
}

#[test]
fn cls_clears_the_drawn_plane_when_selected() {
    let mut chip = Chip8::new();
    let rom = vec![0xA0, 0x50, 0xD0, 0x01, 0x00, 0xE0];
    chip.load_rom(rom, 0x200).unwrap();
    for _ in 0..3 {
        chip.step().unwrap();
    }
    assert!(lit_cells(&chip, 0).is_empty());
}

#[test]
fn hires_scroll_down_moves_rows() {
    let mut chip = Chip8::new();
    // Hi-res; draw row 0xF0 at (0,0); scroll down one row.
    let rom = vec![
        0x00, 0xFF, 0xA0, 0x50, 0x60, 0x00, 0x61, 0x00, 0xD0, 0x11, 0x00, 0xC1,
    ];
    chip.load_rom(rom, 0x200).unwrap();
    for _ in 0..6 {
        chip.step().unwrap();
    }
    let lit = lit_cells(&chip, 0);
    assert_eq!(lit, vec![(1, 0), (1, 1), (1, 2), (1, 3)]);
}

#[test]
fn lores_scroll_distance_is_doubled() {
    let mut chip = Chip8::new();
    // In low-res mode a scroll of one row moves the doubled grid by two.
    let rom = vec![0xA0, 0x50, 0xD0, 0x01, 0x00, 0xC1];
    chip.load_rom(rom, 0x200).unwrap();
    for _ in 0..2 {
        chip.step().unwrap();
    }
    let before = lit_cells(&chip, 0);
    assert!(before.iter().all(|&(r, _)| r < 2));
    chip.step().unwrap();
    let after = lit_cells(&chip, 0);
    assert_eq!(after.len(), before.len());
    assert!(after.iter().all(|&(r, _)| (2..4).contains(&r)));
}

#[test]
fn hires_scroll_right_moves_columns() {
    let mut chip = Chip8::new();
    let rom = vec![
        0x00, 0xFF, 0xA0, 0x50, 0x60, 0x00, 0x61, 0x00, 0xD0, 0x11, 0x00, 0xFB,
    ];
    chip.load_rom(rom, 0x200).unwrap();
    for _ in 0..6 {
        chip.step().unwrap();
    }
    let lit = lit_cells(&chip, 0);
    assert_eq!(lit, vec![(0, 4), (0, 5), (0, 6), (0, 7)]);
}

#[test]
fn clipping_quirk_drops_pixels_at_the_edge() {
    // XO-CHIP wraps: a sprite at column 62 in low-res wraps to column 0.
    let mut chip = Chip8::new();
    let rom = vec![0xA0, 0x50, 0x60, 0x3E, 0x61, 0x00, 0xD0, 0x11];
    chip.load_rom(rom.clone(), 0x200).unwrap();
    for _ in 0..4 {
        chip.step().unwrap();
    }
    let wrapped = lit_cells(&chip, 0);
    assert!(wrapped.iter().any(|&(_, c)| c < 8), "pixels wrap to the left edge");
    // SuperChip-Modern clips instead.
    let mut chip2 = Chip8::new();
    chip2.set_quirks_mode(Quirks::new(Mode::SuperChipModern));
    chip2.load_rom(rom, 0x200).unwrap();
    for _ in 0..4 {
        chip2.step().unwrap();
    }
    let clipped = lit_cells(&chip2, 0);
    assert!(clipped.iter().all(|&(_, c)| c >= 124), "clipped pixels stay at the right edge");
}
